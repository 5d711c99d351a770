//! A Snowflake table worker: when its open batch is delivered, how many
//! deliveries run at a time, and when a flush is answered.
use vstd::prelude::*;
use vstd::string::*;

use crate::pipeline::batcher::all_rows;
use crate::pipeline::tail::{
    delivery_due, delivery_text, snowflake_add, snowflake_delivery_result, DeliveryOutcome,
    SnowflakeBatch, SnowflakeRow,
};

verus! {

/// What made the worker start a delivery.
#[derive(Debug, Clone, Copy, PartialEq, Eq, Structural)]
pub enum Cause {
    /// The open batch reached a budget.
    Budget,
    Deadline,
    /// A flush that is to be answered.
    Flush,
    /// The worker's channel was closed.
    Close,
}

/// What the worker is in the middle of.
#[derive(Debug, Clone, Copy, PartialEq, Eq, Structural)]
pub enum Phase {
    /// Takes messages, and notices deliveries that end.
    Open,
    /// Waits for a place among the running deliveries.
    Crowded(Cause),
    /// Waits for every running delivery.
    Draining(Cause),
    Stopped,
}

/// What the worker's driver does next.
#[derive(Debug)]
pub enum WorkerStep<R> {
    /// Take the next message, deadline or ended delivery.
    Listen,
    /// Wait for one delivery to end, and nothing else.
    AwaitDelivery,
    /// Run this delivery beside the others, then do what `next` says.
    Deliver { batch: SnowflakeBatch<R>, next: AfterStart },
    /// Answer the flush, then listen.
    Reply,
    /// End the worker; with a message, it is fatal to the pipeline.
    Stop(Option<String>),
}

#[derive(Debug, Clone, Copy, PartialEq, Eq, Structural)]
pub enum AfterStart {
    Listen,
    AwaitDelivery,
}

pub open spec fn prefix_of(cause: Cause) -> Seq<char> {
    match cause {
        Cause::Budget => "snowflake table delivery: "@,
        Cause::Deadline => "snowflake table deadline: "@,
        Cause::Flush => "snowflake table flush: "@,
        Cause::Close => "snowflake table final flush: "@,
    }
}

fn with_prefix(cause: Cause, e: &str) -> (m: String)
    ensures
        m@ == prefix_of(cause) + e@,
{
    let mut m: String = match cause {
        Cause::Budget => String::from_str("snowflake table delivery: "),
        Cause::Deadline => String::from_str("snowflake table deadline: "),
        Cause::Flush => String::from_str("snowflake table flush: "),
        Cause::Close => String::from_str("snowflake table final flush: "),
    };
    m.append(e);
    m
}

pub struct TableWorker<R> {
    pub batch: Option<SnowflakeBatch<R>>,
    pub running: usize,
    pub max_parallel: usize,
    pub phase: Phase,
}

/// A cause after whose delivery the worker waits for all of them.
pub open spec fn drains(cause: Cause) -> bool {
    cause is Flush || cause is Close
}

/// The phase once the open batch is gone and `running` deliveries run.
pub open spec fn phase_after(cause: Cause, running: nat) -> Phase {
    match cause {
        Cause::Budget => Phase::Open,
        Cause::Deadline => Phase::Open,
        Cause::Flush => if running == 0 {
            Phase::Open
        } else {
            Phase::Draining(cause)
        },
        Cause::Close => if running == 0 {
            Phase::Stopped
        } else {
            Phase::Draining(cause)
        },
    }
}

impl<R> TableWorker<R> {
    pub open spec fn wf(&self) -> bool {
        &&& self.batch matches Some(b) ==> b.wf()
        &&& self.running <= self.max_parallel
        &&& match self.phase {
            Phase::Crowded(_) => self.batch is Some && self.running == self.max_parallel,
            Phase::Draining(c) => self.batch is None && drains(c) && self.running > 0,
            _ => true,
        }
    }

    pub fn new(max_parallel: usize) -> (r: Self)
        ensures
            r.wf(),
            r.batch is None,
            r.running == 0,
            r.max_parallel == max_parallel,
            r.phase == Phase::Open,
    {
        TableWorker { batch: None, running: 0, max_parallel, phase: Phase::Open }
    }

    /// What a start for `cause` makes of `pre`, and the step that it takes:
    /// the open batch is delivered if there is a place for it, else the
    /// worker waits for one.
    pub open spec fn started(pre: Self, cause: Cause, post: Self, step: WorkerStep<R>) -> bool {
        &&& post.max_parallel == pre.max_parallel
        &&& match pre.batch {
            None => {
                &&& post.batch is None
                &&& post.running == pre.running
                &&& post.phase == phase_after(cause, pre.running as nat)
                &&& match cause {
                    Cause::Flush => if pre.running == 0 {
                        step is Reply
                    } else {
                        step is AwaitDelivery
                    },
                    Cause::Close => if pre.running == 0 {
                        step == WorkerStep::<R>::Stop(None)
                    } else {
                        step is AwaitDelivery
                    },
                    _ => step is Listen,
                }
            },
            Some(b) => if pre.running >= pre.max_parallel {
                &&& post.batch == pre.batch
                &&& post.running == pre.running
                &&& post.phase == Phase::Crowded(cause)
                &&& step is AwaitDelivery
            } else {
                &&& post.batch is None
                &&& post.running == pre.running + 1
                &&& post.phase == phase_after(cause, (pre.running + 1) as nat)
                &&& step == (WorkerStep::Deliver {
                    batch: b,
                    next: if drains(cause) {
                        AfterStart::AwaitDelivery
                    } else {
                        AfterStart::Listen
                    },
                })
            },
        }
    }

    fn start(&mut self, cause: Cause) -> (step: WorkerStep<R>)
        requires
            old(self).batch matches Some(b) ==> b.wf(),
            old(self).running <= old(self).max_parallel,
        ensures
            final(self).wf(),
            Self::started(*old(self), cause, *final(self), step),
    {
        match self.batch.take() {
            None => match cause {
                Cause::Budget => {
                    self.phase = Phase::Open;
                    WorkerStep::Listen
                },
                Cause::Deadline => {
                    self.phase = Phase::Open;
                    WorkerStep::Listen
                },
                Cause::Flush => self.drained_or_waiting(cause),
                Cause::Close => self.drained_or_waiting(cause),
            },
            Some(b) => {
                if self.running >= self.max_parallel {
                    self.batch = Some(b);
                    self.phase = Phase::Crowded(cause);
                    return WorkerStep::AwaitDelivery;
                }
                self.running = self.running + 1;
                match cause {
                    Cause::Budget => {
                        self.phase = Phase::Open;
                        WorkerStep::Deliver { batch: b, next: AfterStart::Listen }
                    },
                    Cause::Deadline => {
                        self.phase = Phase::Open;
                        WorkerStep::Deliver { batch: b, next: AfterStart::Listen }
                    },
                    _ => {
                        self.phase = Phase::Draining(cause);
                        WorkerStep::Deliver { batch: b, next: AfterStart::AwaitDelivery }
                    },
                }
            },
        }
    }

    fn drained_or_waiting(&mut self, cause: Cause) -> (step: WorkerStep<R>)
        requires
            old(self).batch is None,
            old(self).running <= old(self).max_parallel,
            drains(cause),
        ensures
            final(self).wf(),
            Self::started(*old(self), cause, *final(self), step),
    {
        if self.running > 0 {
            self.phase = Phase::Draining(cause);
            return WorkerStep::AwaitDelivery;
        }
        match cause {
            Cause::Close => {
                self.phase = Phase::Stopped;
                WorkerStep::Stop(None)
            },
            _ => {
                self.phase = Phase::Open;
                WorkerStep::Reply
            },
        }
    }

    /// Take a row, and deliver the open batch once it has reached a budget.
    /// A row of another schema than the open batch's stops the worker.
    pub fn on_row(
        &mut self,
        row: SnowflakeRow<R>,
        deadline: u64,
        row_budget: usize,
        byte_budget: usize,
    ) -> (step: WorkerStep<R>)
        requires
            old(self).wf(),
            old(self).phase == Phase::Open,
            old(self).batch matches Some(b) ==> all_rows(b.per_seq@) < u64::MAX,
        ensures
            final(self).wf(),
            match old(self).batch {
                Some(b) if b.schema != row.schema => {
                    &&& step matches WorkerStep::Stop(Some(m)) && m@ == "snowflake table: "@
                        + "Snowflake schema changed inside open batch"@
                    &&& *final(self) == (TableWorker { phase: Phase::Stopped, ..*old(self) })
                },
                _ => exists|mid: SnowflakeBatch<R>|
                    {
                        &&& #[trigger] crate::pipeline::tail::added(
                            old(self).batch,
                            row,
                            deadline,
                            mid,
                        )
                        &&& if mid.rows@.len() >= row_budget || mid.bytes >= byte_budget {
                            Self::started(
                                TableWorker { batch: Some(mid), ..*old(self) },
                                Cause::Budget,
                                *final(self),
                                step,
                            )
                        } else {
                            &&& step is Listen
                            &&& *final(self) == (TableWorker { batch: Some(mid), ..*old(self) })
                        }
                    },
            },
    {
        match snowflake_add(&mut self.batch, row, deadline) {
            Err(e) => {
                let mut m: String = String::from_str("snowflake table: ");
                m.append(e.as_str());
                self.phase = Phase::Stopped;
                return WorkerStep::Stop(Some(m));
            },
            Ok(()) => {},
        }
        let ghost mid = self.batch->0;
        assert(crate::pipeline::tail::added(old(self).batch, row, deadline, mid));
        if delivery_due(&self.batch, row_budget, byte_budget) {
            return self.start(Cause::Budget);
        }
        WorkerStep::Listen
    }

    /// Deliver what is open and answer once every delivery has ended.
    pub fn on_flush(&mut self) -> (step: WorkerStep<R>)
        requires
            old(self).wf(),
            old(self).phase == Phase::Open,
        ensures
            final(self).wf(),
            Self::started(*old(self), Cause::Flush, *final(self), step),
    {
        self.start(Cause::Flush)
    }

    /// Deliver what is open and end once every delivery has ended.
    pub fn on_close(&mut self) -> (step: WorkerStep<R>)
        requires
            old(self).wf(),
            old(self).phase == Phase::Open,
        ensures
            final(self).wf(),
            Self::started(*old(self), Cause::Close, *final(self), step),
    {
        self.start(Cause::Close)
    }

    pub fn on_deadline(&mut self) -> (step: WorkerStep<R>)
        requires
            old(self).wf(),
            old(self).phase == Phase::Open,
        ensures
            final(self).wf(),
            Self::started(*old(self), Cause::Deadline, *final(self), step),
    {
        self.start(Cause::Deadline)
    }

    /// The cause to which a failed delivery is reported.
    pub open spec fn blamed(&self) -> Cause {
        match self.phase {
            Phase::Crowded(c) => c,
            Phase::Draining(c) => c,
            _ => Cause::Budget,
        }
    }

    /// One delivery ended, or none was there to wait for. A failure stops the
    /// worker; otherwise it goes on with what it was in the middle of.
    pub fn on_delivered(&mut self, outcome: DeliveryOutcome) -> (step: WorkerStep<R>)
        requires
            old(self).wf(),
            old(self).phase != Phase::Stopped,
            outcome is Disappeared || old(self).running > 0,
        ensures
            final(self).wf(),
            match delivery_text(outcome) {
                Some(e) => {
                    &&& step matches WorkerStep::Stop(Some(m)) && m@ == prefix_of(
                        old(self).blamed(),
                    ) + e
                    &&& *final(self) == (TableWorker { phase: Phase::Stopped, ..*old(self) })
                },
                None => {
                    let left = TableWorker { running: (old(self).running - 1) as usize, ..*old(self)
                    };
                    match old(self).phase {
                        Phase::Crowded(c) => Self::started(left, c, *final(self), step),
                        Phase::Draining(c) => Self::started(left, c, *final(self), step),
                        _ => *final(self) == left && step is Listen,
                    }
                },
            },
    {
        let cause: Cause = match self.phase {
            Phase::Crowded(c) => c,
            Phase::Draining(c) => c,
            _ => Cause::Budget,
        };
        match snowflake_delivery_result(outcome) {
            Err(e) => {
                self.phase = Phase::Stopped;
                WorkerStep::Stop(Some(with_prefix(cause, e.as_str())))
            },
            Ok(()) => {
                self.running = self.running - 1;
                match self.phase {
                    Phase::Crowded(c) => self.start(c),
                    Phase::Draining(c) => self.start(c),
                    _ => WorkerStep::Listen,
                }
            },
        }
    }
}

/// A flush is answered, and a closed worker ends without a message, only when
/// no row waits and no delivery runs.
pub proof fn answered_flush_leaves_nothing_behind<R>(
    pre: TableWorker<R>,
    cause: Cause,
    post: TableWorker<R>,
    step: WorkerStep<R>,
)
    requires
        TableWorker::started(pre, cause, post, step),
        step is Reply || step == WorkerStep::<R>::Stop(None),
    ensures
        post.batch is None,
        post.running == 0,
{
}

/// No more deliveries run at a time than the table has channels.
pub proof fn deliveries_stay_within_the_channels<R>(
    pre: TableWorker<R>,
    cause: Cause,
    post: TableWorker<R>,
    step: WorkerStep<R>,
)
    requires
        TableWorker::started(pre, cause, post, step),
        pre.running <= pre.max_parallel,
    ensures
        post.running <= post.max_parallel,
        step is Deliver ==> pre.running < pre.max_parallel,
{
}

} // verus!

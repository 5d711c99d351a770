//! Executing a sealed plan: its items are read back one by one and become the
//! steps of the commit.
use vstd::prelude::*;
use vstd::string::*;

use crate::pipeline::plan_replay::{control_or_end, header_fault, start_state, ItemView};
use crate::pipeline::plan_spool::{OrderedEvent, SealedPlan, SpoolErrorView};
use crate::pipeline::plan_stream::{
    wants_frame, PlanPass, PlanStream, ReadyPlan, StreamTurn,
};
use crate::pipeline::planner::carried;
use crate::pipeline::reorder::{
    step_views, ExecItem, ExecLimits, ExecState, ExecStep, Executor,
};
use crate::pipeline::reorder_laws::fresh;

verus! {

/// What the next item of a plan asks for.
pub enum PlanTurn<'p, E, H> {
    /// Take the steps; the last one applies this event.
    Control { event: &'p OrderedEvent<E>, steps: Vec<ExecStep<H>> },
    /// Read a frame through the stream, and hand the heap in if it holds one.
    Frame,
    /// Take the steps; the plan is done.
    End { steps: Vec<ExecStep<H>>, published: bool },
}

/// Mirror rows that the plan carries.
pub open spec fn plan_rows<E>(plan: SealedPlan<E>) -> nat {
    carried(plan.row_batches@.map_values(|b: Vec<u64>| b@))
}

/// A plan in execution.
pub struct PlanRun<'p, E, H> {
    /// The plan's items.
    pub stream: PlanStream<'p, E>,
    pub steps: Executor<H>,
    /// Mirror rows that the plan carries.
    pub total_rows: usize,
}

impl<'p, E, H> PlanRun<'p, E, H> {
    /// Where executing it stands.
    pub open spec fn executing(&self) -> ExecState<H> {
        self.steps.state()
    }

    pub open spec fn limits(&self) -> ExecLimits {
        self.steps.limits()
    }

    pub open spec fn total_rows(&self) -> nat {
        self.total_rows as nat
    }

    /// Start executing a plan with the seqs from `next_seq` on; `first` is
    /// what could be read of the plan's first bytes.
    pub fn open(
        ready: ReadyPlan<'p, E>,
        first: &[u8],
        batch_rows: usize,
        batch_bytes: usize,
        next_seq: u64,
    ) -> (r: Result<Self, String>)
        requires
            plan_rows(ready.plan()) <= usize::MAX,
        ensures
            match r {
                Err(m) => header_fault(first@) is Some && m@ == PlanPass::Replay.prefix()
                    + header_fault(first@)->0.text(),
                Ok(run) => {
                    &&& header_fault(first@) is None
                    &&& run.stream.wf()
                    &&& run.stream.plan() == ready.plan()
                    &&& run.stream.pass() == PlanPass::Replay
                    &&& run.stream.state() == start_state()
                    &&& run.stream.stage() is Between
                    &&& run.executing() == fresh::<H>(next_seq as nat)
                    &&& run.limits() == (ExecLimits {
                        batch_rows,
                        batch_bytes,
                        truncates: ready.plan().truncate_rows@,
                    })
                    &&& run.total_rows() == plan_rows(ready.plan())
                },
            },
    {
        let plan = ready.sealed();
        let stream = match PlanStream::replay(ready, first) {
            Ok(s) => s,
            Err(m) => {
                return Err(m);
            },
        };
        let mut total_rows: usize = 0;
        let mut i: usize = 0;
        let ghost batches = plan.row_batches@.map_values(|b: Vec<u64>| b@);
        proof {
            assert(batches.subrange(0, 0) =~= Seq::empty());
        }
        while i < plan.row_batches.len()
            invariant
                i <= plan.row_batches@.len(),
                batches == plan.row_batches@.map_values(|b: Vec<u64>| b@),
                carried(batches) <= usize::MAX,
                total_rows == carried(batches.subrange(0, i as int)),
            decreases plan.row_batches@.len() - i,
        {
            proof {
                let part = batches.subrange(0, i as int + 1);
                assert(part.drop_last() =~= batches.subrange(0, i as int));
                assert(part.last() == plan.row_batches@[i as int]@);
                lemma_carried_grows(batches, i as int + 1);
            }
            total_rows = total_rows + plan.row_batches[i].len();
            i = i + 1;
        }
        proof {
            assert(batches.subrange(0, i as int) =~= batches);
        }
        let mut truncates: Vec<usize> = Vec::new();
        let mut k: usize = 0;
        while k < plan.truncate_rows.len()
            invariant
                k <= plan.truncate_rows@.len(),
                truncates@ == plan.truncate_rows@.subrange(0, k as int),
            decreases plan.truncate_rows@.len() - k,
        {
            truncates.push(plan.truncate_rows[k]);
            k = k + 1;
        }
        proof {
            assert(truncates@ =~= plan.truncate_rows@);
        }
        Ok(
            PlanRun {
                stream,
                steps: Executor::new(batch_rows, batch_bytes, truncates, next_seq),
                total_rows,
            },
        )
    }

    /// The next item of the plan.
    pub fn next_turn(&mut self) -> (r: PlanTurn<'p, E, H>)
        requires
            old(self).stream.wf(),
            old(self).stream.stage() is Between,
            old(self).executing().next_seq < u64::MAX,
        ensures
            final(self).stream.wf(),
            final(self).stream.stage() is Between,
            final(self).stream.plan() == old(self).stream.plan(),
            final(self).stream.pass() == old(self).stream.pass(),
            final(self).limits() == old(self).limits(),
            final(self).total_rows() == old(self).total_rows(),
            ({
                let p = old(self).stream.plan()@;
                let st = old(self).stream.state();
                let pre = old(self).executing();
                match r {
                    PlanTurn::Frame => {
                        &&& wants_frame(p, st)
                        &&& final(self).stream.state() == st
                        &&& final(self).executing() == pre
                    },
                    PlanTurn::Control { event, steps } => {
                        &&& control_or_end(p, st) == (
                            Ok::<_, SpoolErrorView>(Some(ItemView::Control(*event))),
                            final(self).stream.state(),
                        )
                        &&& (step_views(steps@), final(self).executing()) == pre.stepped(
                            ExecItem::Control(event.row_idx as nat),
                            old(self).limits(),
                        )
                    },
                    PlanTurn::End { steps, published } => {
                        &&& st.done
                        &&& control_or_end(p, st) == (
                            Ok::<_, SpoolErrorView>(None::<ItemView<E>>),
                            final(self).stream.state(),
                        )
                        &&& (step_views(steps@), final(self).executing()) == pre.finished(
                            old(self).total_rows(),
                        )
                        &&& published == (pre.pending.len() > 0)
                    },
                }
            }),
    {
        match self.stream.next() {
            StreamTurn::Frame => PlanTurn::Frame,
            StreamTurn::Control(c) => {
                let steps: Vec<ExecStep<H>> = self.steps.on_control(c.row_idx);
                PlanTurn::Control { event: c, steps }
            },
            StreamTurn::End => {
                let (steps, published): (Vec<ExecStep<H>>, bool) = self.steps.finish(
                    self.total_rows,
                );
                PlanTurn::End { steps, published }
            },
        }
    }

    /// A decoded heap of the plan: a truncate fences and is applied, a row
    /// joins the pending ones.
    pub fn on_heap(&mut self, heap: H, truncate: bool, bytes: usize) -> (steps: Vec<ExecStep<H>>)
        requires
            old(self).executing().next_seq < u64::MAX,
            old(self).executing().rows_total < u64::MAX,
        ensures
            final(self).stream == old(self).stream,
            final(self).limits() == old(self).limits(),
            final(self).total_rows() == old(self).total_rows(),
            (step_views(steps@), final(self).executing()) == old(self).executing().stepped(
                if truncate {
                    ExecItem::Truncate
                } else {
                    ExecItem::Heap(heap, bytes as nat)
                },
                old(self).limits(),
            ),
    {
        if truncate {
            self.steps.on_truncate()
        } else {
            self.steps.on_heap(heap, bytes)
        }
    }

    /// Rows dispatched or pending.
    pub fn rows_total(&self) -> (n: u64)
        ensures
            n == self.executing().rows_total,
    {
        self.steps.rows_total()
    }

    /// The next free seq.
    pub fn next_seq(&self) -> (n: u64)
        ensures
            n == self.executing().next_seq,
    {
        self.steps.next_seq()
    }
}

proof fn lemma_carried_grows(batches: Seq<Seq<u64>>, n: int)
    requires
        0 <= n <= batches.len(),
    ensures
        carried(batches.subrange(0, n)) <= carried(batches),
    decreases batches.len() - n,
{
    if n < batches.len() {
        assert(batches.subrange(0, n + 1).drop_last() =~= batches.subrange(0, n));
        lemma_carried_grows(batches, n + 1);
    } else {
        assert(batches.subrange(0, n) =~= batches);
    }
}

} // verus!

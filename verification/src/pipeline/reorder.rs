//! Execution of a plan in commit order.
//!
//! Heaps are dispatched in slices, each under a seq of its own. A control or
//! a truncate waits for a fence: everything before it is dispatched and
//! durable. Only a commit's last seq publishes the commit position; when
//! nothing is left to dispatch at the end, a marker without rows does.
use vstd::prelude::*;
use vstd::string::*;

use crate::text::{dec, push_dec};

verus! {

/// One step of executing a plan.
#[derive(Debug)]
pub enum ExecStep<H> {
    /// Materialize the plan's mirror rows from `from` up to `to`.
    PutRows { from: usize, to: usize },
    /// Place the heaps under `seq`.
    Dispatch { seq: u64, publish: bool, heaps: Vec<H>, bytes: usize },
    /// Seal every table and wait until all seqs so far are durable.
    Fence,
    /// Apply the control or truncate.
    Apply,
}

pub enum StepView<H> {
    PutRows(nat, nat),
    Dispatch { seq: nat, publish: bool, heaps: Seq<H>, bytes: usize },
    Fence,
    Apply,
}

impl<H> View for ExecStep<H> {
    type V = StepView<H>;

    open spec fn view(&self) -> StepView<H> {
        match self {
            ExecStep::PutRows { from, to } => StepView::PutRows(*from as nat, *to as nat),
            ExecStep::Dispatch { seq, publish, heaps, bytes } => StepView::Dispatch {
                seq: *seq as nat,
                publish: *publish,
                heaps: heaps@,
                bytes: *bytes,
            },
            ExecStep::Fence => StepView::Fence,
            ExecStep::Apply => StepView::Apply,
        }
    }
}

pub open spec fn step_views<H>(v: Seq<ExecStep<H>>) -> Seq<StepView<H>> {
    v.map_values(|s: ExecStep<H>| s@)
}

/// One item of a plan, as its execution sees it.
pub enum ExecItem<H> {
    /// A control that fences the mirror rows below this position.
    Control(nat),
    Truncate,
    Heap(H, nat),
}

/// Where the execution of a plan stands.
pub struct ExecState<H> {
    pub pending: Seq<H>,
    pub pending_bytes: usize,
    pub cursor: nat,
    pub next_truncate: nat,
    pub rows_total: nat,
    pub next_seq: nat,
}

/// Slice budget and fences of an execution.
pub struct ExecLimits {
    pub batch_rows: usize,
    pub batch_bytes: usize,
    /// Mirror-row fences of the truncates, in order.
    pub truncates: Seq<usize>,
}

pub open spec fn add_clamped(a: usize, b: nat) -> usize {
    if a + b <= usize::MAX {
        (a + b) as usize
    } else {
        usize::MAX
    }
}

impl<H> ExecState<H> {
    /// Materialize mirror rows up to `end`; never back.
    pub open spec fn put(self, end: nat) -> (Seq<StepView<H>>, ExecState<H>) {
        if end > self.cursor {
            (
                seq![StepView::PutRows(self.cursor, end)],
                ExecState { cursor: end, ..self },
            )
        } else {
            (Seq::empty(), self)
        }
    }

    /// Dispatch what is pending under a fresh seq.
    pub open spec fn dispatched(self, publish: bool) -> (Seq<StepView<H>>, ExecState<H>) {
        if self.pending.len() == 0 {
            (Seq::empty(), self)
        } else {
            (
                seq![
                    StepView::Dispatch {
                        seq: self.next_seq,
                        publish,
                        heaps: self.pending,
                        bytes: self.pending_bytes,
                    },
                ],
                ExecState {
                    pending: Seq::empty(),
                    pending_bytes: 0,
                    next_seq: self.next_seq + 1,
                    ..self
                },
            )
        }
    }

    /// Everything before a control or truncate: its mirror rows, the pending
    /// heaps, and the fence.
    pub open spec fn fenced(self, end: nat) -> (Seq<StepView<H>>, ExecState<H>) {
        let (a, s1) = self.put(end);
        let (b, s2) = s1.dispatched(false);
        (a + b + seq![StepView::Fence, StepView::Apply], s2)
    }

    pub open spec fn stepped(self, item: ExecItem<H>, l: ExecLimits) -> (
        Seq<StepView<H>>,
        ExecState<H>,
    ) {
        match item {
            ExecItem::Control(row_idx) => self.fenced(row_idx),
            ExecItem::Truncate => {
                let upto = if self.next_truncate < l.truncates.len() {
                    l.truncates[self.next_truncate as int] as nat
                } else {
                    self.cursor
                };
                let (steps, s) = self.fenced(upto);
                (
                    steps,
                    ExecState {
                        next_truncate: if self.next_truncate < l.truncates.len() {
                            self.next_truncate + 1
                        } else {
                            self.next_truncate
                        },
                        ..s
                    },
                )
            },
            ExecItem::Heap(h, bytes) => {
                let s = ExecState {
                    pending: self.pending.push(h),
                    pending_bytes: add_clamped(self.pending_bytes, bytes),
                    rows_total: self.rows_total + 1,
                    ..self
                };
                if s.pending.len() >= l.batch_rows || s.pending_bytes >= l.batch_bytes {
                    s.dispatched(false)
                } else {
                    (Seq::empty(), s)
                }
            },
        }
    }

    /// The end of the plan: the remaining mirror rows, then the remaining
    /// heaps, which publish the commit.
    pub open spec fn finished(self, total_rows: nat) -> (Seq<StepView<H>>, ExecState<H>) {
        let (a, s1) = self.put(total_rows);
        let (b, s2) = s1.dispatched(true);
        (a + b, s2)
    }
}

/// Executes one plan.
pub struct Executor<H> {
    batch_rows: usize,
    batch_bytes: usize,
    truncates: Vec<usize>,
    pending: Vec<H>,
    pending_bytes: usize,
    cursor: usize,
    next_truncate: usize,
    rows_total: u64,
    next_seq: u64,
}

fn push_step<H>(out: &mut Vec<ExecStep<H>>, s: ExecStep<H>)
    ensures
        step_views(final(out)@) == step_views(old(out)@).push(s@),
{
    out.push(s);
    proof {
        assert(step_views(out@) =~= step_views(old(out)@).push(s@));
    }
}

impl<H> Executor<H> {
    pub closed spec fn state(&self) -> ExecState<H> {
        ExecState {
            pending: self.pending@,
            pending_bytes: self.pending_bytes,
            cursor: self.cursor as nat,
            next_truncate: self.next_truncate as nat,
            rows_total: self.rows_total as nat,
            next_seq: self.next_seq as nat,
        }
    }

    pub closed spec fn limits(&self) -> ExecLimits {
        ExecLimits {
            batch_rows: self.batch_rows,
            batch_bytes: self.batch_bytes,
            truncates: self.truncates@,
        }
    }

    /// Start executing a plan with the seqs from `next_seq` on.
    pub fn new(
        batch_rows: usize,
        batch_bytes: usize,
        truncates: Vec<usize>,
        next_seq: u64,
    ) -> (r: Self)
        ensures
            r.limits() == (ExecLimits { batch_rows, batch_bytes, truncates: truncates@ }),
            r.state() == (ExecState {
                pending: Seq::<H>::empty(),
                pending_bytes: 0,
                cursor: 0,
                next_truncate: 0,
                rows_total: 0,
                next_seq: next_seq as nat,
            }),
    {
        let r = Executor {
            batch_rows,
            batch_bytes,
            truncates,
            pending: Vec::new(),
            pending_bytes: 0,
            cursor: 0,
            next_truncate: 0,
            rows_total: 0,
            next_seq,
        };
        proof {
            assert(r.pending@ =~= Seq::<H>::empty());
        }
        r
    }

    fn put(&mut self, out: &mut Vec<ExecStep<H>>, end: usize)
        ensures
            final(self).limits() == old(self).limits(),
            ({
                let (steps, s) = old(self).state().put(end as nat);
                &&& step_views(final(out)@) == step_views(old(out)@) + steps
                &&& final(self).state() == s
            }),
    {
        if end > self.cursor {
            push_step(out, ExecStep::PutRows { from: self.cursor, to: end });
            self.cursor = end;
        }
        proof {
            let (steps, s) = old(self).state().put(end as nat);
            assert(step_views(out@) =~= step_views(old(out)@) + steps);
        }
    }

    fn dispatch(&mut self, out: &mut Vec<ExecStep<H>>, publish: bool)
        requires
            old(self).state().next_seq < u64::MAX,
        ensures
            final(self).limits() == old(self).limits(),
            ({
                let (steps, s) = old(self).state().dispatched(publish);
                &&& step_views(final(out)@) == step_views(old(out)@) + steps
                &&& final(self).state() == s
            }),
    {
        if self.pending.len() > 0 {
            let mut heaps: Vec<H> = Vec::new();
            std::mem::swap(&mut heaps, &mut self.pending);
            let bytes: usize = self.pending_bytes;
            self.pending_bytes = 0;
            let seq: u64 = self.next_seq;
            self.next_seq = self.next_seq + 1;
            push_step(out, ExecStep::Dispatch { seq, publish, heaps, bytes });
        }
        proof {
            let (steps, s) = old(self).state().dispatched(publish);
            assert(step_views(out@) =~= step_views(old(out)@) + steps);
            assert(self.pending@ =~= s.pending);
        }
    }

    fn fence(&mut self, end: usize) -> (out: Vec<ExecStep<H>>)
        requires
            old(self).state().next_seq < u64::MAX,
        ensures
            final(self).limits() == old(self).limits(),
            ({
                let (steps, s) = old(self).state().fenced(end as nat);
                &&& step_views(out@) == steps
                &&& final(self).state() == s
            }),
    {
        let mut out: Vec<ExecStep<H>> = Vec::new();
        proof {
            assert(step_views(out@) =~= Seq::empty());
        }
        self.put(&mut out, end);
        self.dispatch(&mut out, false);
        push_step(&mut out, ExecStep::Fence);
        push_step(&mut out, ExecStep::Apply);
        proof {
            assert(step_views(out@) =~= old(self).state().fenced(end as nat).0);
        }
        out
    }

    /// A control of the plan.
    pub fn on_control(&mut self, row_idx: usize) -> (out: Vec<ExecStep<H>>)
        requires
            old(self).state().next_seq < u64::MAX,
        ensures
            final(self).limits() == old(self).limits(),
            (step_views(out@), final(self).state()) == old(self).state().stepped(
                ExecItem::Control(row_idx as nat),
                old(self).limits(),
            ),
    {
        self.fence(row_idx)
    }

    /// A truncate of the plan.
    pub fn on_truncate(&mut self) -> (out: Vec<ExecStep<H>>)
        requires
            old(self).state().next_seq < u64::MAX,
        ensures
            final(self).limits() == old(self).limits(),
            (step_views(out@), final(self).state()) == old(self).state().stepped(
                ExecItem::Truncate,
                old(self).limits(),
            ),
    {
        let mut upto: usize = self.cursor;
        let known: bool = self.next_truncate < self.truncates.len();
        if known {
            upto = self.truncates[self.next_truncate];
        }
        let out: Vec<ExecStep<H>> = self.fence(upto);
        if known {
            self.next_truncate = self.next_truncate + 1;
        }
        out
    }

    /// A row of the plan, with its weight.
    pub fn on_heap(&mut self, heap: H, bytes: usize) -> (out: Vec<ExecStep<H>>)
        requires
            old(self).state().next_seq < u64::MAX,
            old(self).state().rows_total < u64::MAX,
        ensures
            final(self).limits() == old(self).limits(),
            (step_views(out@), final(self).state()) == old(self).state().stepped(
                ExecItem::Heap(heap, bytes as nat),
                old(self).limits(),
            ),
    {
        let mut out: Vec<ExecStep<H>> = Vec::new();
        proof {
            assert(step_views(out@) =~= Seq::empty());
        }
        self.rows_total = self.rows_total + 1;
        self.pending_bytes = self.pending_bytes.saturating_add(bytes);
        self.pending.push(heap);
        if self.pending.len() >= self.batch_rows || self.pending_bytes >= self.batch_bytes {
            self.dispatch(&mut out, false);
        }
        proof {
            assert(step_views(out@) =~= old(self).state().stepped(
                ExecItem::Heap(heap, bytes as nat),
                old(self).limits(),
            ).0);
        }
        out
    }

    /// The end of the plan. Also says whether the commit was published.
    pub fn finish(&mut self, total_rows: usize) -> (r: (Vec<ExecStep<H>>, bool))
        requires
            old(self).state().next_seq < u64::MAX,
        ensures
            final(self).limits() == old(self).limits(),
            (step_views(r.0@), final(self).state()) == old(self).state().finished(
                total_rows as nat,
            ),
            r.1 == (old(self).state().pending.len() > 0),
    {
        let mut out: Vec<ExecStep<H>> = Vec::new();
        proof {
            assert(step_views(out@) =~= Seq::empty());
        }
        self.put(&mut out, total_rows);
        let publish: bool = self.pending.len() > 0;
        self.dispatch(&mut out, publish);
        proof {
            assert(step_views(out@) =~= old(self).state().finished(total_rows as nat).0);
        }
        (out, publish)
    }

    /// Rows dispatched or pending.
    pub fn rows_total(&self) -> (n: u64)
        ensures
            n == self.state().rows_total,
    {
        self.rows_total
    }

    /// The next free seq.
    pub fn next_seq(&self) -> (n: u64)
        ensures
            n == self.state().next_seq,
    {
        self.next_seq
    }
}

/// Where a plan's mirror rows lie: `(batch, from, to)` within the batch.
pub open spec fn put_slices(lens: Seq<usize>, from: int, to: int) -> Seq<(usize, usize, usize)>
    decreases lens.len(),
{
    if lens.len() == 0 {
        Seq::empty()
    } else {
        let base = total_len(lens.drop_last()) as int;
        let n = lens.last() as int;
        let lo = if from > base {
            from
        } else {
            base
        };
        let hi = if to < base + n {
            to
        } else {
            base + n
        };
        let rest = put_slices(lens.drop_last(), from, to);
        if lo < hi {
            rest.push(((lens.len() - 1) as usize, (lo - base) as usize, (hi - base) as usize))
        } else {
            rest
        }
    }
}

pub open spec fn total_len(lens: Seq<usize>) -> nat
    decreases lens.len(),
{
    if lens.len() == 0 {
        0
    } else {
        total_len(lens.drop_last()) + lens.last() as nat
    }
}

/// The parts of the carried batches that make up the plan's mirror rows from
/// `from` up to `to`.
pub fn put_plan_rows(lens: &Vec<usize>, from: usize, to: usize) -> (r: Vec<(usize, usize, usize)>)
    requires
        total_len(lens@) <= usize::MAX,
    ensures
        r@ == put_slices(lens@, from as int, to as int),
{
    let mut out: Vec<(usize, usize, usize)> = Vec::new();
    let mut base: usize = 0;
    let mut i: usize = 0;
    proof {
        assert(lens@.subrange(0, 0) =~= Seq::empty());
        assert(out@ =~= Seq::empty());
    }
    while i < lens.len()
        invariant
            i <= lens@.len(),
            total_len(lens@) <= usize::MAX,
            base == total_len(lens@.subrange(0, i as int)),
            out@ == put_slices(lens@.subrange(0, i as int), from as int, to as int),
        decreases lens@.len() - i,
    {
        proof {
            let part = lens@.subrange(0, i as int + 1);
            assert(part.drop_last() =~= lens@.subrange(0, i as int));
            assert(part.last() == lens@[i as int]);
            lemma_total_grows(lens@, i as int + 1);
        }
        let n: usize = lens[i];
        let lo: usize = if from > base {
            from
        } else {
            base
        };
        let hi: usize = if to < base + n {
            to
        } else {
            base + n
        };
        if lo < hi {
            out.push((i, lo - base, hi - base));
        }
        base = base + n;
        i = i + 1;
    }
    proof {
        assert(lens@.subrange(0, i as int) =~= lens@);
    }
    out
}

proof fn lemma_total_grows(lens: Seq<usize>, n: int)
    requires
        0 <= n <= lens.len(),
    ensures
        total_len(lens.subrange(0, n)) <= total_len(lens),
    decreases lens.len() - n,
{
    if n < lens.len() {
        assert(lens.subrange(0, n + 1).drop_last() =~= lens.subrange(0, n));
        lemma_total_grows(lens, n + 1);
    } else {
        assert(lens.subrange(0, n) =~= lens);
    }
}

/// The seq of a commit's marker, where execution did not publish it.
pub open spec fn marker_seq(published: bool, next_seq: nat) -> Option<nat> {
    if published {
        None
    } else {
        Some(next_seq)
    }
}

/// Close a commit: a marker without rows publishes its position once every
/// earlier slice is durable, unless the last slice does. Covers commits
/// without rows and plans that end in a control or truncate.
pub fn commit_marker(published: bool, next_seq: u64) -> (r: Option<u64>)
    ensures
        match r {
            Some(s) => marker_seq(published, next_seq as nat) == Some(s as nat),
            None => marker_seq(published, next_seq as nat) is None,
        },
{
    if published {
        None
    } else {
        Some(next_seq)
    }
}

/// `xact-<xid>-<lsn>.plan`.
pub open spec fn plan_file_text(xid: u32, commit_lsn: u64) -> Seq<char> {
    "xact-"@ + dec(xid as nat) + "-"@ + dec(commit_lsn as nat) + ".plan"@
}

pub fn plan_file_name(xid: u32, commit_lsn: u64) -> (s: String)
    ensures
        s@ == plan_file_text(xid, commit_lsn),
{
    let mut s: String = String::from_str("xact-");
    push_dec(&mut s, xid as u64);
    s.append("-");
    push_dec(&mut s, commit_lsn);
    s.append(".plan");
    s
}

} // verus!

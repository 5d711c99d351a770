//! Transaction planner: streams one committed transaction's walk into a plan,
//! without any side effect.
//!
//! Every failure that the input can cause surfaces here, before the first
//! effect of the transaction. Routes are resolved before values: a row of an
//! unmapped relation is discarded without its values being looked at.
use vstd::prelude::*;
use vstd::string::*;

use crate::ddl::predict::{effect_views, Effect};
use crate::pipeline::plan_spool::{
    PlanSpoolError, PlanWriter, SealedPlan, WriterView, DEFAULT_PLAN_MEM_MAX,
};
use crate::pipeline::route_view::{folded, PlanRouteView};
use crate::schema::{RelKey, RelName};
use crate::text::{hex, push_hex};

verus! {

/// Why a record cannot be turned into rows.
#[derive(Debug)]
pub enum FailClosedReason {
    ImageOnly,
    Malformed(String),
    UnsupportedOperation,
    PartialUpdate,
}

/// Errors of draining a transaction's buffer.
#[derive(Debug)]
pub enum XactBufferError {
    OrdinaryFailClosed { relid: u32, lsn: u64, rm: u8, info: u8, reason: FailClosedReason },
    StashAmbiguous { rel_node: u32, lsn: u64, from_lsn: u64, through_lsn: u64 },
    IncompleteToastGeneration { relid: u32 },
    MissingStashResolution { top_xid: u32 },
    Detoast(String),
    ValueTooLarge { bytes: u64, max: u64 },
    ForeignXid { xid: u32, top: u32 },
    Spill(String),
}

#[derive(Debug)]
pub enum PlanError {
    Spool(PlanSpoolError),
    Detoast(XactBufferError),
    /// The new tuple refers to a predecessor that nothing can rebuild.
    PartialUpdate { lsn: u64 },
    View(String),
}

/// Label of a drain error. Verdicts that fail closed are told apart, so that
/// an unknown operation does not look like an I/O error.
pub open spec fn drain_label(e: XactBufferError) -> Seq<char> {
    match e {
        XactBufferError::OrdinaryFailClosed { reason, .. } => match reason {
            FailClosedReason::ImageOnly => "fail_closed_image_only"@,
            FailClosedReason::Malformed(_) => "fail_closed_malformed"@,
            FailClosedReason::UnsupportedOperation => "fail_closed_unsupported_op"@,
            FailClosedReason::PartialUpdate => "partial_update"@,
        },
        XactBufferError::StashAmbiguous { .. } => "stash_ambiguous"@,
        XactBufferError::IncompleteToastGeneration { .. } => "incomplete_toast"@,
        XactBufferError::MissingStashResolution { .. } => "missing_stash_resolution"@,
        XactBufferError::Detoast(_) => "detoast"@,
        XactBufferError::ValueTooLarge { .. } => "detoast"@,
        _ => "drain"@,
    }
}

/// `reason=` label of a drain error that aborts a plan.
pub fn drain_reason(e: &XactBufferError) -> (r: &'static str)
    ensures
        r@ == drain_label(*e),
{
    match e {
        XactBufferError::OrdinaryFailClosed { reason, .. } => match reason {
            FailClosedReason::ImageOnly => "fail_closed_image_only",
            FailClosedReason::Malformed(_) => "fail_closed_malformed",
            FailClosedReason::UnsupportedOperation => "fail_closed_unsupported_op",
            FailClosedReason::PartialUpdate => "partial_update",
        },
        XactBufferError::StashAmbiguous { .. } => "stash_ambiguous",
        XactBufferError::IncompleteToastGeneration { .. } => "incomplete_toast",
        XactBufferError::MissingStashResolution { .. } => "missing_stash_resolution",
        XactBufferError::Detoast(_) => "detoast",
        XactBufferError::ValueTooLarge { .. } => "detoast",
        _ => "drain",
    }
}

pub open spec fn plan_label(e: PlanError) -> Seq<char> {
    match e {
        PlanError::Spool(_) => "spool"@,
        PlanError::Detoast(e) => drain_label(e),
        PlanError::PartialUpdate { .. } => "partial_update"@,
        PlanError::View(_) => "view"@,
    }
}

impl PlanError {
    /// `reason=` label of a failed plan.
    pub fn reason(&self) -> (r: &'static str)
        ensures
            r@ == plan_label(*self),
    {
        match self {
            PlanError::Spool(_) => "spool",
            PlanError::Detoast(e) => drain_reason(e),
            PlanError::PartialUpdate { .. } => "partial_update",
            PlanError::View(_) => "view",
        }
    }

    /// The error in words; `drained` is what the drain error says of itself.
    pub fn to_text(&self, drained: &str) -> (s: String)
        ensures
            s@ == plan_text(*self, drained@),
    {
        let mut s: String = String::new();
        match self {
            PlanError::Spool(e) => {
                s.append("plan spool: ");
                s.append(e.to_text().as_str());
            },
            PlanError::Detoast(_) => {
                s.append("planning detoast: ");
                s.append(drained);
            },
            PlanError::PartialUpdate { lsn } => {
                s.append("partial update at 0x");
                push_hex(&mut s, *lsn);
                s.append(" lacks reconstructable predecessor");
            },
            PlanError::View(m) => {
                s.append("route view: ");
                s.append(m.as_str());
            },
        }
        proof {
            assert(s@ =~= plan_text(*self, drained@));
        }
        s
    }
}

pub open spec fn plan_text(e: PlanError, drained: Seq<char>) -> Seq<char> {
    match e {
        PlanError::Spool(e) => "plan spool: "@ + e@.text(),
        PlanError::Detoast(_) => "planning detoast: "@ + drained,
        PlanError::PartialUpdate { lsn } => "partial update at 0x"@ + hex(lsn as nat)
            + " lacks reconstructable predecessor"@,
        PlanError::View(m) => "route view: "@ + m@,
    }
}

/// A row of the walk: its relation, its descriptor with the position from
/// which that is valid, and whether its new image lacks columns.
#[derive(Debug)]
pub struct WalkHeap {
    pub rel_name: RelName,
    pub descriptor: u64,
    pub valid_from: u64,
    pub source_lsn: u64,
    pub partial: bool,
}

/// Rows in carried batches.
pub open spec fn carried(batches: Seq<Seq<u64>>) -> nat
    decreases batches.len(),
{
    if batches.len() == 0 {
        0
    } else {
        carried(batches.drop_last()) + batches.last().len()
    }
}

/// Streams one transaction's walk into a plan.
pub struct Planner<E> {
    writer: PlanWriter<E>,
    /// Mirror rows that earlier batches carried; positions of a batch are
    /// counted from here.
    rows_base: usize,
    /// Mirror rows of the batch that are sealed so far.
    cursor: usize,
}

impl<E> Planner<E> {
    pub closed spec fn plan(&self) -> WriterView<E> {
        self.writer@
    }

    /// Where the next control or truncate fences the plan's mirror rows.
    pub closed spec fn fence(&self) -> nat {
        self.rows_base as nat + self.cursor as nat
    }

    /// Mirror rows of the batch that are sealed so far.
    pub closed spec fn batch_cursor(&self) -> nat {
        self.cursor as nat
    }

    pub closed spec fn wf(&self) -> bool {
        &&& self.writer.wf()
        &&& self.rows_base == carried(self.writer@.row_batches)
    }

    /// Fences are counted from the rows that earlier batches carried.
    pub proof fn lemma_fence(&self)
        requires
            self.wf(),
        ensures
            self.fence() == carried(self.plan().row_batches) + self.batch_cursor(),
            self.plan().wf(),
    {
        self.writer.lemma_wf_view();
    }

    pub fn create(path: String, disk_cap: u64) -> (r: Self)
        ensures
            r.wf(),
            r.fence() == 0,
            r.batch_cursor() == 0,
            r.plan() == WriterView::<E>::fresh(path@, disk_cap, DEFAULT_PLAN_MEM_MAX),
    {
        Planner {
            writer: PlanWriter::create(path, disk_cap, DEFAULT_PLAN_MEM_MAX),
            rows_base: 0,
            cursor: 0,
        }
    }

    /// Whether a heap of `len` bytes can be written.
    pub fn room_for(&self, len: usize) -> (r: bool)
        requires
            self.wf(),
        ensures
            r == self.plan().has_room(len as nat),
    {
        self.writer.room_for(len)
    }

    /// Whether the plan can be sealed.
    pub fn room_to_seal(&self) -> (r: bool)
        requires
            self.wf(),
        ensures
            r == self.plan().has_seal_room(),
    {
        self.writer.room_to_seal()
    }

    /// Whether the next fence is within the plan's rows.
    pub fn fence_fits(&self) -> (r: bool)
        ensures
            r == (self.fence() <= usize::MAX),
    {
        self.rows_base.checked_add(self.cursor).is_some()
    }

    /// Whether `n` more mirror rows can be carried.
    pub fn rows_fit(&self, n: usize) -> (r: bool)
        requires
            self.wf(),
        ensures
            r == (carried(self.plan().row_batches) + n <= usize::MAX),
    {
        self.rows_base.checked_add(n).is_some()
    }

    /// The batch's mirror rows are sealed up to `upto`; never back.
    pub fn rows(&mut self, upto: usize)
        requires
            old(self).wf(),
        ensures
            final(self).wf(),
            final(self).plan() == old(self).plan(),
            final(self).batch_cursor() == (if upto > old(self).batch_cursor() {
                upto as nat
            } else {
                old(self).batch_cursor()
            }),
    {
        if upto > self.cursor {
            self.cursor = upto;
        }
    }

    /// A control of the walk, with what it does to routes: folded into the
    /// local view, then pinned behind the heaps so far.
    pub fn event<V: PlanRouteView>(
        &mut self,
        view: &mut V,
        event: E,
        effects: Result<Vec<Effect>, String>,
    ) -> (r: Result<(), PlanError>)
        requires
            old(self).wf(),
            old(view).valid(),
            old(self).fence() <= usize::MAX,
        ensures
            final(self).wf(),
            final(view).valid(),
            final(self).batch_cursor() == old(self).batch_cursor(),
            match effects {
                Err(m) => {
                    &&& r is Err && r->Err_0 is View && r->Err_0->View_0 == m
                    &&& final(self).plan() == old(self).plan()
                    &&& *final(view) == *old(view)
                },
                Ok(e) => {
                    &&& r is Ok
                    &&& forall|k: RelKey| #[trigger]
                        final(view).route(k) == folded(
                            old(view).route(k),
                            effect_views(e@),
                            k,
                        )
                    &&& final(self).plan() == old(self).plan().with_control(
                        event,
                        old(self).fence() as usize,
                    )
                },
            },
            keeps_numbers(*old(view), *final(view)),
            final(self).fence() == old(self).fence(),
    {
        match effects {
            Err(m) => Err(PlanError::View(m)),
            Ok(e) => {
                view.apply(e);
                self.writer.push_control(event, self.rows_base + self.cursor);
                Ok(())
            },
        }
    }

    /// The route of a row, before anything else is asked of it. A routed row
    /// must be whole: there is no way to rebuild a partial one. A row without
    /// a route is discarded as it is.
    pub fn route_heap<V: PlanRouteView>(&self, view: &mut V, heap: &WalkHeap) -> (r: Result<
        Option<u64>,
        PlanError,
    >)
        requires
            old(view).valid(),
        ensures
            final(view).valid(),
            forall|k: RelKey| #[trigger] final(view).route(k) == old(view).route(k),
            keeps_numbers(*old(view), *final(view)),
            match old(view).route(heap.rel_name@) {
                None => r == Ok::<_, PlanError>(None::<u64>),
                Some(m) => if heap.partial {
                    r is Err && r->Err_0 is PartialUpdate && r->Err_0->lsn == heap.source_lsn
                } else {
                    r is Ok && r->Ok_0 is Some && final(view).numbered(r->Ok_0->0) == Some(m)
                },
            },
    {
        let route: Option<u64> = view.route_for(&heap.rel_name);
        if route.is_some() && heap.partial {
            return Err(PlanError::PartialUpdate { lsn: heap.source_lsn });
        }
        Ok(route)
    }

    /// Write a row under the route it was given; `bytes` are its encoding,
    /// values reassembled if it is routed.
    pub fn push_heap(&mut self, heap: &WalkHeap, route: Option<u64>, bytes: &[u8]) -> (r: Result<
        (),
        PlanError,
    >)
        requires
            old(self).wf(),
            old(self).plan().has_room(bytes@.len()),
        ensures
            final(self).wf(),
            final(self).fence() == old(self).fence(),
            final(self).batch_cursor() == old(self).batch_cursor(),
            wrote_heap(old(self).plan(), final(self).plan(), *heap, route, bytes@, r),
    {
        match self.writer.push_heap((heap.descriptor, heap.valid_from), route, bytes) {
            Ok(()) => Ok(()),
            Err(e) => Err(PlanError::Spool(e)),
        }
    }

    /// A truncate: its fence is noted, and it is written like a row.
    pub fn truncate<V: PlanRouteView>(
        &mut self,
        view: &mut V,
        heap: &WalkHeap,
        bytes: &[u8],
    ) -> (r: Result<(), PlanError>)
        requires
            old(self).wf(),
            old(view).valid(),
            old(self).fence() <= usize::MAX,
            old(self).plan().has_room(bytes@.len()),
        ensures
            final(self).wf(),
            final(view).valid(),
            forall|k: RelKey| #[trigger] final(view).route(k) == old(view).route(k),
            keeps_numbers(*old(view), *final(view)),
            final(self).fence() == old(self).fence(),
            final(self).batch_cursor() == old(self).batch_cursor(),
            exists|route: Option<u64>|
                {
                    &&& (match route {
                        Some(id) => old(view).route(heap.rel_name@) is Some && final(view).numbered(id) == old(view).route(heap.rel_name@),
                        None => old(view).route(heap.rel_name@) is None,
                    })
                    &&& #[trigger] wrote_heap(
                        old(self).plan().with_fence(old(self).fence() as usize),
                        final(self).plan(),
                        *heap,
                        route,
                        bytes@,
                        r,
                    )
                },
    {
        self.writer.note_truncate_cursor(self.rows_base + self.cursor);
        let ghost fenced = old(self).plan().with_fence(old(self).fence() as usize);
        let route: Option<u64> = view.route_for(&heap.rel_name);
        proof {
            assert(self.plan() == fenced);
        }
        let r: Result<(), PlanError> = self.push_heap(heap, route, bytes);
        proof {
            assert(wrote_heap(fenced, self.plan(), *heap, route, bytes@, r));
        }
        r
    }

    /// The batch is done: its mirror rows are carried, and the next batch's
    /// positions are counted behind them.
    pub fn end_batch(&mut self, new_rows: Vec<u64>)
        requires
            old(self).wf(),
            carried(old(self).plan().row_batches) + new_rows@.len() <= usize::MAX,
        ensures
            final(self).wf(),
            final(self).batch_cursor() == 0,
            final(self).fence() == carried(old(self).plan().row_batches) + new_rows@.len(),
            final(self).plan() == old(self).plan().with_rows(new_rows@),
    {
        let ghost before = self.writer@.row_batches;
        self.rows_base = self.rows_base + new_rows.len();
        self.cursor = 0;
        self.writer.push_rows(new_rows);
        proof {
            if new_rows@.len() > 0 {
                assert(before.push(new_rows@).drop_last() =~= before);
            }
        }
    }

    /// Bytes that belong in the plan's file and are not there yet.
    pub fn take_spilled(&mut self) -> (chunk: Vec<u8>)
        requires
            old(self).wf(),
        ensures
            final(self).wf(),
            final(self).batch_cursor() == old(self).batch_cursor(),
            final(self).fence() == old(self).fence(),
            old(self).plan().hands_over(chunk@, final(self).plan()),
    {
        self.writer.take_spilled()
    }

    /// Freeze the plan for its execution.
    pub fn seal(self, commit_lsn: u64, commit_ts: i64) -> (r: (SealedPlan<E>, Vec<u8>))
        requires
            self.wf(),
            self.plan().has_seal_room(),
        ensures
            self.plan().seals_to(commit_lsn, commit_ts, r.0, r.1@),
    {
        self.writer.seal(commit_lsn, commit_ts)
    }
}

/// Route numbers that were given keep their routes.
pub open spec fn keeps_numbers<V: PlanRouteView>(before: V, after: V) -> bool {
    forall|id: u64|
        before.numbered(id) is Some ==> #[trigger] after.numbered(id) == before.numbered(id)
}

/// The plan `post` is `pre` with the row written, or the disk budget does not
/// allow it.
pub open spec fn wrote_heap<E>(
    pre: WriterView<E>,
    post: WriterView<E>,
    heap: WalkHeap,
    route: Option<u64>,
    bytes: Seq<u8>,
    r: Result<(), PlanError>,
) -> bool {
    match pre.over_budget(bytes) {
        Some(e) => {
            &&& r is Err && r->Err_0 is Spool && r->Err_0->Spool_0@ == e
            &&& post == pre.with_keys((heap.descriptor, heap.valid_from), route)
        },
        None => r is Ok && pre.took_heap((heap.descriptor, heap.valid_from), route, bytes, post),
    }
}

} // verus!

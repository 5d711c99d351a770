//! What single steps of the pipeline decide.
use vstd::prelude::*;

use crate::columns::{CellView, ColumnBuf};
use crate::ddl::predict::{effect_view, Effect, EffectView};
use crate::mapping::MappingView;
use crate::oracle::OracleCellView;
use crate::pipeline::ack::{AckView, Progress};
use crate::pipeline::batch_hub::{
    allocated, due, due_tables, lemma_slot, open_tables, row_taken, seal_rule, slot_of,
    tables_with, Batcher,
};
use crate::pipeline::batcher::{with_slice, BatcherConfig, InsertBatch, RoutedRow, Table};
use crate::pipeline::bootstrap::{has_room, FetchedCell};
use crate::pipeline::bootstrap_fetch::{first_size, key_of, refs_to, SiteRef};
use crate::pipeline::bootstrap_replay::{cell_value, failing};
use crate::pipeline::inserter::{BatchOutcome, InsertRun};
use crate::pipeline::plan_replay::{
    header_fault, looked_up, trailing_fault, HeapBodyView, ReadState,
};
use crate::pipeline::plan_spool::{
    with_key, PlanStore, PlanView, SealedPlan, SpoolErrorView, WriterView,
};
use crate::pipeline::plan_stream::{body_outcome, head_outcome, heap_outcome};
use crate::pipeline::reorder::{add_clamped, marker_seq, ExecItem, ExecLimits, ExecState, StepView};
use crate::pipeline::resolver::{resolved_as, resolves};
use crate::pipeline::route_view::{folded, memo_in, one_more, overlay_in, touched};
use crate::pipeline::snowflake_tail::{route_fault_text, with_worker};
use crate::pipeline::tail::{lookup_is_of, SnowflakeLookup};
use crate::schema::{RelKey, RelName};
use crate::u256::{le_nat, lemma_le_nat_bound};
use crate::values::ColumnValue;

verus! {

/// A seq that is registered anew has its commit's position and no rows; one
/// that is registered again is a fault.
pub proof fn seqs_are_registered_once(s: AckView, seq: u64, lsn: u64, publish: bool)
    requires
        s.wedged < u64::MAX,
    ensures
        s.live.contains_key(seq) || seq < s.frontier ==> s.opened(seq, lsn, publish).wedged
            == s.wedged + 1 && s.opened(seq, lsn, publish).live == s.live,
        !s.live.contains_key(seq) && s.frontier <= seq < u64::MAX ==> ({
            let t = s.opened(seq, lsn, publish);
            &&& t.live.contains_key(seq)
            &&& t.live[seq].commit_lsn == lsn && t.live[seq].publish == publish
            &&& t.live[seq].progress.rows is None && t.live[seq].progress.acked == 0
            &&& t.registered > seq && t.registered >= s.registered
            &&& t.wedged == s.wedged
            &&& forall|k: u64| k != seq ==> (#[trigger] t.live.contains_key(k)
                <==> s.live.contains_key(k))
        }),
{
}

/// A seq's rows are placed once, and no fewer than were acked before; anything
/// else is a fault and changes no count.
pub proof fn rows_are_placed_once(s: AckView, seq: u64, rows: u64)
    requires
        s.live.contains_key(seq),
        s.wedged < u64::MAX,
    ensures
        ({
            let p = s.live[seq].progress;
            let t = s.placed(seq, rows);
            &&& p.rows is None && p.acked <= rows ==> t.live[seq].progress == (Progress {
                rows: Some(rows),
                acked: p.acked,
            }) && t.wedged == s.wedged
            &&& p.rows is Some || p.acked > rows ==> t.live == s.live && t.wedged == s.wedged + 1
            &&& s.wedged == 0 && (p.rows is Some || p.acked > rows) ==> t.fatal is Some
        }),
{
}

/// Acks add up, before the rows are placed and after; more than were placed is
/// a fault and changes no count.
pub proof fn acks_add_up(s: AckView, seq: u64, n: u64)
    requires
        s.live.contains_key(seq),
        s.wedged < u64::MAX,
        s.live[seq].progress.acked + n <= u64::MAX,
    ensures
        ({
            let p = s.live[seq].progress;
            let t = s.acked_one(seq, n);
            let over = p.rows is Some && p.acked + n > p.rows->0;
            &&& !over ==> t.live[seq].progress.acked == p.acked + n && t.live[seq].progress.rows
                == p.rows && t.wedged == s.wedged
            &&& over ==> t.live == s.live && t.wedged == s.wedged + 1
            &&& over && s.wedged == 0 ==> t.fatal is Some
        }),
{
}

/// Rows or acks of a seq that was never registered are a fault.
pub proof fn unknown_seqs_are_faults(s: AckView, seq: u64, n: u64)
    requires
        !s.live.contains_key(seq),
        s.frontier <= seq,
        s.wedged < u64::MAX,
    ensures
        s.placed(seq, n).wedged == s.wedged + 1,
        s.acked_one(seq, n).wedged == s.wedged + 1,
        s.placed(seq, n).live == s.live,
        s.acked_one(seq, n).live == s.live,
        s.wedged == 0 ==> s.placed(seq, n).fatal is Some && s.acked_one(seq, n).fatal is Some,
{
}

/// Acks of several seqs are taken one after the other.
pub proof fn acks_are_taken_in_order(s: AckView, counts: Seq<(u64, u64)>, seq: u64, n: u64)
    ensures
        s.acked(Seq::<(u64, u64)>::empty()) == s,
        s.acked(counts.push((seq, n))) == s.acked(counts).acked_one(seq, n),
{
    assert(counts.push((seq, n)).drop_last() == counts);
}

/// The trailing position is published when every seq is done, and not before.
pub proof fn trailing_position_waits_for_every_seq(s: AckView)
    ensures
        s.published().emitter_ack >= s.emitter_ack,
        s.published().emitter_ack >= s.watermark,
        s.all_done() ==> s.published().emitter_ack >= s.trailing,
        !s.all_done() ==> s.published().emitter_ack == s.emitter_ack
            || s.published().emitter_ack == s.watermark,
        s.all_done() ==> s.published().emitter_ack == s.emitter_ack || s.published().emitter_ack
            == s.watermark || s.published().emitter_ack == s.trailing,
{
}

/// A seq is done when as many of its rows are acked as were placed; before they
/// are placed it is not.
pub proof fn seqs_are_done_when_every_row_is_acked(p: Progress)
    ensures
        p.rows is None ==> !p.done(),
        p.rows matches Some(n) ==> (p.done() <==> p.acked == n),
{
}

/// The seq that holds the others up is the first that is not done; with all
/// done there is none.
pub proof fn first_open_seq_holds_the_others_up(s: AckView)
    requires
        s.wf(),
    ensures
        s.all_done() ==> s.oldest_incomplete() is None,
        !s.all_done() && s.live.contains_key(s.frontier) ==> ({
            let o = s.oldest_incomplete();
            let e = s.live[s.frontier];
            &&& o is Some && o->0.seq == s.frontier && o->0.commit_lsn == e.commit_lsn
            &&& o->0.rows == e.progress.rows && o->0.acked == e.progress.acked
        }),
{
}

/// A table is sealed when it reaches the row budget, the byte budget or the
/// limit of one batch, and stays open below all of them.
pub proof fn tables_are_sealed_at_their_budgets(
    cfg: BatcherConfig,
    batch_limit: usize,
    pool: usize,
    rows: usize,
    bytes: usize,
    partial: nat,
)
    requires
        bytes <= partial,
    ensures
        ({
            let (seals, all) = seal_rule(cfg, batch_limit, pool, rows, bytes, partial);
            &&& seals <==> rows >= cfg.row_budget || bytes >= cfg.byte_budget || bytes
                >= batch_limit
            &&& seals ==> (all <==> partial - bytes >= cfg.byte_budget || partial - bytes >= pool)
            &&& !seals ==> (all <==> partial >= cfg.byte_budget || partial >= pool)
        }),
{
}

/// A table is due from its deadline on; one without a deadline is not. The
/// tables that are due are handed out in their order.
pub proof fn tables_are_due_from_their_deadline(
    tables: Seq<Table>,
    t: Table,
    now: u64,
    later: u64,
)
    ensures
        t.deadline is None ==> !due(t, now),
        t.deadline matches Some(d) ==> (due(t, now) <==> now >= d),
        due(t, now) && now <= later ==> due(t, later),
        due(t, now) ==> due_tables(tables.push(t), now) == due_tables(tables, now).push(t),
        !due(t, now) ==> due_tables(tables.push(t), now) == due_tables(tables, now),
        due_tables(Seq::<Table>::empty(), now).len() == 0,
{
    assert(tables.push(t).drop_last() == tables);
}

/// The first row of a table sets its deadline, and later ones do not move it;
/// every permit that a row brings is held until the table is sealed.
pub proof fn first_row_sets_the_deadline(
    before: Table,
    after: Table,
    row: RoutedRow,
    op: i8,
    slice_permit: Option<u64>,
    deadline: u64,
)
    requires
        after.took_row(before, row, op, slice_permit, deadline),
    ensures
        before.deadline is None ==> after.deadline == Some(deadline),
        before.deadline is Some ==> after.deadline == before.deadline,
        before.value_permits@.is_prefix_of(after.value_permits@),
        before.slice_permits@.is_prefix_of(after.slice_permits@),
        row.value_permit matches Some(p) ==> after.value_permits@.last() == p
            && after.value_permits@.len() == before.value_permits@.len() + 1,
        slice_permit matches Some(p) ==> after.slice_permits@.len() > 0
            && after.slice_permits@.last() == p,
        slice_permit is None ==> after.slice_permits@ == before.slice_permits@,
{
}

/// A slice's permit is held once, however many of its rows follow one another.
pub proof fn slice_permits_are_held_once(held: Seq<u64>, p: u64)
    ensures
        with_slice(with_slice(held, p), p) == with_slice(held, p),
        with_slice(held, p).last() == p,
        held.is_prefix_of(with_slice(held, p)),
        with_slice(held, p).len() <= held.len() + 1,
{
}

/// A heap is written while the plan, with the eight bytes that frame it and the
/// nine that describe it, stays within its budget.
pub proof fn plans_stay_within_their_budget<E>(w: WriterView<E>, heap: Seq<u8>)
    requires
        w.bytes.len() + 8 + 9 + heap.len() <= u64::MAX,
    ensures
        w.over_budget(heap) is None <==> w.bytes.len() + 8 + 9 + heap.len() <= w.cap,
        w.over_budget(heap) matches Some(e) ==> e == SpoolErrorView::DiskBudget(
            (w.bytes.len() + 17 + heap.len()) as u64,
            w.cap,
        ),
{
}

/// A file is read as a plan when it begins with the letters W and P and a
/// version that is known; one that is cut before that was never sealed.
pub proof fn plans_are_told_by_their_first_bytes(input: Seq<u8>)
    ensures
        input.len() < 4 ==> header_fault(input) == Some(SpoolErrorView::Unsealed),
        header_fault(input) is None ==> input.len() >= 4 && input[0] == 0x57 && input[1] == 0x50,
        input.len() >= 4 && (input[0] != 0x57 || input[1] != 0x50) ==> header_fault(input) is Some
            && header_fault(input)->0 is Format,
{
}

/// A heap has the descriptor and the route that it refers to; one that refers
/// to none that the plan has is refused.
pub proof fn heaps_refer_to_what_the_plan_has<E>(p: PlanView<E>, b: HeapBodyView, left: usize)
    ensures
        looked_up(p, b) is Ok <==> b.dict_id < p.descriptors.len() && (b.route_id == 0xffff_ffff
            || b.route_id < p.routes.len()),
        looked_up(p, b) matches Ok(h) ==> h.descriptor == p.descriptors[b.dict_id as int] && h.heap
            == b.heap && h.frame_offset == b.frame_offset && (b.route_id == 0xffff_ffff ==> h.route
            is None) && (b.route_id != 0xffff_ffff ==> h.route == Some(
            p.routes[b.route_id as int],
        )),
        trailing_fault(b.frame_offset, left) is None <==> left == 0,
        left == 0 ==> heap_outcome(p, b, left) == looked_up(p, b),
        left > 0 ==> heap_outcome(p, b, left) is Err,
{
}

/// A frame that is cut was never sealed.
pub proof fn cut_frames_are_unsealed<E>(
    p: PlanView<E>,
    st: ReadState,
    head: Seq<u8>,
    body: Seq<u8>,
    more: bool,
)
    requires
        body.len() < le_nat(head.subrange(0, 4)),
    ensures
        body_outcome(p, st, head, body, more) is Err,
        body_outcome(p, st, head, body, more)->Err_0 == SpoolErrorView::Unsealed,
{
}

/// Rows are put up to a position and never back; nothing is put twice.
pub proof fn mirror_rows_are_put_up_to_a_position<H>(s: ExecState<H>, end: nat)
    ensures
        ({
            let (steps, after) = s.put(end);
            &&& end > s.cursor ==> steps == seq![StepView::<H>::PutRows(s.cursor, end)]
                && after.cursor == end
            &&& end <= s.cursor ==> steps.len() == 0 && after == s
        }),
{
}

/// A slice is dispatched when it reaches its rows or its bytes, whole and under
/// the next seq, and does not publish its commit; below both it is held.
pub proof fn full_slices_are_dispatched<H>(s: ExecState<H>, h: H, bytes: nat, l: ExecLimits)
    ensures
        ({
            let (steps, after) = s.stepped(ExecItem::Heap(h, bytes), l);
            let held = s.pending.push(h);
            let full = held.len() >= l.batch_rows || s.pending_bytes + bytes >= l.batch_bytes;
            &&& after.rows_total == s.rows_total + 1
            &&& after.cursor == s.cursor
            &&& full ==> steps.len() == 1 && steps[0] is Dispatch && steps[0]->heaps == held
                && steps[0]->seq == s.next_seq && !steps[0]->publish && after.pending.len() == 0
                && after.pending_bytes == 0 && after.next_seq == s.next_seq + 1
            &&& !full ==> steps.len() == 0 && after.pending == held && after.next_seq == s.next_seq
                && after.pending_bytes == s.pending_bytes + bytes
        }),
{
    assert(s.pending.push(h).len() > 0);
}

/// Bytes are added up to the largest number and not beyond.
pub proof fn sums_stop_at_the_largest_number(a: usize, b: nat)
    ensures
        a + b <= usize::MAX ==> add_clamped(a, b) == a + b,
        a + b > usize::MAX ==> add_clamped(a, b) == usize::MAX,
        add_clamped(a, b) >= a,
{
}

/// A commit that has published needs no marker; any other has one under the
/// next seq.
pub proof fn unpublished_commits_have_a_marker(next_seq: nat)
    ensures
        marker_seq(true, next_seq) is None,
        marker_seq(false, next_seq) == Some(next_seq),
{
}

/// A batch whose insert ended without an error is durable, with all its rows
/// under their seqs; any other is fatal with its error.
pub proof fn batches_end_durable_or_fatal(run: InsertRun, r: BatchOutcome)
    requires
        run.outcome(r),
    ensures
        run.error is None <==> r is Durable,
        run.error is None ==> r->per_seq@ == run.batch.per_seq@ && r->rows == run.batch.n_rows,
        run.error matches Some(m) ==> r == BatchOutcome::Fatal(m),
{
}

/// The last change of a relation decides its route; a relation that no change
/// speaks of keeps the route it had.
pub proof fn last_change_decides_the_route(
    before: Option<MappingView>,
    effects: Seq<EffectView>,
    rel: RelKey,
    route: Option<MappingView>,
    other: RelKey,
)
    ensures
        folded(before, effects.push((rel, route)), rel) == route,
        other != rel ==> folded(before, effects.push((rel, route)), other) == folded(
            before,
            effects,
            other,
        ),
        folded(before, Seq::<EffectView>::empty(), rel) == before,
        touched(effects.push((rel, route)), rel),
        other != rel ==> touched(effects.push((rel, route)), other) == touched(effects, other),
        !touched(Seq::<EffectView>::empty(), rel),
{
    assert(effects.push((rel, route)).drop_last() == effects);
}

/// The same holds of what a view has overlaid, and of what it answered.
pub proof fn last_entry_is_found(
    overlay: Seq<Effect>,
    e: Effect,
    memo: Seq<(RelName, Option<u64>)>,
    name: RelName,
    id: Option<u64>,
    rel: RelKey,
)
    ensures
        e.0@ == rel ==> overlay_in(overlay.push(e), rel) == Some(effect_view(e).1),
        e.0@ != rel ==> overlay_in(overlay.push(e), rel) == overlay_in(overlay, rel),
        name@ == rel ==> memo_in(memo.push((name, id)), rel) == Some(id),
        name@ != rel ==> memo_in(memo.push((name, id)), rel) == memo_in(memo, rel),
        overlay_in(Seq::<Effect>::empty(), rel) is None,
        memo_in(Seq::<(RelName, Option<u64>)>::empty(), rel) is None,
        e.1 is None <==> effect_view(e).1 is None,
        e.1 matches Some(m) ==> effect_view(e).1 == Some(m@),
{
    assert(overlay.push(e).drop_last() == overlay);
    assert(memo.push((name, id)).drop_last() == memo);
}

/// Counts go up by one, and begin anew behind the largest.
pub proof fn counts_begin_anew(n: u64)
    ensures
        n < u64::MAX ==> one_more(n) == n + 1,
        one_more(u64::MAX) == 0,
{
}

/// A column takes the value that was fetched for it, a null without a store,
/// and nothing where the fetch failed.
pub proof fn fetched_values_are_taken(f: FetchedCell)
    ensures
        f is NoStore ==> cell_value(f) == Some((ColumnValue::Null, 0usize)),
        f matches FetchedCell::Finished(r) ==> (r is Ok <==> cell_value(f) is Some) && (r is Ok
            ==> cell_value(f) == Some(r->Ok_0)),
        f is Missing || f is Mismatch ==> cell_value(f) is None,
{
}

/// The fetch that is reported is the first that failed.
pub proof fn first_failed_fetch_is_reported(cells: Seq<(FetchedCell, u64)>, i: int)
    requires
        0 <= i <= cells.len(),
    ensures
        i <= failing(cells, i) <= cells.len(),
        forall|k: int| i <= k < failing(cells, i) ==> cell_value((#[trigger] cells[k]).0) is Some,
        failing(cells, i) < cells.len() ==> cell_value(cells[failing(cells, i)].0) is None,
    decreases cells.len() - i,
{
    if i < cells.len() && cell_value(cells[i].0) is Some {
        first_failed_fetch_is_reported(cells, i + 1);
    }
}

/// Every reference to a value counts, and the first says how large it is.
pub proof fn references_are_counted(sites: Seq<SiteRef>, s: SiteRef, key: u128)
    ensures
        refs_to(Seq::<SiteRef>::empty(), key) == 0,
        key_of(s) == key ==> refs_to(sites.push(s), key) == refs_to(sites, key) + 1,
        key_of(s) != key ==> refs_to(sites.push(s), key) == refs_to(sites, key),
        key_of(s) == key && refs_to(sites, key) == 0 ==> first_size(sites.push(s), key)
            == s.extsize,
        refs_to(sites, key) > 0 ==> first_size(sites.push(s), key) == first_size(sites, key),
{
    assert(sites.push(s).drop_last() == sites);
}

/// A round of a replay grows below sixty-four Ki rows and sixty-four mebibytes.
pub proof fn replay_rounds_are_bounded(rows: usize, need: usize, resident: usize)
    ensures
        has_room(rows, need, resident) <==> rows < 64 * 1024 && need + resident < 64 * 1024 * 1024,
{
}

/// A column is resolved here when the source database would only hand it back:
/// it holds a cell for each row, and none of them needs rendering.
pub proof fn rendered_columns_are_resolved_here(b: ColumnBuf, n_rows: usize)
    ensures
        !(b is Oracle) ==> !resolves(b, n_rows),
        b matches ColumnBuf::Oracle(o) ==> (resolves(b, n_rows) <==> o.cells().len() == n_rows && (
        o.type_repr() == "String"@ || o.type_repr() == "Nullable(String)"@) && forall|i: int|
            0 <= i < o.cells().len() ==> (#[trigger] o.cells()[i]) is Default || o.cells()[i]
                is Literal),
{
    if let ColumnBuf::Oracle(o) = b {
        assert forall|i: int| 0 <= i < o.cells().len() implies (#[trigger] o.cells()[i]).rendered()
            == (o.cells()[i] is Default || o.cells()[i] is Literal) by {}
    }
}

/// A relation has one worker: it gets one when it is first seen, and keeps it.
pub proof fn relations_have_one_worker(keys: Seq<RelKey>, rel: RelKey)
    ensures
        with_worker(keys, rel).contains(rel),
        keys.is_prefix_of(with_worker(keys, rel)),
        keys.contains(rel) ==> with_worker(keys, rel) == keys,
        !keys.contains(rel) ==> with_worker(keys, rel).len() == keys.len() + 1,
        with_worker(with_worker(keys, rel), rel) == with_worker(keys, rel),
{
    if !keys.contains(rel) {
        assert(with_worker(keys, rel)[keys.len() as int] == rel);
    }
}

/// A lookup serves every row of its relation under its route, and no other.
pub proof fn lookups_serve_their_relation(c: SnowflakeLookup, rel: u64, route: u64)
    ensures
        lookup_is_of(Some(c), c.rel, c.route),
        lookup_is_of(Some(c), rel, route) ==> rel == c.rel && route == c.route,
        !lookup_is_of(None, rel, route),
{
}

/// A frame's head is read when it is whole, and says no more bytes than the
/// plan has left behind it.
pub proof fn frames_stay_within_their_plan<E>(p: PlanView<E>, at: nat, head: Seq<u8>)
    ensures
        head.len() < 8 ==> head_outcome(p, at, head) == Err::<nat, _>(SpoolErrorView::Unsealed),
        head_outcome(p, at, head) matches Ok(n) ==> n == le_nat(head.subrange(0, 4)) && (n > 0
            ==> at + 8 + n <= p.size_bytes),
        head.len() >= 8 && at + 8 + le_nat(head.subrange(0, 4)) <= p.size_bytes ==> head_outcome(
            p,
            at,
            head,
        ) is Ok,
{
    lemma_le_nat_bound(head.subrange(0, 4));
}

/// A column that is resolved here has a row for each of its cells: what is
/// rendered as it is, and the empty or null cell for the rest.
pub proof fn resolved_columns_hold_their_cells(
    before: ColumnBuf,
    type_repr: Seq<char>,
    after: ColumnBuf,
    i: int,
)
    requires
        before is Oracle,
        resolved_as(before, type_repr, after),
        0 <= i < before->Oracle_0.cells().len(),
    ensures
        after.rows().len() == before->Oracle_0.cells().len(),
        before->Oracle_0.cells()[i] matches OracleCellView::Literal(b) ==> after.rows()[i]
            == CellView::Bytes(b),
        before->Oracle_0.cells()[i] is Default && type_repr == "Nullable(String)"@
            ==> after.rows()[i] == CellView::Null,
        before->Oracle_0.cells()[i] is Default && type_repr != "Nullable(String)"@
            ==> after.rows()[i] == CellView::Bytes(Seq::empty()),
        !(after is Oracle),
{
}

/// A sealed plan is of its commit and keeps what was written: the mirror rows,
/// the places of the truncates and the number of routed rows. It stays in
/// memory as long as it fits there; otherwise what the file lacks is handed
/// over.
pub proof fn sealed_plans_keep_what_was_written<E>(
    w: WriterView<E>,
    commit_lsn: u64,
    commit_ts: i64,
    plan: SealedPlan<E>,
    rest: Seq<u8>,
)
    requires
        w.seals_to(commit_lsn, commit_ts, plan, rest),
    ensures
        plan.commit_lsn == commit_lsn,
        plan.commit_ts == commit_ts,
        plan.routed_count == w.routed_count,
        plan.truncate_rows@ == w.truncate_rows,
        plan.row_batches@.len() == w.row_batches.len(),
        forall|i: int|
            0 <= i < w.row_batches.len() ==> (#[trigger] plan.row_batches@[i])@ == w.row_batches[i],
        plan.descriptors@ == w.descriptors,
        plan.routes@ == w.routes,
        plan.store is Mem <==> w.sealed().len() <= w.mem_max,
        plan.store is Mem ==> rest.len() == 0,
        plan.store matches PlanStore::File(path) ==> path@ == w.path && rest == w.sealed().skip(
            w.handed_over as int,
        ),
{
    let views = plan.row_batches@.map_values(|v: Vec<u64>| v@);
    assert forall|i: int| 0 <= i < w.row_batches.len() implies (
    #[trigger] plan.row_batches@[i])@ == w.row_batches[i] by {
        assert(views[i] == plan.row_batches@[i]@);
    }
    if plan.store is File {
        assert(rest == w.sealed().skip(w.handed_over as int));
    }
}

/// A spilled plan hands over what its file lacks, and a plan in memory nothing.
pub proof fn spilled_plans_hand_over_what_is_new<E>(
    w: WriterView<E>,
    chunk: Seq<u8>,
    post: WriterView<E>,
)
    requires
        w.hands_over(chunk, post),
        w.handed_over <= w.bytes.len(),
    ensures
        w.spilled ==> w.bytes.subrange(0, w.handed_over as int) + chunk == w.bytes
            && post.handed_over == w.bytes.len(),
        !w.spilled ==> chunk.len() == 0 && post.handed_over == w.handed_over,
        post.bytes == w.bytes && post.log == w.log && post.spilled == w.spilled,
{
    if w.spilled {
        assert(w.bytes.subrange(0, w.handed_over as int) + chunk =~= w.bytes);
    }
}

/// A heap that is written is counted as routed where it has a route, and makes
/// a plan spill that outgrows its memory; a plan that spilled stays so.
pub proof fn written_heaps_are_counted<E>(
    w: WriterView<E>,
    desc: (u64, u64),
    route: Option<u64>,
    heap: Seq<u8>,
    post: WriterView<E>,
)
    requires
        w.took_heap(desc, route, heap, post),
    ensures
        route is Some ==> post.routed_count == w.routed_count + 1,
        route is None ==> post.routed_count == w.routed_count,
        post.bytes.len() == w.bytes.len() + 17 + heap.len(),
        post.spilled <==> w.spilled || w.bytes.len() + 17 + heap.len() > w.mem_max,
        post.descriptors.contains(desc) || w.descriptors.contains(desc),
        route matches Some(r) ==> post.routes.contains(r),
        post.row_batches == w.row_batches && post.truncate_rows == w.truncate_rows,
{
    if !w.descriptors.contains(desc) {
        assert(post.descriptors[w.descriptors.len() as int] == desc);
    }
    if let Some(r) = route {
        if !w.routes.contains(r) {
            assert(post.routes[w.routes.len() as int] == r);
        }
    }
}

/// A row goes into the table of its relation. A table that has no room for it
/// is handed out first; one that the row fills is handed out with it, and only
/// where all are sealed does it touch another table.
pub proof fn rows_touch_their_own_table(
    pre: Batcher,
    cfg: BatcherConfig,
    now: u64,
    row: RoutedRow,
    slice_permit: Option<u64>,
    t: Table,
    grown: Table,
    post: Batcher,
    batches: Seq<InsertBatch>,
    k: int,
)
    requires
        row_taken(pre, cfg, now, row, slice_permit, t, grown, post, batches),
        0 <= k < pre.tables@.len(),
    ensures
        ({
            let i = slot_of(pre.tables@, row.rel.rel_name@) as int;
            let tables = tables_with(pre.tables@, i as nat, grown);
            let (seals, all) = seal_rule(
                cfg,
                pre.batch_limit,
                pre.pool,
                grown.enc.rows,
                grown.allocated_bytes,
                allocated(tables),
            );
            let full = t.enc.verdict(row.committed, row.route.mapping) is Full;
            &&& k != i && !all ==> post.tables@[k] == pre.tables@[k]
            &&& !seals && !all ==> post.tables@[i] == grown && batches.len() == (if full {
                1nat
            } else {
                0
            })
            &&& seals || all ==> post.tables@[i].enc.rows == 0 && post.tables@[i].deadline is None
            &&& all ==> post.tables@[k].enc.rows == 0
            &&& full ==> t.sealed_as(batches[0])
            &&& seals && !all ==> batches.len() == (if full {
                2nat
            } else {
                1
            }) && grown.sealed_as(batches.last())
        }),
{
    let i = slot_of(pre.tables@, row.rel.rel_name@) as int;
    let tables = tables_with(pre.tables@, i as nat, grown);
    lemma_slot(pre.tables@, row.rel.rel_name@);
    assert(tables[i] == grown);
    assert(post.tables@[i].emptied_from(tables[i]) || post.tables@[i] == tables[i]);
    assert(post.tables@[k].emptied_from(tables[k]) || post.tables@[k] == tables[k]);
}

/// A table without rows is not handed out; the others are, in their order.
pub proof fn empty_tables_are_not_handed_out(tables: Seq<Table>, t: Table)
    ensures
        open_tables(Seq::<Table>::empty()).len() == 0,
        t.enc.rows > 0 ==> open_tables(tables.push(t)) == open_tables(tables).push(t),
        t.enc.rows == 0 ==> open_tables(tables.push(t)) == open_tables(tables),
{
    assert(tables.push(t).drop_last() == tables);
}

/// A plan lists what its heaps refer to once, in the order of the first
/// mention.
pub proof fn references_are_listed_once<K>(list: Seq<K>, key: K)
    ensures
        with_key(list, key).contains(key),
        list.is_prefix_of(with_key(list, key)),
        list.contains(key) ==> with_key(list, key) == list,
        !list.contains(key) ==> with_key(list, key) == list.push(key),
        list.no_duplicates() ==> with_key(list, key).no_duplicates(),
{
    if !list.contains(key) {
        assert(with_key(list, key)[list.len() as int] == key);
    }
}

/// A row reaches its worker as long as that takes rows; one that does not is a
/// fault.
pub proof fn closed_workers_are_faults(taken: bool)
    ensures
        route_fault_text(taken) is None <==> taken,
{
}

} // verus!

//! How a first load, reloads and the housekeeping between them behave.
use vstd::prelude::*;

use crate::mapping::ColumnMappingView;
use crate::pipeline::bootstrap::{
    action_for, fetched_column, site_at, sites, BootstrapDrainOutcome, Deferral, FetchedCell,
    PointerSite, TupleFacts,
};
use crate::pipeline::bootstrap_drain::{
    rows_under, sent_under, walk_end, AfterWalk, DrainEvent, DrainModel,
};
use crate::pipeline::housekeeping::{first_boot_stage, next_boot_stage, settle_step, BootSettle};
use crate::pipeline::opt_in::{
    asked, attempt_fault, holds, newly_scoped, reload_of, waiting, wanted, Attempt, Desired,
    Selected,
};
use crate::schema::{RelFileNode, RelKey, RelName};
use crate::values::{ColumnValue, ToastPointer};

verus! {

/// A tuple of a relation that is loaded is routed where it has a route: at once
/// when it holds all its values, and otherwise as its chunks allow. It is put
/// off only while chunks are being stored, and refused only where it then
/// cannot be.
pub proof fn loaded_tuples_are_routed(f: TupleFacts, stores_chunks: bool, can_defer: bool)
    requires
        f.known && !f.skipped && !f.toast && f.routed,
    ensures
        !f.external ==> action_for(f, stores_chunks, can_defer) is Route,
        f.external && !stores_chunks ==> action_for(f, stores_chunks, can_defer) is ResolveAndRoute,
        f.external && stores_chunks && can_defer ==> action_for(f, stores_chunks, can_defer)
            is Defer,
        f.external && stores_chunks && !can_defer ==> action_for(f, stores_chunks, can_defer)
            is Refuse,
{
}

/// A tuple that is not routed is a chunk, is left out on purpose, or counts as
/// unsupported, which is one of a relation that is unknown or has no route.
pub proof fn other_tuples_are_told_apart(f: TupleFacts, stores_chunks: bool, can_defer: bool)
    ensures
        action_for(f, stores_chunks, can_defer) is Skip <==> f.known && f.skipped,
        action_for(f, stores_chunks, can_defer) is StoreChunk <==> f.known && !f.skipped && f.toast,
        action_for(f, stores_chunks, can_defer) is Unsupported <==> !f.known || (!f.skipped
            && !f.toast && !f.routed),
{
}

/// Every mapped column whose value is stored out of line has its pointer among
/// the sites, in the order of the mapping and with the place of its value; no
/// other column has one.
pub proof fn pointers_are_found_where_they_stand(
    columns: Seq<Option<ColumnValue>>,
    mapped: Seq<ColumnMappingView>,
    n: int,
    p: ToastPointer,
    col: int,
)
    requires
        0 <= col < n <= mapped.len() <= usize::MAX,
        columns.len() <= i16::MAX,
        1 <= mapped[col].src_attnum <= columns.len(),
    ensures
        columns[mapped[col].src_attnum - 1] == Some(ColumnValue::ExternalToast(p)) ==> sites(
            columns,
            mapped,
            n,
        ).contains(
            PointerSite { idx: (mapped[col].src_attnum - 1) as usize, col: col as usize, p },
        ),
        forall|i: int|
            0 <= i < sites(columns, mapped, n).len() ==> (#[trigger] sites(columns, mapped, n)[i]).col
                < n && columns[sites(columns, mapped, n)[i].idx as int] == Some(
                ColumnValue::ExternalToast(sites(columns, mapped, n)[i].p),
            ) && mapped[sites(columns, mapped, n)[i].col as int].src_attnum == sites(
                columns,
                mapped,
                n,
            )[i].idx + 1,
        forall|i: int, j: int|
            0 <= i < j < sites(columns, mapped, n).len() ==> (#[trigger] sites(
                columns,
                mapped,
                n,
            )[i]).col < (#[trigger] sites(columns, mapped, n)[j]).col,
    decreases n,
{
    lemma_sites(columns, mapped, n);
    lemma_site_kept(columns, mapped, n, col);
}

proof fn lemma_sites(columns: Seq<Option<ColumnValue>>, mapped: Seq<ColumnMappingView>, n: int)
    requires
        0 <= n <= mapped.len() <= usize::MAX,
        columns.len() <= i16::MAX,
    ensures
        forall|i: int|
            0 <= i < sites(columns, mapped, n).len() ==> (#[trigger] sites(columns, mapped, n)[i]).col
                < n && columns[sites(columns, mapped, n)[i].idx as int] == Some(
                ColumnValue::ExternalToast(sites(columns, mapped, n)[i].p),
            ) && mapped[sites(columns, mapped, n)[i].col as int].src_attnum == sites(
                columns,
                mapped,
                n,
            )[i].idx + 1,
        forall|i: int, j: int|
            0 <= i < j < sites(columns, mapped, n).len() ==> (#[trigger] sites(
                columns,
                mapped,
                n,
            )[i]).col < (#[trigger] sites(columns, mapped, n)[j]).col,
    decreases n,
{
    if n > 0 {
        lemma_sites(columns, mapped, n - 1);
    }
}

proof fn lemma_site_kept(
    columns: Seq<Option<ColumnValue>>,
    mapped: Seq<ColumnMappingView>,
    n: int,
    col: int,
)
    requires
        0 <= col < n,
    ensures
        site_at(columns, mapped, col) is Some ==> sites(columns, mapped, n).contains(
            site_at(columns, mapped, col)->0,
        ),
    decreases n,
{
    if site_at(columns, mapped, col) is Some {
        let s = site_at(columns, mapped, col)->0;
        let rest = sites(columns, mapped, n - 1);
        let all = sites(columns, mapped, n);
        if col == n - 1 {
            assert(all[rest.len() as int] == s);
        } else {
            lemma_site_kept(columns, mapped, n - 1, col);
            let i = choose|i: int| 0 <= i < rest.len() && rest[i] == s;
            assert(all[i] == s);
        }
    }
}

/// A value that was assembled is taken as it decompressed. Without a store a
/// column is filled with a null; with one, chunks that are missing or do not
/// add up fail the load.
pub proof fn missing_chunks_fail_the_load(
    fetched: FetchedCell,
    p: ToastPointer,
    extsize: u64,
    rel: RelKey,
    target: Seq<char>,
    r: Result<(ColumnValue, usize), String>,
)
    requires
        fetched_column(fetched, p, extsize, rel, target, r),
    ensures
        fetched matches FetchedCell::Finished(f) ==> r == f,
        fetched is NoStore ==> r is Ok && r->Ok_0 == (ColumnValue::Null, 0usize),
        fetched is Mismatch || fetched is Missing ==> r is Err,
{
}

/// A row that is routed counts once, under the seq that is open, whether it is
/// still held or handed over with the others.
pub proof fn routed_rows_count_under_the_open_seq<T>(d: DrainModel<T>, row: T, bytes: usize, s: nat)
    requires
        d.wf(),
        d.seqs.open is Some,
    ensures
        sent_under(d.routed(row, bytes).log, s) + rows_under(d.routed(row, bytes).buffer, s)
            == sent_under(d.log, s) + rows_under(d.buffer, s) + (if s == d.seqs.open->0.seq {
            1nat
        } else {
            0
        }),
{
    let after = d.routed(row, bytes);
    let buffer = d.buffer.push((d.seqs.open->0.seq as u64, row));
    assert(buffer.drop_last() == d.buffer);
    assert(rows_under(Seq::<(u64, T)>::empty(), s) == 0);
    let log = d.log.push(DrainEvent::Sent(buffer));
    assert(log.drop_last() == d.log);
    assert(after.log == log && after.buffer == Seq::<(u64, T)>::empty() || after.log == d.log
        && after.buffer == buffer);
}

/// A load never holds a thousand and twenty-four rows back, nor four mebibytes
/// of them.
pub proof fn held_rows_stay_few<T>(d: DrainModel<T>, row: T, bytes: usize)
    ensures
        d.routed(row, bytes).buffer.len() < 1024,
        d.routed(row, bytes).buffer.len() > 0 ==> d.routed(row, bytes).bytes < 4 * 1024 * 1024,
{
}

/// Rows that were put off are handed back or resolved, as it was asked, and
/// the seqs go on where the walk ended. Without such rows the load is over.
pub proof fn deferred_rows_are_not_lost<S>(
    spool: S,
    records: u64,
    next_seq: u64,
    rows_routed: u64,
)
    requires
        records > 0,
    ensures
        walk_end(Deferral::Handback(spool), records, next_seq, rows_routed) == AfterWalk::Done(
            BootstrapDrainOutcome { next_seq, rows_routed, deferred: Some(spool) },
        ),
        walk_end(Deferral::Local(spool), records, next_seq, rows_routed) == (AfterWalk::Resolve {
            spool,
            first_seq: next_seq,
            rows_routed,
        }),
{
}

/// A walk that put nothing off is over, with the seqs and rows it counted.
pub proof fn complete_walks_are_over<S>(deferral: Deferral<S>, next_seq: u64, rows_routed: u64)
    ensures
        walk_end(deferral, 0, next_seq, rows_routed) == AfterWalk::Done(
            BootstrapDrainOutcome::<S> { next_seq, rows_routed, deferred: None },
        ),
{
}

/// What waits is settled, over a connection that is opened once; nothing is
/// opened for nothing.
pub proof fn waiting_outcomes_are_settled(nothing_waits: bool, connected: bool)
    ensures
        settle_step(nothing_waits, connected) is Rest <==> nothing_waits,
        settle_step(nothing_waits, connected) is ConnectAndSettle <==> !nothing_waits && !connected,
        settle_step(nothing_waits, connected) is Settle <==> !nothing_waits && connected,
{
}

/// At boot a Snowflake ledger is reconciled first. What waits then is settled,
/// after the outcomes of the transaction log where there is one; with nothing
/// waiting the log is not read.
pub proof fn boots_settle_what_waits(has_log: bool)
    ensures
        first_boot_stage(false) is Inspect,
        first_boot_stage(true) is Reconcile,
        forall|nothing_waits: bool|
            #![trigger next_boot_stage(BootSettle::Reconcile, nothing_waits, has_log)]
            next_boot_stage(BootSettle::Reconcile, nothing_waits, has_log) is Inspect,
        next_boot_stage(BootSettle::Inspect, true, has_log) is Done,
        has_log ==> next_boot_stage(BootSettle::Inspect, false, has_log) is ReadOutcomes
            && next_boot_stage(BootSettle::ReadOutcomes, false, has_log) is Settle,
        !has_log ==> next_boot_stage(BootSettle::Inspect, false, has_log) is Settle,
        next_boot_stage(BootSettle::Settle, false, has_log) is Done,
        next_boot_stage(BootSettle::Done, false, has_log) is Done,
{
}

/// Without an overlay a reload does nothing. With one it follows what was
/// republished, and tries what waits where tables can be created.
pub proof fn reloads_follow_the_overlay(republished: bool, can_create: bool)
    ensures
        !reload_of(false, republished, can_create).diff,
        !reload_of(false, republished, can_create).retry,
        reload_of(true, republished, can_create).diff == republished,
        reload_of(true, republished, can_create).retry == can_create,
{
}

/// A relation is replicated only where its row says so; silence is no opt-in.
pub proof fn silence_is_no_opt_in<R>(s: Selected<R>)
    ensures
        s.replicate is None ==> !asked(s).replicate,
        s.replicate matches Some(b) ==> asked(s).replicate == b,
        asked(s).rel == s.rel,
        asked(s).row == s.row,
{
}

/// A relation that a pattern selects is asked for unless the configuration maps
/// it on its own; one that was opted in before is asked for in any case.
pub proof fn patterns_ask_for_unmapped_relations<R>(
    scoped: Seq<Selected<R>>,
    mapped: Seq<RelName>,
    applied: Seq<RelName>,
    i: int,
)
    requires
        0 <= i < scoped.len(),
    ensures
        newly_scoped(scoped, mapped, applied).contains(scoped[i]) <== !holds(
            mapped,
            scoped[i].rel@,
        ) || holds(applied, scoped[i].rel@),
        forall|k: int|
            0 <= k < newly_scoped(scoped, mapped, applied).len() ==> scoped.contains(
                #[trigger] newly_scoped(scoped, mapped, applied)[k],
            ) && (!holds(mapped, newly_scoped(scoped, mapped, applied)[k].rel@) || holds(
                applied,
                newly_scoped(scoped, mapped, applied)[k].rel@,
            )),
    decreases scoped.len(),
{
    lemma_scoped(scoped, mapped, applied);
    if !holds(mapped, scoped[i].rel@) || holds(applied, scoped[i].rel@) {
        lemma_scoped_kept(scoped, mapped, applied, i);
    }
}

proof fn lemma_scoped<R>(scoped: Seq<Selected<R>>, mapped: Seq<RelName>, applied: Seq<RelName>)
    ensures
        forall|k: int|
            0 <= k < newly_scoped(scoped, mapped, applied).len() ==> scoped.contains(
                #[trigger] newly_scoped(scoped, mapped, applied)[k],
            ) && (!holds(mapped, newly_scoped(scoped, mapped, applied)[k].rel@) || holds(
                applied,
                newly_scoped(scoped, mapped, applied)[k].rel@,
            )),
    decreases scoped.len(),
{
    if scoped.len() > 0 {
        let front = scoped.drop_last();
        lemma_scoped(front, mapped, applied);
        let rest = newly_scoped(front, mapped, applied);
        let all = newly_scoped(scoped, mapped, applied);
        assert forall|k: int| 0 <= k < all.len() implies scoped.contains(#[trigger] all[k]) && (
        !holds(mapped, all[k].rel@) || holds(applied, all[k].rel@)) by {
            if k < rest.len() {
                assert(all[k] == rest[k]);
                let j = choose|j: int| 0 <= j < front.len() && front[j] == rest[k];
                assert(scoped[j] == all[k]);
            } else {
                assert(scoped[scoped.len() - 1] == all[k]);
            }
        }
    }
}

proof fn lemma_scoped_kept<R>(
    scoped: Seq<Selected<R>>,
    mapped: Seq<RelName>,
    applied: Seq<RelName>,
    i: int,
)
    requires
        0 <= i < scoped.len(),
        !holds(mapped, scoped[i].rel@) || holds(applied, scoped[i].rel@),
    ensures
        newly_scoped(scoped, mapped, applied).contains(scoped[i]),
    decreases scoped.len(),
{
    let front = scoped.drop_last();
    let rest = newly_scoped(front, mapped, applied);
    let all = newly_scoped(scoped, mapped, applied);
    if i == scoped.len() - 1 {
        assert(all[rest.len() as int] == scoped[i]);
    } else {
        lemma_scoped_kept(front, mapped, applied, i);
        let j = choose|j: int| 0 <= j < rest.len() && rest[j] == front[i];
        assert(all[j] == scoped[i]);
    }
}

/// A relation is wanted when some row asks for it, and goes by the last row
/// that does; a row that asks for nothing does not take an opt-in back.
pub proof fn last_asking_row_counts<R>(desired: Seq<Desired<R>>, d: Desired<R>, rel: RelKey)
    ensures
        d.replicate ==> wanted(desired.push(d), d.rel@) == Some(d.row),
        !d.replicate ==> wanted(desired.push(d), rel) == wanted(desired, rel),
        d.rel@ != rel ==> wanted(desired.push(d), rel) == wanted(desired, rel),
        wanted(Seq::<Desired<R>>::empty(), rel) is None,
{
    assert(desired.push(d).drop_last() == desired);
}

/// An opt-in whose relation is not known yet keeps waiting without a fault; one
/// that cannot be looked up or applied is a fault.
pub proof fn unknown_relations_are_waited_for(a: Attempt)
    ensures
        attempt_fault(a) is None <==> a is Unknown || a is Applied,
{
}

/// The last row that was put off for a relation is the one that waits.
pub proof fn last_waiting_row_counts<R>(list: Seq<(RelName, R)>, name: RelName, row: R, rel: RelKey)
    ensures
        waiting(list.push((name, row)), name@) == Some(row),
        name@ != rel ==> waiting(list.push((name, row)), rel) == waiting(list, rel),
        waiting(Seq::<(RelName, R)>::empty(), rel) is None,
{
    assert(list.push((name, row)).drop_last() == list);
}

/// Rows of one file follow under one seq. With the first row of another file
/// the open seq is reported, behind its rows, and the next one is registered.
pub proof fn files_have_their_own_seqs<T>(d: DrainModel<T>, rfn: RelFileNode, lsn: u64)
    ensures
        d.seqs.open is Some && d.seqs.open->0.rfn == rfn ==> d.arrived(rfn, lsn) == d,
        d.seqs.open is None || d.seqs.open->0.rfn != rfn ==> ({
            let after = d.arrived(rfn, lsn);
            &&& after.log.last() == DrainEvent::<T>::Registered(d.seqs.next_seq, lsn)
            &&& after.seqs.open is Some && after.seqs.open->0.rfn == rfn && after.seqs.open->0.seq
                == d.seqs.next_seq && after.seqs.open->0.rows == 0
            &&& after.seqs.next_seq == d.seqs.next_seq + 1
        }),
        d.seqs.open matches Some(o) ==> (o.rfn != rfn ==> ({
            let after = d.arrived(rfn, lsn);
            &&& after.log[after.log.len() - 2] == DrainEvent::<T>::Placed(o.seq, o.rows)
            &&& after.buffer.len() == 0
            &&& d.buffer.len() > 0 ==> after.log[after.log.len() - 3] == DrainEvent::Sent(d.buffer)
        })),
{
}

} // verus!

//! What becomes of transaction records and of the commits they end.
use vstd::prelude::*;
use vstd::string::*;

use crate::pipeline::commit::{
    config_action_of, fence_fault, followups_of, kind_of, mirror_of, ConfigAction, ConfigEvent,
    FenceOutcome, PlanFailures, RecordKind, XactPayload,
};
use crate::pipeline::commit_run::{
    abort_script, fits, is_course, planning, AbortAction, CommitStage, PlanTotals, ResultView, RunView,
};
use crate::pipeline::planner::{plan_label, FailClosedReason, PlanError, XactBufferError};
use crate::schema::{RelDescriptor, SchemaEvent};

verus! {

/// A transaction record is told by its manager and the three bits of its
/// operation; the others, which say what else it carries, do not matter.
pub proof fn records_are_told_by_their_operation(rm: u8, a: u8, b: u8)
    requires
        a & 0x70u8 == b & 0x70u8,
    ensures
        kind_of(rm, a) == kind_of(rm, b),
{
}

/// Every commit ends a transaction, prepared before or not, and so does every
/// abort.
pub proof fn commits_and_aborts_are_recognised(rm: u8, info: u8)
    ensures
        rm == 1 && (info & 0x70u8 == 0u8 || info & 0x70u8 == 0x30u8) <==> kind_of(rm, info)
            == RecordKind::Commit,
        rm == 1 && (info & 0x70u8 == 0x20u8 || info & 0x70u8 == 0x40u8) <==> kind_of(rm, info)
            == RecordKind::Abort,
        rm == 1 && info & 0x70u8 == 0x50u8 <==> kind_of(rm, info) == RecordKind::Assignment,
{
}

/// The bits that say what a record carries do not turn a commit into anything
/// else.
pub proof fn carried_data_does_not_hide_a_commit(info: u8, extra: u8)
    requires
        extra & 0x70u8 == 0u8,
    ensures
        kind_of(1, info | extra) == kind_of(1, info),
        kind_of(1, extra) == RecordKind::Commit,
{
    assert((info | extra) & 0x70u8 == info & 0x70u8) by (bit_vector)
        requires
            extra & 0x70u8 == 0u8,
    ;
}

/// A prepared transaction's work is its own, whichever backend finishes it;
/// any other's is that of the record.
pub proof fn prepared_work_is_found_again(p: XactPayload, a: u32, b: u32)
    ensures
        p.twophase_xid is Some ==> p.owned_by(a) == p.owned_by(b) && Some(p.owned_by(a))
            == p.twophase_xid,
        p.twophase_xid is None ==> p.owned_by(a) == a,
        p.db_id is Some ==> p.written_in(a) == p.written_in(b) && Some(p.written_in(a)) == p.db_id,
        p.db_id is None ==> p.written_in(a) == a,
{
}

/// A new relation materializes a waiting opt-in, and only a dropped relation of
/// out-of-line values retires a mirror; without a store none is.
pub proof fn schema_changes_have_their_followups(
    ev: SchemaEvent,
    resolver: bool,
    stores: bool,
)
    ensures
        followups_of(ev, resolver, stores).materialize <==> ev is Added && resolver,
        !stores ==> !followups_of(ev, resolver, stores).retire_mirror,
        followups_of(ev, resolver, stores).retire_mirror ==> ev is Dropped,
        ev matches SchemaEvent::Dropped { oid, rel_name } ==> (stores && rel_name@.namespace
            == "pg_toast"@ <==> followups_of(ev, resolver, stores).retire_mirror),
{
}

/// A truncate empties the mirror of its relation's out-of-line values, if there
/// is one.
pub proof fn truncates_reach_the_mirror(stores: bool, desc: RelDescriptor)
    ensures
        mirror_of(stores, desc) is Some <==> stores && desc.toast_oid > 0,
        mirror_of(stores, desc) matches Some(m) ==> m == desc.toast_oid,
{
}

/// A row for one relation opts it in or out; a pattern only enters the
/// overlay, and without an applicator nothing is created.
pub proof fn configuration_rows_opt_in_and_out(ev: ConfigEvent, applicator: bool)
    ensures
        config_action_of(ev, applicator) == ConfigAction::OptIn <==> applicator && (
        ev matches ConfigEvent::TableUpserted { rel, is_pattern } && !is_pattern),
        config_action_of(ev, applicator) == ConfigAction::Exclude <==> (
        ev matches ConfigEvent::TableRemoved { rel, pattern } && !pattern),
{
}

/// All counted failures.
pub open spec fn failures(f: PlanFailures) -> int {
    f.spool + f.fail_closed_image_only + f.fail_closed_malformed + f.fail_closed_unsupported_op
        + f.stash_ambiguous + f.incomplete_toast + f.missing_stash_resolution + f.detoast
        + f.partial_update + f.view + f.drain
}

/// Every failed plan is counted once.
pub proof fn failed_plans_are_counted_once(f: PlanFailures, reason: Seq<char>)
    requires
        failures(f) < u64::MAX,
    ensures
        failures(f.bumped(reason)) == failures(f) + 1,
{
}

/// A failed plan is counted under what made it fail.
pub proof fn failed_plans_are_counted_by_their_cause(f: PlanFailures, e: PlanError)
    requires
        failures(f) < u64::MAX,
    ensures
        ({
            let g = f.bumped(plan_label(e));
            match e {
                PlanError::Spool(_) => g.spool == f.spool + 1,
                PlanError::View(_) => g.view == f.view + 1,
                PlanError::PartialUpdate { .. } => g.partial_update == f.partial_update + 1,
                PlanError::Detoast(XactBufferError::Detoast(_)) => g.detoast == f.detoast + 1,
                PlanError::Detoast(XactBufferError::ValueTooLarge { .. }) => g.detoast == f.detoast
                    + 1,
                PlanError::Detoast(XactBufferError::StashAmbiguous { .. }) => g.stash_ambiguous
                    == f.stash_ambiguous + 1,
                PlanError::Detoast(
                    XactBufferError::IncompleteToastGeneration { .. },
                ) => g.incomplete_toast == f.incomplete_toast + 1,
                PlanError::Detoast(
                    XactBufferError::MissingStashResolution { .. },
                ) => g.missing_stash_resolution == f.missing_stash_resolution + 1,
                PlanError::Detoast(XactBufferError::ForeignXid { .. }) => g.drain == f.drain + 1,
                PlanError::Detoast(XactBufferError::Spill(_)) => g.drain == f.drain + 1,
                PlanError::Detoast(
                    XactBufferError::OrdinaryFailClosed { reason, .. },
                ) => match reason {
                    FailClosedReason::ImageOnly => g.fail_closed_image_only
                        == f.fail_closed_image_only + 1,
                    FailClosedReason::Malformed(_) => g.fail_closed_malformed
                        == f.fail_closed_malformed + 1,
                    FailClosedReason::UnsupportedOperation => g.fail_closed_unsupported_op
                        == f.fail_closed_unsupported_op + 1,
                    FailClosedReason::PartialUpdate => g.partial_update == f.partial_update + 1,
                },
            }
        }),
{
    reveal_strlit("spool");
    reveal_strlit("view");
    reveal_strlit("partial_update");
    reveal_strlit("detoast");
    reveal_strlit("stash_ambiguous");
    reveal_strlit("incomplete_toast");
    reveal_strlit("missing_stash_resolution");
    reveal_strlit("drain");
    reveal_strlit("fail_closed_image_only");
    reveal_strlit("fail_closed_malformed");
    reveal_strlit("fail_closed_unsupported_op");
    assert("drain"@[0] == 'd' && "spool"@[0] == 's');
    assert("spool"@.len() == 5 && "view"@.len() == 4 && "partial_update"@.len() == 14
        && "detoast"@.len() == 7 && "stash_ambiguous"@.len() == 15 && "incomplete_toast"@.len()
        == 16 && "missing_stash_resolution"@.len() == 24 && "drain"@.len() == 5
        && "fail_closed_image_only"@.len() == 22 && "fail_closed_malformed"@.len() == 21
        && "fail_closed_unsupported_op"@.len() == 26);
    match e {
        PlanError::Spool(_) => {},
        PlanError::View(_) => {},
        PlanError::PartialUpdate { .. } => {},
        PlanError::Detoast(x) => match x {
            XactBufferError::ForeignXid { .. } => {
                assert(plan_label(e) == "drain"@);
            },
            XactBufferError::Spill(_) => {
                assert(plan_label(e) == "drain"@);
            },
            _ => {},
        },
    }
}

/// A fence is passed exactly when everything before it is durable, and a stage
/// that failed meanwhile is reported by its own words.
pub proof fn fences_wait_for_durability(fatal: Option<Seq<char>>, o: FenceOutcome, through: u64)
    ensures
        fence_fault(fatal, o, through) is None <==> o is Durable,
        o is StageFailed && fatal is Some ==> fence_fault(fatal, o, through) == fatal,
{
}

/// An abort has no rows: its seq is registered before it is declared empty, and
/// the transaction is dropped from the buffer in between.
pub proof fn aborts_pass_without_rows(i: int, j: int, k: int)
    requires
        0 <= i < abort_script().len(),
        0 <= j < abort_script().len(),
        0 <= k < abort_script().len(),
        abort_script()[i] is Register,
        abort_script()[j] is AbortBuffer,
        abort_script()[k] is PlaceNone,
    ensures
        i < j < k,
        abort_script().contains(AbortAction::NotePending),
        abort_script().contains(AbortAction::Register),
        abort_script().contains(AbortAction::AbortBuffer),
        abort_script().contains(AbortAction::PlaceNone),
        abort_script().contains(AbortAction::ForgetTree),
{
    let s = abort_script();
    assert(s[0] is NotePending && s[1] is Register && s[2] is AbortBuffer && s[3] is PlaceNone
        && s[4] is ForgetTree);
}

proof fn lemma_step(trace: Seq<RunView>, results: Seq<ResultView>, i: int)
    requires
        is_course(trace, results),
        0 <= i < results.len(),
    ensures
        fits(trace[i].stage, results[i]),
        trace[i + 1] == trace[i].after(results[i]),
{
    assert(fits(trace[i].stage, results[i]));
}

/// Before a commit is planned, mirrors are retired, waiting rows settled, the
/// stash resolved, the buffer drained, the tree forgotten and opt-ins applied;
/// its routes are frozen last, so that it sees the opt-ins.
pub proof fn commits_are_prepared_in_order(trace: Seq<RunView>, results: Seq<ResultView>, i: int)
    requires
        is_course(trace, results),
        trace.len() > 7,
        forall|k: int| 0 <= k < 7 ==> !(#[trigger] results[k] is Failed),
    ensures
        trace[0].stage is FlushRetires,
        trace[1].stage is NotePending,
        trace[2].stage is ResolveStash,
        trace[3].stage is DrainBuffer,
        trace[4].stage is ForgetTree,
        trace[5].stage is ApplyReload,
        trace[6].stage is FreezeRoutes,
        trace[7].stage is OpenPlan <==> trace[7].had_states,
        trace[7].stage is FinishDrain <==> !trace[7].had_states,
        results[3] matches ResultView::Drained(had, lsn) && trace[7].had_states == had
            && trace[7].commit_lsn == lsn,
{
    lemma_step(trace, results, 0);
    lemma_step(trace, results, 1);
    lemma_step(trace, results, 2);
    lemma_step(trace, results, 3);
    lemma_step(trace, results, 4);
    lemma_step(trace, results, 5);
    lemma_step(trace, results, 6);
}

/// A plan is sealed only behind the last slice of its transaction, and a slice
/// that was taken is planned.
pub proof fn every_slice_is_planned(trace: Seq<RunView>, results: Seq<ResultView>, i: int)
    requires
        is_course(trace, results),
        0 < i < trace.len(),
    ensures
        trace[i].stage is SealPlan ==> trace[i - 1].stage == (CommitStage::PlanBatch { last: true })
            || results[i - 1] == ResultView::Slice(None),
        results[i - 1] matches ResultView::Slice(Some(last)) ==> trace[i].stage == (
        CommitStage::PlanBatch { last }),
        trace[i - 1].stage == (CommitStage::PlanBatch { last: false }) && !(results[i
            - 1] is Failed) ==> trace[i].stage is NextBatch,
{
    lemma_step(trace, results, i - 1);
}

/// A commit that came to its end executed what it had buffered, and published
/// its position.
pub proof fn finished_commits_were_executed(trace: Seq<RunView>, results: Seq<ResultView>)
    requires
        is_course(trace, results),
        trace.last().stage is Done,
    ensures
        trace.last().had_states ==> exists|k: int|
            0 <= k < results.len() && trace[k].stage is Execute && #[trigger] results[k] is Executed,
        (exists|k: int| 0 <= k < results.len() && #[trigger] results[k] == ResultView::Executed(true))
            || (exists|k: int| 0 <= k < trace.len() && (#[trigger] trace[k]).stage is Marker),
{
    let n = trace.len() - 1;
    if trace.last().had_states {
        lemma_executed(trace, results, n);
    }
    lemma_step(trace, results, n - 1);
    if !(trace[n - 1].stage is Marker) {
        lemma_published(trace, results, n - 1);
    }
}

/// Execution lies behind the stage.
spec fn behind_execution(s: CommitStage) -> bool {
    s is FinishDrain || s is Marker || s is Done
}

proof fn lemma_executed(trace: Seq<RunView>, results: Seq<ResultView>, i: int)
    requires
        is_course(trace, results),
        0 <= i < trace.len(),
        behind_execution(trace[i].stage),
        trace[i].had_states,
    ensures
        exists|k: int|
            0 <= k < results.len() && trace[k].stage is Execute && #[trigger] results[k] is Executed,
    decreases i,
{
    assert(i > 0);
    lemma_step(trace, results, i - 1);
    if trace[i - 1].stage is Execute {
        assert(results[i - 1] is Executed);
    } else {
        lemma_executed(trace, results, i - 1);
    }
}

proof fn lemma_published(trace: Seq<RunView>, results: Seq<ResultView>, i: int)
    requires
        is_course(trace, results),
        0 <= i < trace.len(),
        trace[i].published,
    ensures
        exists|k: int| 0 <= k < results.len() && #[trigger] results[k] == ResultView::Executed(true),
    decreases i,
{
    assert(i > 0);
    lemma_step(trace, results, i - 1);
    if results[i - 1] == ResultView::Executed(true) {
    } else {
        lemma_published(trace, results, i - 1);
    }
}

/// A plan's bytes are counted where they lie, and its rows once.
pub proof fn plans_are_counted_where_they_lie(
    t: PlanTotals,
    s: CommitStage,
    rows: u64,
    bytes: u64,
    on_disk: bool,
)
    requires
        t.rows + rows <= u64::MAX,
        t.bytes_file + bytes <= u64::MAX,
        t.bytes_mem + bytes <= u64::MAX,
    ensures
        ({
            let u = t.after(s, ResultView::Sealed(rows, bytes, on_disk));
            &&& u.rows == t.rows + rows
            &&& u.bytes_file + u.bytes_mem == t.bytes_file + t.bytes_mem + bytes
            &&& on_disk ==> u.bytes_mem == t.bytes_mem
            &&& !on_disk ==> u.bytes_file == t.bytes_file
            &&& u.xacts_committed == t.xacts_committed
        }),
{
}

/// A failure counts as one of planning from the opening of the plan to its
/// sealing, and in no stage before or behind.
pub proof fn planning_goes_from_open_to_seal(s: CommitStage)
    ensures
        s is OpenPlan || s is NextBatch || s is PlanBatch || s is SealPlan ==> planning(s),
        s is FlushRetires || s is NotePending || s is ResolveStash || s is DrainBuffer || s
            is ForgetTree || s is ApplyReload || s is FreezeRoutes ==> !planning(s),
        s is Execute || s is FinishDrain || s is Marker || s is Done || s is Failed ==> !planning(s),
{
}

} // verus!

//! The course of one commit and of one abort.
//!
//! A whole transaction is planned without side effects before the first of
//! them happens, so whatever is wrong with its input surfaces while nothing
//! has been emitted.
use vstd::prelude::*;
use vstd::string::*;

use crate::pipeline::commit::{bump_plan_failure, PlanFailures, XactPayload};
use crate::pipeline::reorder::{plan_file_name, plan_file_text};

verus! {

/// Where a commit stands: the stage that is running.
#[derive(Debug, Clone, Copy, PartialEq, Eq, Structural)]
pub enum CommitStage {
    /// Retire mirrors whose drop lies below the persisted floor.
    FlushRetires,
    /// Settle backup rows that waited for this transaction.
    NotePending,
    /// Resolve records that were stashed until their relation is known.
    ResolveStash,
    /// Take the transaction out of the buffer.
    DrainBuffer,
    /// Forget the transaction tree.
    ForgetTree,
    /// Apply live opt-ins, so that they are in scope for this commit.
    ApplyReload,
    /// Freeze one route version for the whole transaction.
    FreezeRoutes,
    OpenPlan,
    /// Take the next slice of the transaction.
    NextBatch,
    /// Plan a slice, the last one or not.
    PlanBatch { last: bool },
    SealPlan,
    Execute,
    /// Remove spill files.
    FinishDrain,
    /// Publish through a marker without rows.
    Marker,
    Done,
    Failed,
}

/// How the running stage ended.
#[derive(Debug)]
pub enum StageResult {
    Ended,
    /// The transaction is out of the buffer.
    Drained { had_states: bool, commit_lsn: u64 },
    /// The next slice, if there is one: whether it is the last.
    Slice(Option<bool>),
    /// The plan is sealed.
    Sealed { routed: u64, bytes: u64, on_disk: bool },
    /// Whether execution published the commit.
    Executed { published: bool },
    /// It failed, with an error and the label under which failed plans are
    /// counted.
    Failed { error: String, reason: &'static str },
}

/// What commits have counted so far.
#[derive(Debug, Clone, Copy, PartialEq, Eq, Structural)]
pub struct PlanTotals {
    /// Transactions that were drained, with rows or without.
    pub xacts_committed: u64,
    /// Rows that were planned, and the bytes of their plans.
    pub rows: u64,
    pub bytes_file: u64,
    pub bytes_mem: u64,
}

/// One commit under way.
#[derive(Debug)]
pub struct CommitRun {
    /// The transaction under which the work is buffered.
    pub xid: u32,
    pub db: u32,
    pub stage: CommitStage,
    pub had_states: bool,
    pub commit_lsn: u64,
    pub published: bool,
    /// Why the commit failed.
    pub error: Option<String>,
}

pub enum ResultView {
    Ended,
    Drained(bool, u64),
    Slice(Option<bool>),
    Sealed(u64, u64, bool),
    Executed(bool),
    Failed(Seq<char>, Seq<char>),
}

impl View for StageResult {
    type V = ResultView;

    open spec fn view(&self) -> ResultView {
        match self {
            StageResult::Ended => ResultView::Ended,
            StageResult::Drained { had_states, commit_lsn } => ResultView::Drained(
                *had_states,
                *commit_lsn,
            ),
            StageResult::Slice(s) => ResultView::Slice(*s),
            StageResult::Sealed { routed, bytes, on_disk } => ResultView::Sealed(
                *routed,
                *bytes,
                *on_disk,
            ),
            StageResult::Executed { published } => ResultView::Executed(*published),
            StageResult::Failed { error, reason } => ResultView::Failed(error@, reason@),
        }
    }
}

pub struct RunView {
    pub xid: u32,
    pub db: u32,
    pub stage: CommitStage,
    pub had_states: bool,
    pub commit_lsn: u64,
    pub published: bool,
    pub error: Option<Seq<char>>,
}

impl View for CommitRun {
    type V = RunView;

    open spec fn view(&self) -> RunView {
        RunView {
            xid: self.xid,
            db: self.db,
            stage: self.stage,
            had_states: self.had_states,
            commit_lsn: self.commit_lsn,
            published: self.published,
            error: crate::mapping::opt_view(self.error),
        }
    }
}

/// Whether a stage belongs to planning.
pub open spec fn planning(s: CommitStage) -> bool {
    s is OpenPlan || s is NextBatch || s is PlanBatch || s is SealPlan
}

/// What an error is prefixed with.
pub open spec fn error_prefix(s: CommitStage) -> Seq<char> {
    match s {
        CommitStage::OpenPlan => "plan open: "@,
        CommitStage::PlanBatch { .. } => "plan: "@,
        CommitStage::SealPlan => "plan seal: "@,
        _ => Seq::empty(),
    }
}

/// Whether the result is one that the stage can have.
pub open spec fn fits(s: CommitStage, r: ResultView) -> bool {
    match s {
        CommitStage::Done => false,
        CommitStage::Failed => false,
        CommitStage::DrainBuffer => r is Drained || r is Failed,
        CommitStage::NextBatch => r is Slice || r is Failed,
        CommitStage::SealPlan => r is Sealed || r is Failed,
        CommitStage::Execute => r is Executed || r is Failed,
        _ => r is Ended || r is Failed,
    }
}

impl RunView {
    /// The stage after the running one ended with `r`. A transaction without
    /// buffered state has nothing to plan; a commit that execution published
    /// needs no marker.
    pub open spec fn stage_after(self, r: ResultView) -> CommitStage {
        match (self.stage, r) {
            (_, ResultView::Failed(_, _)) => CommitStage::Failed,
            (CommitStage::FlushRetires, _) => CommitStage::NotePending,
            (CommitStage::NotePending, _) => CommitStage::ResolveStash,
            (CommitStage::ResolveStash, _) => CommitStage::DrainBuffer,
            (CommitStage::DrainBuffer, _) => CommitStage::ForgetTree,
            (CommitStage::ForgetTree, _) => CommitStage::ApplyReload,
            (CommitStage::ApplyReload, _) => CommitStage::FreezeRoutes,
            (CommitStage::FreezeRoutes, _) => if self.had_states {
                CommitStage::OpenPlan
            } else {
                CommitStage::FinishDrain
            },
            (CommitStage::OpenPlan, _) => CommitStage::NextBatch,
            (CommitStage::NextBatch, ResultView::Slice(Some(last))) => CommitStage::PlanBatch {
                last,
            },
            (CommitStage::NextBatch, _) => CommitStage::SealPlan,
            (CommitStage::PlanBatch { last }, _) => if last {
                CommitStage::SealPlan
            } else {
                CommitStage::NextBatch
            },
            (CommitStage::SealPlan, _) => CommitStage::Execute,
            (CommitStage::Execute, _) => CommitStage::FinishDrain,
            (CommitStage::FinishDrain, _) => if self.published {
                CommitStage::Done
            } else {
                CommitStage::Marker
            },
            (CommitStage::Marker, _) => CommitStage::Done,
            (s, _) => s,
        }
    }

    /// The commit once its running stage ended with `r`.
    pub open spec fn after(self, r: ResultView) -> RunView {
        RunView {
            stage: self.stage_after(r),
            had_states: match r {
                ResultView::Drained(h, _) => h,
                _ => self.had_states,
            },
            commit_lsn: match r {
                ResultView::Drained(_, lsn) => lsn,
                _ => self.commit_lsn,
            },
            published: match r {
                ResultView::Executed(p) => p,
                _ => self.published,
            },
            error: match r {
                ResultView::Failed(e, _) => Some(error_prefix(self.stage) + e),
                _ => self.error,
            },
            ..self
        }
    }
}

impl PlanTotals {
    /// The totals with a sealed plan; they wrap.
    pub open spec fn with_plan(self, routed: u64, bytes: u64, on_disk: bool) -> PlanTotals {
        PlanTotals {
            xacts_committed: self.xacts_committed,
            rows: self.rows.wrapping_add(routed),
            bytes_file: if on_disk {
                self.bytes_file.wrapping_add(bytes)
            } else {
                self.bytes_file
            },
            bytes_mem: if on_disk {
                self.bytes_mem
            } else {
                self.bytes_mem.wrapping_add(bytes)
            },
        }
    }
}

impl PlanTotals {
    /// The totals once stage `s` ended with `r`: a transaction counts as soon
    /// as it is drained and its tree forgotten, a plan once it is sealed.
    pub open spec fn after(self, s: CommitStage, r: ResultView) -> PlanTotals {
        match (s, r) {
            (CommitStage::ForgetTree, ResultView::Ended) => PlanTotals {
                xacts_committed: self.xacts_committed.wrapping_add(1),
                ..self
            },
            (_, ResultView::Sealed(routed, bytes, on_disk)) => self.with_plan(
                routed,
                bytes,
                on_disk,
            ),
            _ => self,
        }
    }
}

impl CommitRun {
    /// A commit at its first stage. Work that was prepared lies under the
    /// prepared transaction, and every transaction writes one database.
    pub fn begin(header_xid: u32, payload: &XactPayload, primary_db: u32) -> (r: Self)
        ensures
            r@ == (RunView {
                xid: payload.owned_by(header_xid),
                db: payload.written_in(primary_db),
                stage: CommitStage::FlushRetires,
                had_states: false,
                commit_lsn: 0,
                published: false,
                error: None,
            }),
    {
        CommitRun {
            xid: payload.owner(header_xid),
            db: payload.database(primary_db),
            stage: CommitStage::FlushRetires,
            had_states: false,
            commit_lsn: 0,
            published: false,
            error: None,
        }
    }

    /// Name of the file that the plan may spill into.
    pub fn plan_file(&self) -> (s: String)
        ensures
            s@ == plan_file_text(self.xid, self.commit_lsn),
    {
        plan_file_name(self.xid, self.commit_lsn)
    }

    /// Go on to the next stage. A transaction is counted when it is drained,
    /// its plan when that is sealed, and failures of planning under their
    /// reason.
    pub fn advance(
        &mut self,
        r: StageResult,
        totals: &mut PlanTotals,
        failures: &mut PlanFailures,
    )
        requires
            fits(old(self).stage, r@),
        ensures
            final(self)@ == old(self)@.after(r@),
            *final(totals) == old(totals).after(old(self).stage, r@),
            *final(failures) == (match r {
                StageResult::Failed { reason, .. } => if planning(old(self).stage) {
                    old(failures).bumped(reason@)
                } else {
                    *old(failures)
                },
                _ => *old(failures),
            }),
    {
        let ghost pre = *self;
        match r {
            StageResult::Failed { error, reason } => {
                let mut m: String = match self.stage {
                    CommitStage::OpenPlan => String::from_str("plan open: "),
                    CommitStage::PlanBatch { .. } => String::from_str("plan: "),
                    CommitStage::SealPlan => String::from_str("plan seal: "),
                    _ => String::new(),
                };
                m.append(error.as_str());
                match self.stage {
                    CommitStage::OpenPlan => bump_plan_failure(failures, reason),
                    CommitStage::NextBatch => bump_plan_failure(failures, reason),
                    CommitStage::PlanBatch { .. } => bump_plan_failure(failures, reason),
                    CommitStage::SealPlan => bump_plan_failure(failures, reason),
                    _ => {},
                }
                self.error = Some(m);
                self.stage = CommitStage::Failed;
            },
            StageResult::Drained { had_states, commit_lsn } => {
                self.had_states = had_states;
                self.commit_lsn = commit_lsn;
                self.stage = CommitStage::ForgetTree;
            },
            StageResult::Slice(next) => {
                self.stage = match next {
                    Some(last) => CommitStage::PlanBatch { last },
                    None => CommitStage::SealPlan,
                };
            },
            StageResult::Sealed { routed, bytes, on_disk } => {
                totals.rows = totals.rows.wrapping_add(routed);
                if on_disk {
                    totals.bytes_file = totals.bytes_file.wrapping_add(bytes);
                } else {
                    totals.bytes_mem = totals.bytes_mem.wrapping_add(bytes);
                }
                self.stage = CommitStage::Execute;
            },
            StageResult::Executed { published } => {
                self.published = published;
                self.stage = CommitStage::FinishDrain;
            },
            StageResult::Ended => {
                if let CommitStage::ForgetTree = self.stage {
                    totals.xacts_committed = totals.xacts_committed.wrapping_add(1);
                }
                self.stage = match self.stage {
                    CommitStage::FlushRetires => CommitStage::NotePending,
                    CommitStage::NotePending => CommitStage::ResolveStash,
                    CommitStage::ResolveStash => CommitStage::DrainBuffer,
                    CommitStage::ForgetTree => CommitStage::ApplyReload,
                    CommitStage::ApplyReload => CommitStage::FreezeRoutes,
                    CommitStage::FreezeRoutes => if self.had_states {
                        CommitStage::OpenPlan
                    } else {
                        CommitStage::FinishDrain
                    },
                    CommitStage::OpenPlan => CommitStage::NextBatch,
                    CommitStage::PlanBatch { last } => if last {
                        CommitStage::SealPlan
                    } else {
                        CommitStage::NextBatch
                    },
                    CommitStage::FinishDrain => if self.published {
                        CommitStage::Done
                    } else {
                        CommitStage::Marker
                    },
                    _ => CommitStage::Done,
                };
            },
        }
        proof {
            assert(self@ =~= pre@.after(r@));
        }
    }
}

/// A commit all the way: `trace[i + 1]` is `trace[i]` after a result that
/// fits.
pub open spec fn is_course(trace: Seq<RunView>, results: Seq<ResultView>) -> bool {
    &&& trace.len() == results.len() + 1
    &&& trace[0].stage == CommitStage::FlushRetires
    &&& !trace[0].published
    &&& forall|i: int|
        0 <= i < results.len() ==> fits(trace[i].stage, #[trigger] results[i]) && trace[i + 1]
            == trace[i].after(results[i])
}

pub open spec fn rank(s: CommitStage) -> int {
    match s {
        CommitStage::FlushRetires => 0,
        CommitStage::NotePending => 1,
        CommitStage::ResolveStash => 2,
        CommitStage::DrainBuffer => 3,
        CommitStage::ForgetTree => 4,
        CommitStage::ApplyReload => 5,
        CommitStage::FreezeRoutes => 6,
        CommitStage::OpenPlan => 7,
        CommitStage::NextBatch => 8,
        CommitStage::PlanBatch { .. } => 8,
        CommitStage::SealPlan => 9,
        CommitStage::Execute => 10,
        CommitStage::FinishDrain => 11,
        CommitStage::Marker => 12,
        CommitStage::Done => 13,
        CommitStage::Failed => 13,
    }
}

/// Once a commit executes, nothing of it is planned any more: every stage of
/// planning lies before execution.
pub proof fn planning_precedes_execution(
    trace: Seq<RunView>,
    results: Seq<ResultView>,
    i: int,
    j: int,
)
    requires
        is_course(trace, results),
        0 <= i < trace.len(),
        0 <= j < trace.len(),
        planning(trace[i].stage),
        trace[j].stage is Execute,
    ensures
        i < j,
{
    if j <= i {
        ranks_rise(trace, results, j, i);
    }
}

proof fn ranks_rise(trace: Seq<RunView>, results: Seq<ResultView>, i: int, j: int)
    requires
        is_course(trace, results),
        0 <= i <= j < trace.len(),
    ensures
        rank(trace[i].stage) <= rank(trace[j].stage),
    decreases j - i,
{
    if i < j {
        ranks_rise(trace, results, i, j - 1);
        assert(fits(trace[j - 1].stage, results[j - 1]) && trace[j - 1 + 1] == trace[j - 1].after(
            results[j - 1],
        ));
    }
}

/// Whether step `i` of a course counts its transaction.
pub open spec fn counts_at(trace: Seq<RunView>, results: Seq<ResultView>, i: int) -> bool {
    0 <= i < results.len() && trace[i].stage is ForgetTree && results[i] is Ended
}

/// A commit that came to its end counted its transaction once, also one
/// without rows; one that failed counted it once or not at all.
pub proof fn transactions_are_counted_once(trace: Seq<RunView>, results: Seq<ResultView>)
    requires
        is_course(trace, results),
    ensures
        forall|i: int, j: int| #[trigger]
            counts_at(trace, results, i) && #[trigger] counts_at(trace, results, j) ==> i == j,
        trace.last().stage is Done ==> exists|i: int| counts_at(trace, results, i),
{
    assert forall|i: int, j: int| #[trigger]
        counts_at(trace, results, i) && #[trigger] counts_at(trace, results, j) implies i == j by {
        lemma_counts_before(trace, results, i, j);
        lemma_counts_before(trace, results, j, i);
    }
    if trace.last().stage is Done {
        lemma_counted(trace, results, trace.len() - 1);
    }
}

proof fn lemma_counts_before(trace: Seq<RunView>, results: Seq<ResultView>, i: int, j: int)
    requires
        is_course(trace, results),
        counts_at(trace, results, i),
        counts_at(trace, results, j),
    ensures
        j <= i,
{
    if i < j {
        assert(fits(trace[i].stage, results[i]) && trace[i + 1] == trace[i].after(results[i]));
        ranks_rise(trace, results, i + 1, j);
    }
}

proof fn lemma_counted(trace: Seq<RunView>, results: Seq<ResultView>, i: int)
    requires
        is_course(trace, results),
        0 <= i < trace.len(),
        rank(trace[i].stage) > rank(CommitStage::ForgetTree),
        !(trace[i].stage is Failed),
    ensures
        exists|k: int| counts_at(trace, results, k),
    decreases i,
{
    let r = results[i - 1];
    assert(i > 0);
    assert(fits(trace[i - 1].stage, r) && trace[i - 1 + 1] == trace[i - 1].after(r));
    if trace[i - 1].stage is ForgetTree {
        assert(counts_at(trace, results, i - 1));
    } else {
        lemma_counted(trace, results, i - 1);
    }
}

proof fn published_only_by_execution(trace: Seq<RunView>, results: Seq<ResultView>, i: int)
    requires
        is_course(trace, results),
        0 <= i < trace.len(),
    ensures
        forall|k: int|
            0 <= k < i && #[trigger] results[k] is Executed ==> rank(trace[i].stage) >= 11
                && trace[i].published == (results[k] == ResultView::Executed(true)),
    decreases i,
{
    if i > 0 {
        published_only_by_execution(trace, results, i - 1);
        let r = results[i - 1];
        assert(fits(trace[i - 1].stage, r) && trace[i - 1 + 1] == trace[i - 1].after(r));
    }
}

/// A commit publishes its position once: through execution, or else through
/// a marker at the end, never both.
pub proof fn marker_stands_in_for_execution(trace: Seq<RunView>, results: Seq<ResultView>, i: int)
    requires
        is_course(trace, results),
        0 <= i < trace.len(),
        trace[i].stage is Marker,
    ensures
        forall|k: int|
            0 <= k < results.len() ==> #[trigger] results[k] != ResultView::Executed(true),
{
    published_only_by_execution(trace, results, i);
    if i > 0 {
        let r = results[i - 1];
        assert(fits(trace[i - 1].stage, r) && trace[i - 1 + 1] == trace[i - 1].after(r));
    }
    assert forall|k: int| 0 <= k < results.len() implies #[trigger] results[k]
        != ResultView::Executed(true) by {
        if results[k] == ResultView::Executed(true) {
            assert(fits(trace[k].stage, results[k]));
            if k >= i {
                ranks_rise(trace, results, i, k);
            } else {
                assert(trace[i].published);
            }
        }
    }
}

/// A failed commit ended before anything of it was executed, unless execution
/// or what follows it is what failed.
pub proof fn failed_planning_emits_nothing(trace: Seq<RunView>, results: Seq<ResultView>, i: int)
    requires
        is_course(trace, results),
        0 <= i < results.len(),
        results[i] is Failed,
        planning(trace[i].stage),
    ensures
        forall|k: int|
            0 <= k < trace.len() ==> !((#[trigger] trace[k]).stage is Execute) && !(
            trace[k].stage is Marker),
{
    assert(fits(trace[i].stage, results[i]) && trace[i + 1] == trace[i].after(results[i]));
    assert forall|k: int| 0 <= k < trace.len() implies !((#[trigger] trace[k]).stage is Execute)
        && !(trace[k].stage is Marker) by {
        if k <= i {
            ranks_rise(trace, results, k, i);
        } else {
            ranks_rise(trace, results, i + 1, k);
        }
    }
}

/// What an abort does, in order: it settles what waited for the transaction,
/// and passes through the ack gate as a unit without rows.
#[derive(Debug, Clone, Copy, PartialEq, Eq, Structural)]
pub enum AbortAction {
    NotePending,
    /// Register the seq at the abort's position.
    Register,
    /// Drop the transaction from the buffer.
    AbortBuffer,
    /// Declare that the seq has no rows.
    PlaceNone,
    ForgetTree,
}

pub open spec fn abort_script() -> Seq<AbortAction> {
    seq![
        AbortAction::NotePending,
        AbortAction::Register,
        AbortAction::AbortBuffer,
        AbortAction::PlaceNone,
        AbortAction::ForgetTree,
    ]
}

pub fn abort_actions() -> (r: Vec<AbortAction>)
    ensures
        r@ == abort_script(),
{
    let mut r: Vec<AbortAction> = Vec::new();
    r.push(AbortAction::NotePending);
    r.push(AbortAction::Register);
    r.push(AbortAction::AbortBuffer);
    r.push(AbortAction::PlaceNone);
    r.push(AbortAction::ForgetTree);
    proof {
        assert(r@ =~= abort_script());
    }
    r
}

/// What an idle source lets happen: with nothing buffered the position is a
/// trailing one, and opt-ins and retirements that wait for a commit need not
/// wait any longer.
pub fn idle_advances(active_xacts: u64) -> (r: bool)
    ensures
        r == (active_xacts == 0),
{
    active_xacts == 0
}

} // verus!

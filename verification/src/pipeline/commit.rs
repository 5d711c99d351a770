//! What a transaction record asks for, in which order.
use vstd::prelude::*;
use vstd::string::*;

use crate::pipeline::fatal::Fatal;
use crate::pipeline::tail::fatal_or;
use crate::schema::{RelDescriptor, RelName, SchemaEvent};
use crate::text::{dec, push_dec, str_eq};

verus! {

/// Resource manager of transaction records.
pub const RM_XACT: u8 = 1;

/// Bits of a transaction record's info byte that name the operation.
pub const XLOG_XACT_OPMASK: u8 = 0x70;

pub const XLOG_XACT_COMMIT: u8 = 0x00;

pub const XLOG_XACT_ABORT: u8 = 0x20;

pub const XLOG_XACT_COMMIT_PREPARED: u8 = 0x30;

pub const XLOG_XACT_ABORT_PREPARED: u8 = 0x40;

pub const XLOG_XACT_ASSIGNMENT: u8 = 0x50;

#[derive(Debug, Clone, Copy, PartialEq, Eq, Structural)]
pub enum RecordKind {
    Commit,
    Abort,
    /// Subtransactions get their parent.
    Assignment,
    /// No concern of commit order; a prepare is drained when it is committed.
    Other,
}

pub open spec fn kind_of(rm: u8, info: u8) -> RecordKind {
    let op = info & XLOG_XACT_OPMASK;
    if rm != RM_XACT {
        RecordKind::Other
    } else if op == XLOG_XACT_COMMIT || op == XLOG_XACT_COMMIT_PREPARED {
        RecordKind::Commit
    } else if op == XLOG_XACT_ABORT || op == XLOG_XACT_ABORT_PREPARED {
        RecordKind::Abort
    } else if op == XLOG_XACT_ASSIGNMENT {
        RecordKind::Assignment
    } else {
        RecordKind::Other
    }
}

pub fn classify_record(rm: u8, info: u8) -> (r: RecordKind)
    ensures
        r == kind_of(rm, info),
{
    if rm != RM_XACT {
        return RecordKind::Other;
    }
    let op: u8 = info & XLOG_XACT_OPMASK;
    if op == XLOG_XACT_COMMIT || op == XLOG_XACT_COMMIT_PREPARED {
        RecordKind::Commit
    } else if op == XLOG_XACT_ABORT || op == XLOG_XACT_ABORT_PREPARED {
        RecordKind::Abort
    } else if op == XLOG_XACT_ASSIGNMENT {
        RecordKind::Assignment
    } else {
        RecordKind::Other
    }
}

/// What a commit or abort record carries.
#[derive(Debug)]
pub struct XactPayload {
    /// The prepared transaction that the record finishes.
    pub twophase_xid: Option<u32>,
    pub db_id: Option<u32>,
    pub subxacts: Vec<u32>,
}

impl XactPayload {
    /// The transaction that the record finishes.
    pub open spec fn owned_by(&self, header_xid: u32) -> u32 {
        match self.twophase_xid {
            Some(x) => x,
            None => header_xid,
        }
    }

    /// The database that it wrote.
    pub open spec fn written_in(&self, primary: u32) -> u32 {
        match self.db_id {
            Some(d) => d,
            None => primary,
        }
    }

    /// The transaction under which the work is buffered: of a prepared one
    /// the header names the backend that finishes it.
    pub fn owner(&self, header_xid: u32) -> (r: u32)
        ensures
            r == self.owned_by(header_xid),
    {
        match self.twophase_xid {
            Some(x) => x,
            None => header_xid,
        }
    }

    /// The database that the transaction wrote, else the primary one.
    pub fn database(&self, primary: u32) -> (r: u32)
        ensures
            r == self.written_in(primary),
    {
        match self.db_id {
            Some(d) => d,
            None => primary,
        }
    }

    /// The whole tree: the owner, then its subtransactions.
    pub fn tree(&self, owner: u32) -> (r: Vec<u32>)
        ensures
            r@ == seq![owner] + self.subxacts@,
    {
        let mut r: Vec<u32> = Vec::new();
        r.push(owner);
        let mut i: usize = 0;
        proof {
            assert(r@ =~= seq![owner] + self.subxacts@.subrange(0, 0));
        }
        while i < self.subxacts.len()
            invariant
                i <= self.subxacts@.len(),
                r@ == seq![owner] + self.subxacts@.subrange(0, i as int),
            decreases self.subxacts@.len() - i,
        {
            r.push(self.subxacts[i]);
            proof {
                assert(r@ =~= seq![owner] + self.subxacts@.subrange(0, i as int + 1));
            }
            i = i + 1;
        }
        proof {
            assert(self.subxacts@.subrange(0, i as int) =~= self.subxacts@);
        }
        r
    }
}

/// What else a schema change of a commit asks for.
#[derive(Debug, Clone, Copy, PartialEq, Eq, Structural)]
pub struct EventFollowups {
    /// Materialize a forward-declared opt-in.
    pub materialize: bool,
    /// Queue the dropped mirror for retirement: wiping it now would corrupt
    /// what a replay fills at the same position.
    pub retire_mirror: bool,
}

pub open spec fn followups_of(ev: SchemaEvent, has_resolver: bool, stores_chunks: bool) -> EventFollowups {
    EventFollowups {
        materialize: ev is Added && has_resolver,
        retire_mirror: match ev {
            SchemaEvent::Dropped { rel_name, .. } => rel_name.namespace@ == "pg_toast"@
                && stores_chunks,
            _ => false,
        },
    }
}

pub fn event_followups(ev: &SchemaEvent, has_resolver: bool, stores_chunks: bool) -> (r:
    EventFollowups)
    ensures
        r == followups_of(*ev, has_resolver, stores_chunks),
{
    match ev {
        SchemaEvent::Added { .. } => EventFollowups {
            materialize: has_resolver,
            retire_mirror: false,
        },
        SchemaEvent::Changed { .. } => EventFollowups { materialize: false, retire_mirror: false },
        SchemaEvent::Dropped { rel_name, .. } => EventFollowups {
            materialize: false,
            retire_mirror: stores_chunks && str_eq(rel_name.namespace.as_str(), "pg_toast"),
        },
    }
}

/// Whether a relation that is known at boot gets an `Added` event: all but
/// the out-of-line storage of others.
pub fn boot_relation(desc: &RelDescriptor) -> (r: bool)
    ensures
        r == (desc.kind != 't'),
{
    desc.kind != 't'
}

/// The mirror to truncate along with a relation: the source swaps it without
/// naming it.
pub open spec fn mirror_of(stores_chunks: bool, desc: RelDescriptor) -> Option<u32> {
    if stores_chunks && desc.toast_oid != 0 {
        Some(desc.toast_oid)
    } else {
        None
    }
}

pub fn truncate_mirror(stores_chunks: bool, desc: &RelDescriptor) -> (r: Option<u32>)
    ensures
        r == mirror_of(stores_chunks, *desc),
{
    if stores_chunks && desc.toast_oid != 0 {
        Some(desc.toast_oid)
    } else {
        None
    }
}

/// A change of a configuration table.
#[derive(Debug)]
pub enum ConfigEvent {
    TableUpserted { rel: RelName, is_pattern: bool },
    TableRemoved { rel: RelName, pattern: bool },
    Other,
}

/// What a configuration change does besides entering the overlay.
#[derive(Debug, Clone, Copy, PartialEq, Eq, Structural)]
pub enum ConfigAction {
    /// Create and route the table.
    OptIn,
    /// Route it no more.
    Exclude,
    Nothing,
}

pub open spec fn config_action_of(ev: ConfigEvent, has_applicator: bool) -> ConfigAction {
    match ev {
        ConfigEvent::TableUpserted { is_pattern, .. } => if !is_pattern && has_applicator {
            ConfigAction::OptIn
        } else {
            ConfigAction::Nothing
        },
        ConfigEvent::TableRemoved { pattern, .. } => if !pattern {
            ConfigAction::Exclude
        } else {
            ConfigAction::Nothing
        },
        ConfigEvent::Other => ConfigAction::Nothing,
    }
}

pub fn config_action(ev: &ConfigEvent, has_applicator: bool) -> (r: ConfigAction)
    ensures
        r == config_action_of(*ev, has_applicator),
{
    match ev {
        ConfigEvent::TableUpserted { is_pattern, .. } => if !*is_pattern && has_applicator {
            ConfigAction::OptIn
        } else {
            ConfigAction::Nothing
        },
        ConfigEvent::TableRemoved { pattern, .. } => if !*pattern {
            ConfigAction::Exclude
        } else {
            ConfigAction::Nothing
        },
        ConfigEvent::Other => ConfigAction::Nothing,
    }
}

/// Failed plans by reason.
#[derive(Debug, Clone, Copy, PartialEq, Eq, Structural)]
pub struct PlanFailures {
    pub spool: u64,
    pub fail_closed_image_only: u64,
    pub fail_closed_malformed: u64,
    pub fail_closed_unsupported_op: u64,
    pub stash_ambiguous: u64,
    pub incomplete_toast: u64,
    pub missing_stash_resolution: u64,
    pub detoast: u64,
    pub partial_update: u64,
    pub view: u64,
    pub drain: u64,
}

impl Default for PlanFailures {
    fn default() -> (r: Self)
        ensures
            r == no_failures(),
    {
        PlanFailures {
            spool: 0,
            fail_closed_image_only: 0,
            fail_closed_malformed: 0,
            fail_closed_unsupported_op: 0,
            stash_ambiguous: 0,
            incomplete_toast: 0,
            missing_stash_resolution: 0,
            detoast: 0,
            partial_update: 0,
            view: 0,
            drain: 0,
        }
    }
}

pub open spec fn no_failures() -> PlanFailures {
    PlanFailures {
        spool: 0,
        fail_closed_image_only: 0,
        fail_closed_malformed: 0,
        fail_closed_unsupported_op: 0,
        stash_ambiguous: 0,
        incomplete_toast: 0,
        missing_stash_resolution: 0,
        detoast: 0,
        partial_update: 0,
        view: 0,
        drain: 0,
    }
}

impl PlanFailures {
    /// The counters with one more failure of the reason; a reason without a
    /// counter of its own is a drain failure.
    pub open spec fn bumped(self, reason: Seq<char>) -> PlanFailures {
        if reason == "spool"@ {
            PlanFailures { spool: wrapped(self.spool), ..self }
        } else if reason == "fail_closed_image_only"@ {
            PlanFailures { fail_closed_image_only: wrapped(self.fail_closed_image_only), ..self }
        } else if reason == "fail_closed_malformed"@ {
            PlanFailures { fail_closed_malformed: wrapped(self.fail_closed_malformed), ..self }
        } else if reason == "fail_closed_unsupported_op"@ {
            PlanFailures {
                fail_closed_unsupported_op: wrapped(self.fail_closed_unsupported_op),
                ..self
            }
        } else if reason == "stash_ambiguous"@ {
            PlanFailures { stash_ambiguous: wrapped(self.stash_ambiguous), ..self }
        } else if reason == "incomplete_toast"@ {
            PlanFailures { incomplete_toast: wrapped(self.incomplete_toast), ..self }
        } else if reason == "missing_stash_resolution"@ {
            PlanFailures { missing_stash_resolution: wrapped(self.missing_stash_resolution), ..self }
        } else if reason == "detoast"@ {
            PlanFailures { detoast: wrapped(self.detoast), ..self }
        } else if reason == "partial_update"@ {
            PlanFailures { partial_update: wrapped(self.partial_update), ..self }
        } else if reason == "view"@ {
            PlanFailures { view: wrapped(self.view), ..self }
        } else {
            PlanFailures { drain: wrapped(self.drain), ..self }
        }
    }
}

/// Counters wrap.
pub open spec fn wrapped(n: u64) -> u64 {
    crate::pipeline::route_view::one_more(n)
}

/// Count a failed plan under its reason.
pub fn bump_plan_failure(stats: &mut PlanFailures, reason: &str)
    ensures
        *final(stats) == old(stats).bumped(reason@),
{
    if str_eq(reason, "spool") {
        stats.spool = stats.spool.wrapping_add(1);
    } else if str_eq(reason, "fail_closed_image_only") {
        stats.fail_closed_image_only = stats.fail_closed_image_only.wrapping_add(1);
    } else if str_eq(reason, "fail_closed_malformed") {
        stats.fail_closed_malformed = stats.fail_closed_malformed.wrapping_add(1);
    } else if str_eq(reason, "fail_closed_unsupported_op") {
        stats.fail_closed_unsupported_op = stats.fail_closed_unsupported_op.wrapping_add(1);
    } else if str_eq(reason, "stash_ambiguous") {
        stats.stash_ambiguous = stats.stash_ambiguous.wrapping_add(1);
    } else if str_eq(reason, "incomplete_toast") {
        stats.incomplete_toast = stats.incomplete_toast.wrapping_add(1);
    } else if str_eq(reason, "missing_stash_resolution") {
        stats.missing_stash_resolution = stats.missing_stash_resolution.wrapping_add(1);
    } else if str_eq(reason, "detoast") {
        stats.detoast = stats.detoast.wrapping_add(1);
    } else if str_eq(reason, "partial_update") {
        stats.partial_update = stats.partial_update.wrapping_add(1);
    } else if str_eq(reason, "view") {
        stats.view = stats.view.wrapping_add(1);
    } else {
        stats.drain = stats.drain.wrapping_add(1);
    }
}

/// How the fence before a control or truncate ended: every table sealed, and
/// every seq so far durable.
#[derive(Debug)]
pub enum FenceOutcome {
    /// The batcher did not take the flush.
    SendFailed,
    /// A stage failed while the fence waited.
    StageFailed,
    /// The batcher went away without an answer.
    AnswerDropped,
    /// Waiting for the seqs failed.
    WaitFailed(String),
    Durable,
}

/// What the fence reports; the root cause goes before a success that came at
/// the same time.
pub open spec fn fence_fault(
    fatal: Option<Seq<char>>,
    o: FenceOutcome,
    through: u64,
) -> Option<Seq<char>> {
    match o {
        FenceOutcome::SendFailed => Some("batcher channel closed"@),
        FenceOutcome::StageFailed => Some(
            match fatal {
                Some(m) => m,
                None => "pipeline fatal"@,
            },
        ),
        FenceOutcome::AnswerDropped => Some("batcher dropped flush ack"@),
        FenceOutcome::WaitFailed(e) => Some(
            "durability barrier through "@ + dec(through as nat) + ": "@ + e@,
        ),
        FenceOutcome::Durable => None,
    }
}

/// The result of a fence over the seqs below `through`.
pub fn fence_result(fatal: &Fatal, outcome: FenceOutcome, through: u64) -> (r: Result<(), String>)
    ensures
        match r {
            Ok(()) => fence_fault(fatal@, outcome, through) is None,
            Err(m) => fence_fault(fatal@, outcome, through) == Some(m@),
        },
{
    match outcome {
        FenceOutcome::SendFailed => Err(String::from_str("batcher channel closed")),
        FenceOutcome::StageFailed => Err(fatal_or(fatal, "pipeline fatal")),
        FenceOutcome::AnswerDropped => Err(String::from_str("batcher dropped flush ack")),
        FenceOutcome::WaitFailed(e) => {
            let mut m: String = String::from_str("durability barrier through ");
            push_dec(&mut m, through);
            m.append(": ");
            m.append(e.as_str());
            Err(m)
        },
        FenceOutcome::Durable => Ok(()),
    }
}

} // verus!

//! Work that rides along with the commits: retiring the mirrors of dropped
//! relations, and settling backup rows that waited for a transaction's end.
use vstd::prelude::*;

verus! {

/// One step of retiring mirrors.
#[derive(Debug, Clone, Copy, PartialEq, Eq, Structural)]
pub enum RetireStep {
    /// Empty the mirror as of its drop.
    Wipe { mirror: u32, dropped_at: u64 },
    /// Take its entry out of the ledger.
    Forget { mirror: u32, dropped_at: u64 },
}

/// Every due mirror is emptied and then forgotten, one after the other.
pub open spec fn retire_script(due: Seq<(u32, u64)>) -> Seq<RetireStep>
    decreases due.len(),
{
    if due.len() == 0 {
        Seq::empty()
    } else {
        let (mirror, dropped_at) = due.last();
        retire_script(due.drop_last()).push(RetireStep::Wipe { mirror, dropped_at }).push(
            RetireStep::Forget { mirror, dropped_at },
        )
    }
}

/// Retire the mirrors whose drop lies below the persisted floor. Where chunks
/// are not stored nothing is emptied, so nothing is forgotten either: a later
/// run with a store still has to empty them.
pub fn flush_due_retires(stores_chunks: bool, due: &Vec<(u32, u64)>) -> (r: Vec<RetireStep>)
    ensures
        r@ == (if stores_chunks {
            retire_script(due@)
        } else {
            Seq::empty()
        }),
{
    let mut out: Vec<RetireStep> = Vec::new();
    if !stores_chunks {
        return out;
    }
    let mut i: usize = 0;
    proof {
        assert(due@.subrange(0, 0) =~= Seq::empty());
    }
    while i < due.len()
        invariant
            i <= due@.len(),
            out@ == retire_script(due@.subrange(0, i as int)),
        decreases due@.len() - i,
    {
        proof {
            let part = due@.subrange(0, i as int + 1);
            assert(part.drop_last() =~= due@.subrange(0, i as int));
            assert(part.last() == due@[i as int]);
        }
        let (mirror, dropped_at): (u32, u64) = due[i];
        out.push(RetireStep::Wipe { mirror, dropped_at });
        out.push(RetireStep::Forget { mirror, dropped_at });
        i = i + 1;
    }
    proof {
        assert(due@.subrange(0, i as int) =~= due@);
    }
    out
}

/// An entry leaves the ledger only behind the emptying of its mirror, so a
/// crash in between repeats the emptying and loses nothing.
pub proof fn mirrors_are_forgotten_once_emptied(due: Seq<(u32, u64)>, i: int)
    requires
        0 <= i < retire_script(due).len(),
        retire_script(due)[i] is Forget,
    ensures
        i > 0,
        match retire_script(due)[i] {
            RetireStep::Forget { mirror, dropped_at } => retire_script(due)[i - 1]
                == (RetireStep::Wipe { mirror, dropped_at }),
            RetireStep::Wipe { .. } => false,
        },
    decreases due.len(),
{
    if due.len() > 0 {
        let head = retire_script(due.drop_last());
        if i < head.len() {
            assert(retire_script(due)[i] == head[i]);
            mirrors_are_forgotten_once_emptied(due.drop_last(), i);
        }
    }
}

/// Count the transactions that a commit or abort settled. Whether rows have
/// to be settled for them.
pub fn note_pending(settled: u64, total: &mut u64) -> (r: bool)
    ensures
        r == (settled > 0),
        *final(total) == old(total).wrapping_add(settled),
{
    *total = total.wrapping_add(settled);
    settled > 0
}

#[derive(Debug, Clone, Copy, PartialEq, Eq, Structural)]
pub enum SettleStep {
    /// Nothing waits.
    Rest,
    /// Open the control connection, then settle.
    ConnectAndSettle,
    Settle,
}

/// The step that settles what waits.
pub open spec fn settle_step(nothing_waits: bool, connected: bool) -> SettleStep {
    if nothing_waits {
        SettleStep::Rest
    } else if connected {
        SettleStep::Settle
    } else {
        SettleStep::ConnectAndSettle
    }
}

/// Settle what waits; the connection is opened when it is first needed.
pub fn settle_pending(nothing_waits: bool, connected: bool) -> (r: SettleStep)
    ensures
        r == settle_step(nothing_waits, connected),
{
    if nothing_waits {
        SettleStep::Rest
    } else if connected {
        SettleStep::Settle
    } else {
        SettleStep::ConnectAndSettle
    }
}

/// A stage of settling at boot, before any record is read again.
#[derive(Debug, Clone, Copy, PartialEq, Eq, Structural)]
pub enum BootSettle {
    /// Bring the ledger in line with a Snowflake destination.
    Reconcile,
    /// See whether anything waits.
    Inspect,
    /// Take the outcomes that the shadow's transaction log has.
    ReadOutcomes,
    Settle,
    Done,
}

pub open spec fn first_boot_stage(snowflake: bool) -> BootSettle {
    if snowflake {
        BootSettle::Reconcile
    } else {
        BootSettle::Inspect
    }
}

pub open spec fn next_boot_stage(s: BootSettle, nothing_waits: bool, has_log: bool) -> BootSettle {
    match s {
        BootSettle::Reconcile => BootSettle::Inspect,
        BootSettle::Inspect => if nothing_waits {
            BootSettle::Done
        } else if has_log {
            BootSettle::ReadOutcomes
        } else {
            BootSettle::Settle
        },
        BootSettle::ReadOutcomes => BootSettle::Settle,
        BootSettle::Settle => BootSettle::Done,
        BootSettle::Done => BootSettle::Done,
    }
}

/// Where settling at boot starts.
pub fn settle_pending_boot(snowflake: bool) -> (r: BootSettle)
    ensures
        r == first_boot_stage(snowflake),
{
    if snowflake {
        BootSettle::Reconcile
    } else {
        BootSettle::Inspect
    }
}

impl BootSettle {
    /// The stage behind this one, given whether nothing waits and whether the
    /// shadow has a transaction log.
    pub fn next(self, nothing_waits: bool, has_log: bool) -> (r: BootSettle)
        ensures
            r == next_boot_stage(self, nothing_waits, has_log),
    {
        match self {
            BootSettle::Reconcile => BootSettle::Inspect,
            BootSettle::Inspect => if nothing_waits {
                BootSettle::Done
            } else if has_log {
                BootSettle::ReadOutcomes
            } else {
                BootSettle::Settle
            },
            BootSettle::ReadOutcomes => BootSettle::Settle,
            BootSettle::Settle => BootSettle::Done,
            BootSettle::Done => BootSettle::Done,
        }
    }
}

} // verus!

//! The Snowflake tail: rows go to the worker of their relation, and a flush to
//! every worker.
use vstd::prelude::*;
use vstd::string::*;

use crate::pipeline::tail::flush_fault;
use crate::schema::{RelKey, RelName};

verus! {

/// The relations that have a worker, each at most once; a relation's place is
/// the number of its worker.
pub struct TableRouter {
    rels: Vec<RelName>,
}

/// Where a row goes.
#[derive(Debug, Clone, Copy, PartialEq, Eq, Structural)]
pub struct WorkerSlot {
    pub worker: usize,
    /// The worker has to be started first.
    pub start: bool,
}

pub open spec fn rel_keys(rels: Seq<RelName>) -> Seq<RelKey> {
    rels.map_values(|r: RelName| r@)
}

/// Why the tail cannot go on, if it cannot.
pub open spec fn route_fault_text(taken: bool) -> Option<Seq<char>> {
    if taken {
        None
    } else {
        Some("snowflake tail route: "@ + "Snowflake table worker closed"@)
    }
}

/// The workers once a row of `rel` has one.
pub open spec fn with_worker(keys: Seq<RelKey>, rel: RelKey) -> Seq<RelKey> {
    if keys.contains(rel) {
        keys
    } else {
        keys.push(rel)
    }
}

impl TableRouter {
    pub closed spec fn keys(&self) -> Seq<RelKey> {
        rel_keys(self.rels@)
    }

    pub open spec fn wf(&self) -> bool {
        self.keys().no_duplicates()
    }

    pub fn new() -> (r: Self)
        ensures
            r.wf(),
            r.keys() == Seq::<RelKey>::empty(),
    {
        let r = TableRouter { rels: Vec::new() };
        proof {
            assert(r.keys() =~= Seq::empty());
        }
        r
    }

    /// How many workers there are.
    pub fn workers(&self) -> (n: usize)
        ensures
            n == self.keys().len(),
    {
        self.rels.len()
    }

    /// The worker of a row's relation; the first row of a relation starts one.
    pub fn route(&mut self, rel: &RelName) -> (r: WorkerSlot)
        requires
            old(self).wf(),
        ensures
            final(self).wf(),
            r.worker < final(self).keys().len(),
            final(self).keys()[r.worker as int] == rel@,
            r.start == !old(self).keys().contains(rel@),
            final(self).keys() == with_worker(old(self).keys(), rel@),
    {
        let n: usize = self.rels.len();
        let mut i: usize = 0;
        while i < n
            invariant
                i <= n == self.rels@.len(),
                *self == *old(self),
                self.wf(),
                forall|k: int| 0 <= k < i ==> #[trigger] self.keys()[k] != rel@,
            decreases n - i,
        {
            if self.rels[i].same(rel) {
                proof {
                    assert(self.keys()[i as int] == rel@);
                }
                return WorkerSlot { worker: i, start: false };
            }
            i = i + 1;
        }
        self.rels.push(rel.copied());
        proof {
            let before = old(self).keys();
            assert(self.keys() =~= before.push(rel@));
            assert forall|a: int, b: int|
                0 <= a < self.keys().len() && 0 <= b < self.keys().len() && a != b implies (
            #[trigger] self.keys()[a]) != (#[trigger] self.keys()[b]) by {
                if a < n && b < n {
                    assert(before[a] != before[b]);
                } else if a < n {
                    assert(before[a] != rel@);
                } else {
                    assert(before[b] != rel@);
                }
            }
        }
        WorkerSlot { worker: n, start: true }
    }

    /// Whether the tail goes on after its worker took a row or did not.
    pub fn routed(&self, taken: bool) -> (r: Result<(), String>)
        ensures
            match r {
                Ok(()) => route_fault_text(taken) is None,
                Err(m) => route_fault_text(taken) == Some(m@),
            },
    {
        if taken {
            return Ok(());
        }
        let mut m: String = String::from_str("snowflake tail route: ");
        m.append("Snowflake table worker closed");
        Err(m)
    }
}

/// How a worker's panic stops the pipeline.
pub fn worker_panicked(cause: &str) -> (m: String)
    ensures
        m@ == "snowflake table worker panicked: "@ + cause@,
{
    let mut m: String = String::from_str("snowflake table worker panicked: ");
    m.append(cause);
    m
}

/// The workers once rows of the relations `rels` have come, one after another.
pub open spec fn workers_after(keys: Seq<RelKey>, rels: Seq<RelKey>) -> Seq<RelKey>
    decreases rels.len(),
{
    if rels.len() == 0 {
        keys
    } else {
        with_worker(workers_after(keys, rels.drop_last()), rels.last())
    }
}

/// A flush that succeeds over all workers was taken and answered by every one
/// of them: `sent` and `answered` say of each worker whether it did.
pub proof fn finished_flush_reached_every_worker(
    keys: Seq<RelKey>,
    sent: Seq<bool>,
    answered: Seq<bool>,
)
    requires
        sent.len() == keys.len(),
        answered.len() == keys.len(),
    ensures
        flush_fault(sent, answered) is None <==> {
            &&& forall|i: int| 0 <= i < keys.len() ==> #[trigger] sent[i]
            &&& forall|i: int| 0 <= i < keys.len() ==> #[trigger] answered[i]
        },
{
}

/// A relation keeps its worker, whatever rows follow, so that its rows reach
/// the destination through one queue.
pub proof fn relation_keeps_its_worker(keys: Seq<RelKey>, rels: Seq<RelKey>, i: int)
    requires
        0 <= i < keys.len(),
    ensures
        i < workers_after(keys, rels).len(),
        workers_after(keys, rels)[i] == keys[i],
    decreases rels.len(),
{
    if rels.len() > 0 {
        relation_keeps_its_worker(keys, rels.drop_last(), i);
    }
}

} // verus!

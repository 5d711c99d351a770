//! Live table opt-ins: what a republished configuration adds and takes away.
use vstd::prelude::*;
use vstd::string::*;

use crate::schema::{RelKey, RelName};

verus! {

/// What a commit does about opt-ins before its rows are routed.
#[derive(Debug, Clone, Copy, PartialEq, Eq, Structural)]
pub struct ReloadStart {
    /// Diff the republished configuration against the opt-ins.
    pub diff: bool,
    /// Then try those that wait.
    pub retry: bool,
}

/// What a reload begins with.
pub open spec fn reload_of(has_overlay: bool, republished: bool, has_applicator: bool) -> ReloadStart {
    ReloadStart { diff: has_overlay && republished, retry: has_overlay && has_applicator }
}

/// Without a configuration overlay there is nothing to follow; without a way
/// to create tables every opt-in keeps waiting.
pub fn reload_start(has_overlay: bool, republished: bool, has_applicator: bool) -> (r: ReloadStart)
    ensures
        r == reload_of(has_overlay, republished, has_applicator),
{
    ReloadStart { diff: has_overlay && republished, retry: has_overlay && has_applicator }
}

/// What a configuration says of a relation.
#[derive(Debug)]
pub struct Selected<R> {
    pub rel: RelName,
    pub replicate: Option<bool>,
    pub row: R,
}

/// What is asked for: a relation is to be replicated only where its row says
/// so.
pub open spec fn asked<R>(s: Selected<R>) -> Desired<R> {
    Desired { rel: s.rel, replicate: s.replicate == Some(true), row: s.row }
}

pub open spec fn all_asked<R>(list: Seq<Selected<R>>) -> Seq<Desired<R>> {
    list.map_values(|s: Selected<R>| asked(s))
}

/// What the patterns select, without relations that are mapped already,
/// unless it was an opt-in that mapped them.
pub open spec fn newly_scoped<R>(
    scoped: Seq<Selected<R>>,
    mapped: Seq<RelName>,
    applied: Seq<RelName>,
) -> Seq<Selected<R>>
    decreases scoped.len(),
{
    if scoped.len() == 0 {
        Seq::empty()
    } else {
        let rest = newly_scoped(scoped.drop_last(), mapped, applied);
        let rel = scoped.last().rel@;
        if holds(mapped, rel) && !holds(applied, rel) {
            rest
        } else {
            rest.push(scoped.last())
        }
    }
}

fn ask<R>(s: Selected<R>) -> (r: Desired<R>)
    ensures
        r == asked(s),
{
    let replicate: bool = match s.replicate {
        Some(b) => b,
        None => false,
    };
    Desired { rel: s.rel, replicate, row: s.row }
}

/// What came of trying a waiting opt-in.
#[derive(Debug)]
pub enum Attempt {
    /// The relation is not known yet.
    Unknown,
    LookupFailed(String),
    ApplyFailed(String),
    Applied,
}

/// Why an attempt fails the commit, if it does.
pub open spec fn attempt_fault(a: Attempt) -> Option<Seq<char>> {
    match a {
        Attempt::Unknown => None,
        Attempt::LookupFailed(e) => Some("opt-in descriptor lookup: "@ + e@),
        Attempt::ApplyFailed(e) => Some("reload opt-in: "@ + e@),
        Attempt::Applied => None,
    }
}

/// A relation that the configuration speaks of, and whether it is to be
/// replicated.
#[derive(Debug)]
pub struct Desired<R> {
    pub rel: RelName,
    pub replicate: bool,
    pub row: R,
}

/// The opt-ins that were applied, and those that wait for their relation to
/// become known. A table may be selected before its creation has been
/// replayed, so a waiting opt-in is retried until it is.
pub struct OptIns<R> {
    pub applied: Vec<RelName>,
    pub pending: Vec<(RelName, R)>,
}

pub open spec fn holds(list: Seq<RelName>, rel: RelKey) -> bool {
    exists|i: int| 0 <= i < list.len() && (#[trigger] list[i])@ == rel
}

/// Every relation at most once.
pub open spec fn distinct(list: Seq<RelName>) -> bool {
    forall|i: int, j: int| 0 <= i < j < list.len() ==> (#[trigger] list[i])@ != (#[trigger] list[j])@
}

/// Every relation at most once.
pub open spec fn distinct_rows<R>(list: Seq<(RelName, R)>) -> bool {
    forall|i: int, j: int|
        0 <= i < j < list.len() ==> (#[trigger] list[i]).0@ != (#[trigger] list[j]).0@
}

/// The row of a waiting relation; the last entry counts.
pub open spec fn waiting<R>(list: Seq<(RelName, R)>, rel: RelKey) -> Option<R>
    decreases list.len(),
{
    if list.len() == 0 {
        None
    } else if list.last().0@ == rel {
        Some(list.last().1)
    } else {
        waiting(list.drop_last(), rel)
    }
}

/// The row with which the relation is to be replicated; the last entry counts.
pub open spec fn wanted<R>(desired: Seq<Desired<R>>, rel: RelKey) -> Option<R>
    decreases desired.len(),
{
    if desired.len() == 0 {
        None
    } else if desired.last().rel@ == rel && desired.last().replicate {
        Some(desired.last().row)
    } else {
        wanted(desired.drop_last(), rel)
    }
}

fn list_holds(list: &Vec<RelName>, rel: &RelName) -> (r: bool)
    ensures
        r == holds(list@, rel@),
{
    let mut i: usize = 0;
    while i < list.len()
        invariant
            i <= list@.len(),
            forall|k: int| 0 <= k < i ==> (#[trigger] list@[k])@ != rel@,
        decreases list@.len() - i,
    {
        if list[i].same(rel) {
            return true;
        }
        i = i + 1;
    }
    false
}

fn is_wanted<R>(desired: &Vec<Desired<R>>, rel: &RelName) -> (r: bool)
    ensures
        r == (wanted(desired@, rel@) is Some),
{
    let mut i: usize = desired.len();
    proof {
        assert(desired@.subrange(0, i as int) =~= desired@);
    }
    while i > 0
        invariant
            i <= desired@.len(),
            wanted(desired@, rel@) == wanted(desired@.subrange(0, i as int), rel@),
        decreases i,
    {
        proof {
            let part = desired@.subrange(0, i as int);
            assert(part.drop_last() =~= desired@.subrange(0, i - 1));
            assert(part.last() == desired@[i - 1]);
        }
        if desired[i - 1].replicate && desired[i - 1].rel.same(rel) {
            return true;
        }
        i = i - 1;
    }
    false
}

/// The list without the entries of `rel`.
fn without<R>(list: Vec<(RelName, R)>, rel: &RelName) -> (r: Vec<(RelName, R)>)
    ensures
        waiting(r@, rel@) is None,
        forall|k: RelKey| k != rel@ ==> #[trigger] waiting(r@, k) == waiting(list@, k),
        distinct_rows(list@) ==> distinct_rows(r@),
{
    let ghost all = list@;
    let n: usize = list.len();
    let mut out: Vec<(RelName, R)> = Vec::new();
    let mut i: usize = 0;
    for e in iter: list
        invariant
            iter.seq() == all,
            i == iter.index(),
            i <= n == all.len(),
            waiting(out@, rel@) is None,
            forall|k: RelKey|
                k != rel@ ==> #[trigger] waiting(out@, k) == waiting(
                    all.subrange(0, i as int),
                    k,
                ),
            distinct_rows(all) ==> distinct_rows(out@),
    {
        let ghost part = all.subrange(0, i as int + 1);
        let ghost before = out@;
        proof {
            assert(part.drop_last() =~= all.subrange(0, i as int));
            assert(part.last() == e);
        }
        if !e.0.same(rel) {
            proof {
                lemma_waiting(all.subrange(0, i as int), e.0@);
                lemma_waiting(before, e.0@);
                if distinct_rows(all) {
                    assert forall|k: int| 0 <= k < i implies (#[trigger] all.subrange(
                        0,
                        i as int,
                    )[k]).0@ != e.0@ by {
                        assert(all[k].0@ != all[i as int].0@);
                    }
                }
            }
            out.push(e);
            proof {
                assert(out@.drop_last() =~= before);
            }
        }
        proof {
            assert forall|k: RelKey| k != rel@ implies #[trigger] waiting(out@, k) == waiting(
                part,
                k,
            ) by {
                assert(waiting(before, k) == waiting(all.subrange(0, i as int), k));
            }
        }
        i = i + 1;
    }
    proof {
        assert(all.subrange(0, i as int) =~= all);
    }
    out
}

impl<R> OptIns<R> {
    /// Every relation is applied or waits at most once, and none does both.
    pub open spec fn wf(&self) -> bool {
        &&& distinct(self.applied@)
        &&& distinct_rows(self.pending@)
        &&& forall|k: RelKey| #[trigger]
            holds(self.applied@, k) ==> waiting(self.pending@, k) is None
    }

    /// Nothing applied: after a start the first commit diffs from scratch,
    /// and applying an opt-in again changes nothing.
    pub fn new() -> (r: Self)
        ensures
            r.wf(),
            r.applied@.len() == 0,
            r.pending@.len() == 0,
    {
        OptIns { applied: Vec::new(), pending: Vec::new() }
    }

    /// What a republished configuration asks for: the rows of single tables,
    /// then those of the relations that its patterns select. `mapped` are the
    /// relations that it maps.
    pub fn desired_rows(
        &self,
        opt_ins: Vec<Selected<R>>,
        scoped: Vec<Selected<R>>,
        mapped: &Vec<RelName>,
    ) -> (r: Vec<Desired<R>>)
        ensures
            r@ == all_asked(opt_ins@) + all_asked(
                newly_scoped(scoped@, mapped@, self.applied@),
            ),
    {
        let ghost first = opt_ins@;
        let ghost second = scoped@;
        let mut out: Vec<Desired<R>> = Vec::new();
        let ghost mut i: int = 0;
        for s in iter: opt_ins
            invariant
                iter.seq() == first,
                i == iter.index(),
                0 <= i <= first.len(),
                out@ == all_asked(first.subrange(0, i)),
        {
            out.push(ask(s));
            proof {
                assert(all_asked(first.subrange(0, i + 1)) =~= all_asked(
                    first.subrange(0, i),
                ).push(asked(first[i])));
                i = i + 1;
            }
        }
        proof {
            assert(first.subrange(0, i) =~= first);
            assert(second.subrange(0, 0) =~= Seq::empty());
            assert(out@ =~= all_asked(first) + all_asked(
                newly_scoped(second.subrange(0, 0), mapped@, self.applied@),
            ));
        }
        let ghost mut j: int = 0;
        for s in iter: scoped
            invariant
                iter.seq() == second,
                j == iter.index(),
                0 <= j <= second.len(),
                out@ == all_asked(first) + all_asked(
                    newly_scoped(second.subrange(0, j), mapped@, self.applied@),
                ),
        {
            let ghost before = out@;
            let ghost rest = newly_scoped(second.subrange(0, j), mapped@, self.applied@);
            let ghost part = second.subrange(0, j + 1);
            proof {
                assert(part.drop_last() =~= second.subrange(0, j));
                assert(part.last() == s);
            }
            if !(list_holds(mapped, &s.rel) && !list_holds(&self.applied, &s.rel)) {
                out.push(ask(s));
                proof {
                    assert(all_asked(rest.push(s)) =~= all_asked(rest).push(asked(s)));
                    assert(out@ =~= all_asked(first) + all_asked(rest.push(s)));
                }
            }
            proof {
                j = j + 1;
            }
        }
        proof {
            assert(second.subrange(0, j) =~= second);
        }
        out
    }

    /// Diff a republished configuration against the opt-ins. Returns the
    /// relations that were applied and are no longer asked for, each once;
    /// every relation that is asked for and not applied waits with its newest row.
    pub fn reload(&mut self, desired: Vec<Desired<R>>) -> (stale: Vec<RelName>)
        requires
            old(self).wf(),
        ensures
            final(self).wf(),
            distinct(stale@),
            forall|k: RelKey| #[trigger]
                holds(stale@, k) <==> holds(old(self).applied@, k) && wanted(desired@, k) is None,
            forall|k: RelKey| #[trigger]
                holds(final(self).applied@, k) <==> holds(old(self).applied@, k) && wanted(
                    desired@,
                    k,
                ) is Some,
            forall|k: RelKey| #[trigger]
                waiting(final(self).pending@, k) == (if holds(old(self).applied@, k) {
                    None
                } else {
                    wanted(desired@, k)
                }),
    {
        let ghost pre = *self;
        let ghost all = desired@;
        let mut stale: Vec<RelName> = Vec::new();
        let mut kept: Vec<RelName> = Vec::new();
        let mut i: usize = 0;
        while i < self.applied.len()
            invariant
                i <= self.applied@.len(),
                *self == pre,
                pre.wf(),
                all == desired@,
                distinct(stale@),
                distinct(kept@),
                forall|k: RelKey| #[trigger]
                    holds(stale@, k) <==> holds(pre.applied@.subrange(0, i as int), k) && wanted(
                        all,
                        k,
                    ) is None,
                forall|k: RelKey| #[trigger]
                    holds(kept@, k) <==> holds(pre.applied@.subrange(0, i as int), k) && wanted(
                        all,
                        k,
                    ) is Some,
            decreases self.applied@.len() - i,
        {
            let rel: RelName = self.applied[i].copied();
            let ghost key = rel@;
            let ghost s0 = stale@;
            let ghost k0 = kept@;
            let ghost part = pre.applied@.subrange(0, i as int);
            let ghost next = pre.applied@.subrange(0, i as int + 1);
            let is_in: bool = is_wanted(&desired, &rel);
            proof {
                assert(!holds(part, key)) by {
                    assert forall|k: int| 0 <= k < i implies (#[trigger] part[k])@ != key by {
                        assert(pre.applied@[k]@ != pre.applied@[i as int]@);
                    }
                }
                assert(!holds(s0, key) && !holds(k0, key));
            }
            if is_in {
                kept.push(rel);
            } else {
                stale.push(rel);
            }
            proof {
                assert(next =~= part.push(pre.applied@[i as int]));
                assert forall|k: RelKey| #[trigger] holds(next, k) <==> holds(part, k) || k
                    == key by {
                    lemma_holds_push(part, pre.applied@[i as int], k);
                }
                if is_in {
                    assert forall|k: RelKey| #[trigger] holds(kept@, k) <==> holds(k0, k) || k
                        == key by {
                        lemma_holds_push(k0, rel, k);
                    }
                } else {
                    assert forall|k: RelKey| #[trigger] holds(stale@, k) <==> holds(s0, k) || k
                        == key by {
                        lemma_holds_push(s0, rel, k);
                    }
                }
                assert forall|k: RelKey| #[trigger] holds(stale@, k) <==> holds(next, k)
                    && wanted(all, k) is None by {
                    assert(holds(s0, k) <==> holds(part, k) && wanted(all, k) is None);
                    assert(holds(next, k) <==> holds(part, k) || k == key);
                }
                assert forall|k: RelKey| #[trigger] holds(kept@, k) <==> holds(next, k) && wanted(
                    all,
                    k,
                ) is Some by {
                    assert(holds(k0, k) <==> holds(part, k) && wanted(all, k) is Some);
                    assert(holds(next, k) <==> holds(part, k) || k == key);
                }
            }
            i = i + 1;
        }
        proof {
            assert(pre.applied@.subrange(0, i as int) =~= pre.applied@);
        }
        self.applied = kept;
        let mut pending: Vec<(RelName, R)> = Vec::new();
        let n: usize = desired.len();
        let mut j: usize = 0;
        for d in iter: desired
            invariant
                iter.seq() == all,
                j == iter.index(),
                j <= n == all.len(),
                distinct_rows(pending@),
                forall|k: RelKey| #[trigger]
                    waiting(pending@, k) == (if holds(self.applied@, k) {
                        None
                    } else {
                        wanted(all.subrange(0, j as int), k)
                    }),
        {
            let ghost part = all.subrange(0, j as int + 1);
            let ghost p0 = pending@;
            let ghost key = d.rel@;
            proof {
                assert(part.drop_last() =~= all.subrange(0, j as int));
                assert(part.last() == d);
                assert forall|k: RelKey| #[trigger] wanted(part, k) == (if k == key
                    && d.replicate {
                    Some(d.row)
                } else {
                    wanted(all.subrange(0, j as int), k)
                }) by {}
            }
            if d.replicate && !list_holds(&self.applied, &d.rel) {
                pending = without(pending, &d.rel);
                let ghost cleared = pending@;
                proof {
                    lemma_waiting(cleared, key);
                }
                pending.push((d.rel, d.row));
                proof {
                    assert(pending@.drop_last() =~= cleared);
                    assert forall|k: RelKey| #[trigger] waiting(pending@, k) == (if k == key {
                        Some(d.row)
                    } else {
                        waiting(p0, k)
                    }) by {
                        if k != key {
                            assert(waiting(cleared, k) == waiting(p0, k));
                        }
                    }
                }
            }
            proof {
                assert forall|k: RelKey| #[trigger] waiting(pending@, k) == (if holds(
                    self.applied@,
                    k,
                ) {
                    None
                } else {
                    wanted(part, k)
                }) by {
                    assert(waiting(p0, k) == (if holds(self.applied@, k) {
                        None
                    } else {
                        wanted(all.subrange(0, j as int), k)
                    }));
                    assert(wanted(part, k) == (if k == key && d.replicate {
                        Some(d.row)
                    } else {
                        wanted(all.subrange(0, j as int), k)
                    }));
                }
            }
            j = j + 1;
        }
        proof {
            assert(all.subrange(0, j as int) =~= all);
        }
        self.pending = pending;
        stale
    }

    /// Enter what came of trying a waiting opt-in: one that was applied waits
    /// no longer, and one whose relation is not known yet goes on waiting.
    pub fn settle(&mut self, rel: RelName, attempt: Attempt) -> (r: Result<(), String>)
        requires
            old(self).wf(),
        ensures
            final(self).wf(),
            match r {
                Ok(()) => attempt_fault(attempt) is None,
                Err(m) => attempt_fault(attempt) == Some(m@),
            },
            if attempt is Applied {
                &&& forall|k: RelKey| #[trigger]
                    holds(final(self).applied@, k) <==> holds(old(self).applied@, k) || k == rel@
                &&& forall|k: RelKey| #[trigger]
                    waiting(final(self).pending@, k) == (if k == rel@ {
                        None
                    } else {
                        waiting(old(self).pending@, k)
                    })
            } else {
                *final(self) == *old(self)
            },
    {
        match attempt {
            Attempt::Unknown => Ok(()),
            Attempt::LookupFailed(e) => Err(
                String::from_str("opt-in descriptor lookup: ").concat(e.as_str()),
            ),
            Attempt::ApplyFailed(e) => Err(String::from_str("reload opt-in: ").concat(e.as_str())),
            Attempt::Applied => {
                self.mark_applied(rel);
                Ok(())
            },
        }
    }

    /// A waiting opt-in was applied.
    pub fn mark_applied(&mut self, rel: RelName)
        requires
            old(self).wf(),
        ensures
            final(self).wf(),
            forall|k: RelKey| #[trigger]
                holds(final(self).applied@, k) <==> holds(old(self).applied@, k) || k == rel@,
            forall|k: RelKey| #[trigger]
                waiting(final(self).pending@, k) == (if k == rel@ {
                    None
                } else {
                    waiting(old(self).pending@, k)
                }),
    {
        let ghost pre = *self;
        let mut pending: Vec<(RelName, R)> = Vec::new();
        std::mem::swap(&mut pending, &mut self.pending);
        self.pending = without(pending, &rel);
        let ghost key = rel@;
        if !list_holds(&self.applied, &rel) {
            self.applied.push(rel);
            proof {
                assert forall|k: RelKey| #[trigger] holds(self.applied@, k) <==> holds(
                    pre.applied@,
                    k,
                ) || k == key by {
                    lemma_holds_push(pre.applied@, rel, k);
                }
            }
        }
    }
}

/// A relation does not wait exactly where no entry is of it.
proof fn lemma_waiting<R>(list: Seq<(RelName, R)>, k: RelKey)
    ensures
        waiting(list, k) is None <==> forall|i: int|
            0 <= i < list.len() ==> (#[trigger] list[i]).0@ != k,
    decreases list.len(),
{
    if list.len() > 0 {
        let rest = list.drop_last();
        lemma_waiting(rest, k);
        assert forall|i: int| 0 <= i < rest.len() implies (#[trigger] rest[i]).0@
            == list[i].0@ by {}
        if waiting(list, k) is None {
            assert forall|i: int| 0 <= i < list.len() implies (#[trigger] list[i]).0@ != k by {
                if i < rest.len() {
                    assert(rest[i].0@ != k);
                }
            }
        }
    }
}

proof fn lemma_holds_push(list: Seq<RelName>, rel: RelName, k: RelKey)
    ensures
        holds(list.push(rel), k) <==> holds(list, k) || k == rel@,
{
    let next = list.push(rel);
    if holds(list, k) {
        let i = choose|i: int| 0 <= i < list.len() && (#[trigger] list[i])@ == k;
        assert(next[i]@ == k);
    }
    if k == rel@ {
        assert(next[list.len() as int]@ == k);
    }
    if holds(next, k) {
        let i = choose|i: int| 0 <= i < next.len() && (#[trigger] next[i])@ == k;
        if i < list.len() {
            assert(list[i]@ == k);
        }
    }
}

/// After a reload every relation that is asked for is applied or waits, and
/// nothing else is or does.
pub proof fn reload_tracks_the_configuration<R>(
    before: OptIns<R>,
    after: OptIns<R>,
    desired: Seq<Desired<R>>,
    k: RelKey,
)
    requires
        holds(after.applied@, k) <==> holds(before.applied@, k) && wanted(desired, k) is Some,
        waiting(after.pending@, k) == (if holds(before.applied@, k) {
            None
        } else {
            wanted(desired, k)
        }),
    ensures
        wanted(desired, k) is Some <==> holds(after.applied@, k) || waiting(
            after.pending@,
            k,
        ) is Some,
        !(holds(after.applied@, k) && waiting(after.pending@, k) is Some),
{
}

} // verus!

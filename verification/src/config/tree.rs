//! Configuration documents as trees, and how one is laid over another.
use vstd::prelude::*;

use crate::text::str_eq;

verus! {

/// A value of a document: a table, or anything else.
#[derive(Debug)]
pub enum Node<L> {
    Table(Table<L>),
    Leaf(L),
}

/// A table of a document: named values, every name at most once.
#[derive(Debug)]
pub struct Table<L> {
    pub entries: Vec<(String, Node<L>)>,
}

/// What stands at a place of a document.
pub enum Place<L> {
    Table,
    Leaf(L),
}

/// The value of `k`; the last entry counts.
pub open spec fn entry<L>(entries: Seq<(String, Node<L>)>, k: Seq<char>) -> Option<Node<L>>
    decreases entries.len(),
{
    if entries.len() == 0 {
        None
    } else if entries.last().0@ == k {
        Some(entries.last().1)
    } else {
        entry(entries.drop_last(), k)
    }
}

impl<L> Table<L> {
    /// Every name at most once, here and below.
    pub open spec fn wf(&self) -> bool
        decreases self,
    {
        &&& distinct_names(self.entries@)
        &&& forall|i: int|
            0 <= i < self.entries@.len() ==> match (#[trigger] self.entries@[i]).1 {
                Node::Table(t) => t.wf(),
                Node::Leaf(_) => true,
            }
    }

    /// What stands where the names of `path` lead.
    pub open spec fn at(&self, path: Seq<Seq<char>>) -> Option<Place<L>>
        decreases path.len(),
    {
        if path.len() == 0 {
            Some(Place::Table)
        } else {
            match entry(self.entries@, path[0]) {
                None => None,
                Some(Node::Leaf(l)) => if path.len() == 1 {
                    Some(Place::Leaf(l))
                } else {
                    None
                },
                Some(Node::Table(t)) => t.at(path.subrange(1, path.len() as int)),
            }
        }
    }
}

pub open spec fn distinct_names<L>(entries: Seq<(String, Node<L>)>) -> bool {
    forall|i: int, j: int|
        0 <= i < j < entries.len() ==> (#[trigger] entries[i]).0@ != (#[trigger] entries[j]).0@
}

/// Whether the path goes on below a leaf of `over`.
pub open spec fn below_leaf<L>(over: Table<L>, path: Seq<Seq<char>>) -> bool {
    exists|i: int|
        0 < i < path.len() && #[trigger] over.at(path.subrange(0, i)) matches Some(Place::Leaf(_))
}

/// What stands at `path` once `over` lies over `base`: what `over` has there;
/// else what `base` has, unless a leaf of `over` hides it.
pub open spec fn laid_over<L>(base: Table<L>, over: Table<L>, path: Seq<Seq<char>>) -> Option<
    Place<L>,
> {
    match over.at(path) {
        Some(p) => Some(p),
        None => if below_leaf(over, path) {
            None
        } else {
            base.at(path)
        },
    }
}

/// The value that stands for a name after one of `over`'s values met what
/// `base` had under that name.
pub open spec fn met<L>(held: Option<Node<L>>, v: Node<L>, out: Node<L>) -> bool {
    match (held, v) {
        (Some(Node::Table(b)), Node::Table(o)) => match out {
            Node::Table(m) => m.wf() && forall|p: Seq<Seq<char>>| #[trigger]
                m.at(p) == laid_over(b, o, p),
            Node::Leaf(_) => false,
        },
        _ => out == v,
    }
}

proof fn lemma_entry_at<L>(entries: Seq<(String, Node<L>)>, i: int)
    requires
        0 <= i < entries.len(),
        distinct_names(entries),
    ensures
        entry(entries, entries[i].0@) == Some(entries[i].1),
    decreases entries.len(),
{
    if i < entries.len() - 1 {
        assert(entries[i].0@ != entries[entries.len() - 1].0@);
        assert(entries.drop_last()[i] == entries[i]);
        lemma_entry_at(entries.drop_last(), i);
    }
}

proof fn lemma_entry_absent<L>(entries: Seq<(String, Node<L>)>, k: Seq<char>)
    requires
        forall|i: int| 0 <= i < entries.len() ==> (#[trigger] entries[i]).0@ != k,
    ensures
        entry(entries, k) is None,
    decreases entries.len(),
{
    if entries.len() > 0 {
        assert(entries.last().0@ != k) by {
            assert(entries[entries.len() - 1].0@ != k);
        }
        assert forall|i: int| 0 <= i < entries.drop_last().len() implies (
        #[trigger] entries.drop_last()[i]).0@ != k by {
            assert(entries.drop_last()[i] == entries[i]);
        }
        lemma_entry_absent(entries.drop_last(), k);
    }
}

/// Replacing the value of entry `i` changes what its name stands for.
proof fn lemma_entry_update<L>(
    entries: Seq<(String, Node<L>)>,
    i: int,
    e: (String, Node<L>),
    k: Seq<char>,
)
    requires
        0 <= i < entries.len(),
        distinct_names(entries),
        e.0@ == entries[i].0@,
    ensures
        distinct_names(entries.update(i, e)),
        entry(entries.update(i, e), k) == (if k == e.0@ {
            Some(e.1)
        } else {
            entry(entries, k)
        }),
    decreases entries.len(),
{
    let next = entries.update(i, e);
    assert forall|a: int, b: int| 0 <= a < b < next.len() implies (#[trigger] next[a]).0@ != (
    #[trigger] next[b]).0@ by {
        assert(entries[a].0@ != entries[b].0@);
    }
    if i == entries.len() - 1 {
        assert(next.drop_last() =~= entries.drop_last());
        assert(next.last() == e);
    } else {
        assert(next.drop_last() =~= entries.drop_last().update(i, e));
        assert(next.last() == entries.last());
        assert(entries[i].0@ != entries[entries.len() - 1].0@);
        assert(distinct_names(entries.drop_last())) by {
            assert forall|a: int, b: int| 0 <= a < b < entries.drop_last().len() implies (
            #[trigger] entries.drop_last()[a]).0@ != (#[trigger] entries.drop_last()[b]).0@ by {
                assert(entries[a].0@ != entries[b].0@);
            }
        }
        lemma_entry_update(entries.drop_last(), i, e, k);
    }
}

/// A table whose every name met that of `over` is the two laid over each
/// other.
proof fn lemma_met_everywhere<L>(
    base: Table<L>,
    over: Table<L>,
    out: Table<L>,
    path: Seq<Seq<char>>,
)
    requires
        forall|k: Seq<char>|
            match entry(over.entries@, k) {
                None => #[trigger] entry(out.entries@, k) == entry(base.entries@, k),
                Some(v) => entry(out.entries@, k) is Some && met(
                    entry(base.entries@, k),
                    v,
                    entry(out.entries@, k)->0,
                ),
            },
    ensures
        out.at(path) == laid_over(base, over, path),
{
    if path.len() > 0 {
        let k = path[0];
        let tail = path.subrange(1, path.len() as int);
        let first = path.subrange(0, 1);
        assert(first[0] == k);
        let _ = entry(out.entries@, k);
        match entry(over.entries@, k) {
            None => {
                assert forall|i: int| 0 < i < path.len() implies !(#[trigger] over.at(
                    path.subrange(0, i),
                ) matches Some(Place::Leaf(_))) by {
                    assert(path.subrange(0, i)[0] == k);
                }
                assert(out.at(path) == base.at(path));
            },
            Some(Node::Leaf(l)) => {
                assert(over.at(first) == Some(Place::Leaf(l)));
                assert(out.at(path) == over.at(path));
            },
            Some(Node::Table(o)) => {
                assert forall|i: int| 1 < i < path.len() implies over.at(#[trigger] path.subrange(0, i))
                    == o.at(tail.subrange(0, i - 1)) by {
                    let p = path.subrange(0, i);
                    assert(p[0] == k);
                    assert(p.subrange(1, p.len() as int) =~= tail.subrange(0, i - 1));
                }
                assert(over.at(first) == o.at(first.subrange(1, 1)));
                assert(first.subrange(1, 1).len() == 0);
                assert(below_leaf(over, path) == below_leaf(o, tail)) by {
                    if below_leaf(over, path) {
                        let i = choose|i: int|
                            0 < i < path.len() && #[trigger] over.at(path.subrange(0, i)) matches Some(
                                Place::Leaf(_),
                            );
                        assert(i != 1);
                        assert(o.at(tail.subrange(0, i - 1)) matches Some(Place::Leaf(_)));
                    }
                    if below_leaf(o, tail) {
                        let i = choose|i: int|
                            0 < i < tail.len() && #[trigger] o.at(tail.subrange(0, i)) matches Some(
                                Place::Leaf(_),
                            );
                        assert(over.at(path.subrange(0, i + 1)) == o.at(tail.subrange(0, i)));
                    }
                }
                assert(over.at(path) == o.at(tail));
                match entry(base.entries@, k) {
                    Some(Node::Table(b)) => {
                        let m = entry(out.entries@, k)->0->Table_0;
                        assert(m.at(tail) == laid_over(b, o, tail));
                        assert(out.at(path) == m.at(tail));
                        assert(base.at(path) == b.at(tail));
                    },
                    _ => {
                        assert(out.at(path) == o.at(tail));
                        if tail.len() > 0 {
                            assert(base.at(path) is None);
                        }
                    },
                }
            },
        }
    }
}

/// Lay `over` over `base`: a table meets a table name by name, anything else
/// of `over` replaces what `base` had.
pub fn merge_tables<L>(base: &mut Table<L>, over: Table<L>)
    requires
        old(base).wf(),
        over.wf(),
    ensures
        final(base).wf(),
        forall|path: Seq<Seq<char>>| #[trigger]
            final(base).at(path) == laid_over(*old(base), over, path),
    decreases over,
{
    let ghost base0 = *base;
    let ghost over0 = over;
    let ghost all = over.entries@;
    let mut done: usize = 0;
    let n: usize = over.entries.len();
    for e in iter: over.entries
        invariant
            iter.seq() == all,
            all == over0.entries@,
            over0.wf(),
            done == iter.index(),
            done <= n == all.len(),
            base.wf(),
            forall|k: Seq<char>|
                match entry(all.subrange(0, done as int), k) {
                    None => #[trigger] entry(base.entries@, k) == entry(base0.entries@, k),
                    Some(v) => entry(base.entries@, k) is Some && met(
                        entry(base0.entries@, k),
                        v,
                        entry(base.entries@, k)->0,
                    ),
                },
    {
        let ghost part = all.subrange(0, done as int);
        let ghost next = all.subrange(0, done as int + 1);
        let ghost before = base.entries@;
        proof {
            assert(next.drop_last() =~= part);
            assert(next.last() == all[done as int]);
            assert(e == all[done as int]);
            assert forall|i: int| 0 <= i < part.len() implies (#[trigger] part[i]).0@ != e.0@ by {
                assert(part[i] == all[i]);
            }
            lemma_entry_absent(part, e.0@);
        }
        let (name, v) = e;
        let mut at: usize = 0;
        let len: usize = base.entries.len();
        while at < len && !str_eq(base.entries[at].0.as_str(), name.as_str())
            invariant
                at <= len == base.entries@.len(),
                base.entries@ == before,
                forall|i: int| 0 <= i < at ==> (#[trigger] before[i]).0@ != name@,
            decreases len - at,
        {
            at = at + 1;
        }
        if at == len {
            proof {
                lemma_entry_absent(before, name@);
            }
            base.entries.push((name, v));
            proof {
                let after = base.entries@;
                assert(after.drop_last() =~= before);
                assert forall|k: Seq<char>|
                    match entry(next, k) {
                        None => #[trigger] entry(after, k) == entry(base0.entries@, k),
                        Some(w) => entry(after, k) is Some && met(
                            entry(base0.entries@, k),
                            w,
                            entry(after, k)->0,
                        ),
                    } by {
                    let _ = entry(before, k);
                }
            }
        } else {
            proof {
                lemma_entry_at(before, at as int);
            }
            let (key, held) = base.entries.remove(at);
            let ghost held0 = held;
            let merged: Node<L> = match (held, v) {
                (Node::Table(b), Node::Table(o)) => {
                    let mut b: Table<L> = b;
                    merge_tables(&mut b, o);
                    Node::Table(b)
                },
                (_, v) => v,
            };
            base.entries.insert(at, (key, merged));
            proof {
                let after = base.entries@;
                assert(after =~= before.update(at as int, (key, merged)));
                assert forall|k: Seq<char>|
                    match entry(next, k) {
                        None => #[trigger] entry(after, k) == entry(base0.entries@, k),
                        Some(w) => entry(after, k) is Some && met(
                            entry(base0.entries@, k),
                            w,
                            entry(after, k)->0,
                        ),
                    } by {
                    lemma_entry_update(before, at as int, (key, merged), k);
                    let _ = entry(before, k);
                }
                lemma_entry_update(before, at as int, (key, merged), name@);
            }
        }
        done = done + 1;
    }
    proof {
        assert(all.subrange(0, done as int) =~= all);
        assert forall|path: Seq<Seq<char>>| #[trigger]
            base.at(path) == laid_over(base0, over0, path) by {
            lemma_met_everywhere(base0, over0, *base, path);
        }
    }
}

/// The later document wins: whatever it sets is what the two resolve to.
pub proof fn later_value_wins<L>(base: Table<L>, over: Table<L>, path: Seq<Seq<char>>)
    requires
        over.at(path) is Some,
    ensures
        laid_over(base, over, path) == over.at(path),
{
}

/// What the later document does not speak of stays.
pub proof fn earlier_value_survives<L>(base: Table<L>, over: Table<L>, path: Seq<Seq<char>>)
    requires
        over.at(path) is None,
        !below_leaf(over, path),
    ensures
        laid_over(base, over, path) == base.at(path),
{
}

} // verus!

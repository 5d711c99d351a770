//! A configuration directory: which of its files are read, in what order, and
//! what they resolve to together.
use vstd::prelude::*;
use vstd::string::*;

use crate::config::tree::{below_leaf, laid_over, merge_tables, Place, Table};
use crate::text::{chars_of, views};

verus! {

/// The extension of a file's name: what follows its last dot, if a name comes
/// before that dot.
pub open spec fn extension(name: Seq<char>) -> Option<Seq<char>> {
    let at = last_dot(name);
    if at <= 0 {
        None
    } else {
        Some(name.subrange(at + 1, name.len() as int))
    }
}

/// The place of the last dot, or less than zero.
pub open spec fn last_dot(name: Seq<char>) -> int
    decreases name.len(),
{
    if name.len() == 0 {
        -1
    } else if name.last() == '.' {
        name.len() - 1
    } else {
        last_dot(name.drop_last())
    }
}

pub open spec fn is_fragment(name: Seq<char>) -> bool {
    extension(name) == Some("toml"@)
}

/// Whether a directory's file is a configuration fragment.
pub fn names_fragment(name: &str) -> (r: bool)
    ensures
        r == is_fragment(name@),
{
    proof {
        reveal_strlit("toml");
    }
    let v: Vec<char> = chars_of(name);
    let n: usize = v.len();
    if n < 6 {
        proof {
            lemma_last_dot(name@);
            if is_fragment(name@) {
                assert(name@.subrange(last_dot(name@) + 1, n as int).len() == 4);
            }
        }
        return false;
    }
    let r: bool = v[n - 5] == '.' && v[n - 4] == 't' && v[n - 3] == 'o' && v[n - 2] == 'm' && v[n
        - 1] == 'l';
    proof {
        lemma_last_dot(name@);
        if r {
            lemma_dot_at(name@, n - 5);
            assert(name@.subrange(n - 4, n as int) =~= "toml"@);
        } else if is_fragment(name@) {
            let at = last_dot(name@);
            let tail = name@.subrange(at + 1, n as int);
            assert(tail.len() == 4);
            assert(at == n - 5);
            assert(tail[0] == name@[n - 4]);
            assert(tail[1] == name@[n - 3]);
            assert(tail[2] == name@[n - 2]);
            assert(tail[3] == name@[n - 1]);
        }
    }
    r
}

proof fn lemma_last_dot(name: Seq<char>)
    ensures
        -1 <= last_dot(name) < name.len(),
        last_dot(name) >= 0 ==> name[last_dot(name)] == '.',
    decreases name.len(),
{
    if name.len() > 0 && name.last() != '.' {
        lemma_last_dot(name.drop_last());
    }
}

proof fn lemma_dot_at(name: Seq<char>, i: int)
    requires
        0 <= i < name.len(),
        name[i] == '.',
        forall|k: int| i < k < name.len() ==> name[k] != '.',
    ensures
        last_dot(name) == i,
    decreases name.len(),
{
    if i < name.len() - 1 {
        lemma_dot_at(name.drop_last(), i);
    }
}

/// `a` comes before `b` in a dictionary, or is `b`.
pub open spec fn not_after(a: Seq<char>, b: Seq<char>) -> bool
    decreases a.len(),
{
    if a.len() == 0 {
        true
    } else if b.len() == 0 {
        false
    } else if a[0] != b[0] {
        a[0] < b[0]
    } else {
        not_after(a.subrange(1, a.len() as int), b.subrange(1, b.len() as int))
    }
}

fn comes_first(a: &Vec<char>, b: &Vec<char>) -> (r: bool)
    ensures
        r == not_after(a@, b@),
{
    let mut i: usize = 0;
    proof {
        assert(a@.subrange(0, a@.len() as int) =~= a@);
        assert(b@.subrange(0, b@.len() as int) =~= b@);
    }
    while i < a.len()
        invariant
            i <= a@.len(),
            i <= b@.len(),
            not_after(a@, b@) == not_after(
                a@.subrange(i as int, a@.len() as int),
                b@.subrange(i as int, b@.len() as int),
            ),
        decreases a@.len() - i,
    {
        let ghost ta = a@.subrange(i as int, a@.len() as int);
        let ghost tb = b@.subrange(i as int, b@.len() as int);
        proof {
            assert(ta[0] == a@[i as int]);
        }
        if i == b.len() {
            return false;
        }
        proof {
            assert(tb[0] == b@[i as int]);
            assert(ta.subrange(1, ta.len() as int) =~= a@.subrange(i + 1, a@.len() as int));
            assert(tb.subrange(1, tb.len() as int) =~= b@.subrange(i + 1, b@.len() as int));
        }
        if a[i] != b[i] {
            return a[i] < b[i];
        }
        i = i + 1;
    }
    true
}

proof fn lemma_total(a: Seq<char>, b: Seq<char>)
    ensures
        not_after(a, b) || not_after(b, a),
    decreases a.len(),
{
    if a.len() > 0 && b.len() > 0 && a[0] == b[0] {
        lemma_total(a.subrange(1, a.len() as int), b.subrange(1, b.len() as int));
    }
}

proof fn lemma_transitive(a: Seq<char>, b: Seq<char>, c: Seq<char>)
    requires
        not_after(a, b),
        not_after(b, c),
    ensures
        not_after(a, c),
    decreases a.len(),
{
    if a.len() > 0 && b.len() > 0 && c.len() > 0 && a[0] == b[0] && b[0] == c[0] {
        lemma_transitive(
            a.subrange(1, a.len() as int),
            b.subrange(1, b.len() as int),
            c.subrange(1, c.len() as int),
        );
    }
}

/// Every name stands before those that follow it in a dictionary.
pub open spec fn in_order(names: Seq<Seq<char>>) -> bool {
    forall|i: int, j: int|
        0 <= i < j < names.len() ==> not_after(#[trigger] names[i], #[trigger] names[j])
}

/// Put `name` in its place among ordered names.
fn insert_ordered(names: &mut Vec<String>, name: String)
    requires
        in_order(views(old(names)@)),
    ensures
        in_order(views(final(names)@)),
        views(final(names)@).to_multiset() == views(old(names)@).to_multiset().insert(name@),
{
    let v: Vec<char> = chars_of(name.as_str());
    let ghost before = views(names@);
    let mut at: usize = names.len();
    while at > 0 && !comes_first(&chars_of(names[at - 1].as_str()), &v)
        invariant
            at <= names@.len(),
            before == views(names@),
            v@ == name@,
            in_order(before),
            forall|k: int| at <= k < before.len() ==> not_after(name@, #[trigger] before[k]),
        decreases at,
    {
        proof {
            lemma_total(before[at - 1], name@);
        }
        at = at - 1;
    }
    names.insert(at, name);
    proof {
        let after = views(names@);
        assert(after =~= before.insert(at as int, name@));
        vstd::seq_lib::to_multiset_insert(before, at as int, name@);
        assert forall|i: int, j: int| 0 <= i < j < after.len() implies not_after(
            #[trigger] after[i],
            #[trigger] after[j],
        ) by {
            if i < at && j == at {
                if i < at - 1 {
                    assert(not_after(before[i], before[at - 1]));
                    lemma_transitive(before[i], before[at - 1], name@);
                }
            } else if i < at && j < at {
                assert(not_after(before[i], before[j]));
            } else if i < at {
                assert(not_after(before[i], before[j - 1]));
            } else if i == at {
                assert(not_after(name@, before[j - 1]));
            } else {
                assert(not_after(before[i - 1], before[j - 1]));
            }
        }
    }
}

/// The fragments among the names.
pub open spec fn fragments_in(names: Seq<Seq<char>>) -> Seq<Seq<char>>
    decreases names.len(),
{
    if names.len() == 0 {
        Seq::empty()
    } else if is_fragment(names.last()) {
        fragments_in(names.drop_last()).push(names.last())
    } else {
        fragments_in(names.drop_last())
    }
}

/// The fragments among a directory's files, in dictionary order.
pub fn fragment_order(files: Vec<String>) -> (r: Vec<String>)
    ensures
        in_order(views(r@)),
        views(r@).to_multiset() == fragments_in(views(files@)).to_multiset(),
{
    let ghost all = views(files@);
    let mut out: Vec<String> = Vec::new();
    let mut done: usize = 0;
    let n: usize = files.len();
    proof {
        assert(all.subrange(0, 0) =~= Seq::empty());
        assert(views(out@) =~= Seq::empty());
    }
    let ghost names = files@;
    for f in iter: files
        invariant
            iter.seq() == names,
            all == views(names),
            done == iter.index(),
            done <= n == names.len(),
            in_order(views(out@)),
            views(out@).to_multiset() == fragments_in(all.subrange(0, done as int)).to_multiset(),
    {
        proof {
            let part = all.subrange(0, done as int + 1);
            assert(part.drop_last() =~= all.subrange(0, done as int));
            assert(part.last() == f@);
            vstd::seq_lib::to_multiset_build(fragments_in(part.drop_last()), f@);
        }
        if names_fragment(f.as_str()) {
            insert_ordered(&mut out, f);
        }
        done = done + 1;
    }
    proof {
        assert(all.subrange(0, done as int) =~= all);
    }
    out
}

/// What stands at `path` once the fragments lie over `base`, later ones over
/// earlier ones.
pub open spec fn resolved<L>(base: Table<L>, frags: Seq<Table<L>>, path: Seq<Seq<char>>) -> Option<
    Place<L>,
>
    decreases frags.len(),
{
    if frags.len() == 0 {
        base.at(path)
    } else {
        let over = frags.last();
        match over.at(path) {
            Some(p) => Some(p),
            None => if below_leaf(over, path) {
                None
            } else {
                resolved(base, frags.drop_last(), path)
            },
        }
    }
}

/// Lay the fragments over `base`, in order.
pub fn load_merged<L>(base: &mut Table<L>, frags: Vec<Table<L>>)
    requires
        old(base).wf(),
        forall|i: int| 0 <= i < frags@.len() ==> (#[trigger] frags@[i]).wf(),
    ensures
        final(base).wf(),
        forall|path: Seq<Seq<char>>| #[trigger]
            final(base).at(path) == resolved(*old(base), frags@, path),
{
    let ghost base0 = *base;
    let ghost all = frags@;
    let mut done: usize = 0;
    let n: usize = frags.len();
    for f in iter: frags
        invariant
            iter.seq() == all,
            done == iter.index(),
            done <= n == all.len(),
            base.wf(),
            forall|i: int| 0 <= i < all.len() ==> (#[trigger] all[i]).wf(),
            forall|path: Seq<Seq<char>>| #[trigger]
                base.at(path) == resolved(base0, all.subrange(0, done as int), path),
    {
        let ghost before = *base;
        let ghost part = all.subrange(0, done as int + 1);
        proof {
            assert(part.drop_last() =~= all.subrange(0, done as int));
            assert(part.last() == all[done as int]);
            assert(f == all[done as int]);
        }
        merge_tables(base, f);
        proof {
            assert forall|path: Seq<Seq<char>>| #[trigger]
                base.at(path) == resolved(base0, part, path) by {
                assert(base.at(path) == laid_over(before, part.last(), path));
                assert(before.at(path) == resolved(base0, part.drop_last(), path));
            }
        }
        done = done + 1;
    }
    proof {
        assert(all.subrange(0, done as int) =~= all);
    }
}

/// The last fragment that sets a value decides it, whatever came before.
pub proof fn last_fragment_decides<L>(
    base: Table<L>,
    earlier: Seq<Table<L>>,
    last: Table<L>,
    path: Seq<Seq<char>>,
)
    requires
        last.at(path) is Some,
    ensures
        resolved(base, earlier.push(last), path) == last.at(path),
{
}

/// A value that no fragment speaks of is the base's.
pub proof fn unmentioned_values_stay<L>(
    base: Table<L>,
    frags: Seq<Table<L>>,
    path: Seq<Seq<char>>,
)
    requires
        forall|i: int|
            0 <= i < frags.len() ==> (#[trigger] frags[i]).at(path) is None
                && !below_leaf(frags[i], path),
    ensures
        resolved(base, frags, path) == base.at(path),
    decreases frags.len(),
{
    if frags.len() > 0 {
        assert(frags.last() == frags[frags.len() - 1]);
        assert forall|i: int| 0 <= i < frags.drop_last().len() implies (
        #[trigger] frags.drop_last()[i]).at(path) is None && !below_leaf(
            frags.drop_last()[i],
            path,
        ) by {
            assert(frags.drop_last()[i] == frags[i]);
        }
        unmentioned_values_stay(base, frags.drop_last(), path);
    }
}

} // verus!

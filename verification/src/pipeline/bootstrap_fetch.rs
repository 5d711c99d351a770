//! Out-of-line values of one replay round: each distinct value is fetched
//! once, however many rows refer to it.
use std::collections::BTreeMap;
use vstd::prelude::*;

verus! {

broadcast use vstd::std_specs::btree::group_btree_axioms;

/// A reference to a value: its store, its id there, the position as of which
/// it is read, and its stored size.
#[derive(Debug, Clone, Copy, PartialEq, Eq, Structural)]
pub struct SiteRef {
    pub relid: u32,
    pub value_id: u32,
    /// Part of the key: a resumed load reads relations as of their own
    /// positions.
    pub bound: u64,
    pub extsize: usize,
}

/// One number per `(relid, value_id, bound)`.
pub open spec fn value_key(relid: u32, value_id: u32, bound: u64) -> u128 {
    (relid as int * 0x1_0000_0000_0000_0000_0000_0000 + value_id as int * 0x1_0000_0000_0000_0000
        + bound as int) as u128
}

pub open spec fn key_of(s: SiteRef) -> u128 {
    value_key(s.relid, s.value_id, s.bound)
}

/// Keys are one to one.
pub proof fn value_key_is_injective(a: SiteRef, b: SiteRef)
    requires
        key_of(a) == key_of(b),
    ensures
        a.relid == b.relid,
        a.value_id == b.value_id,
        a.bound == b.bound,
{
}

/// The number of a value as of a position.
pub fn make_key(relid: u32, value_id: u32, bound: u64) -> (k: u128)
    ensures
        k == value_key(relid, value_id, bound),
{
    relid as u128 * 0x1_0000_0000_0000_0000_0000_0000 + value_id as u128 * 0x1_0000_0000_0000_0000
        + bound as u128
}

/// One round trip: values of one store as of one position.
#[derive(Debug)]
pub struct FetchGroup {
    pub relid: u32,
    pub bound: u64,
    /// `(value_id, extsize)`.
    pub values: Vec<(u32, usize)>,
}

/// What a replay round fetches.
pub struct FetchPlan {
    /// How many references each value has.
    pub uses: BTreeMap<u128, u32>,
    pub groups: Vec<FetchGroup>,
}

/// How many of the references are to `key`.
pub open spec fn refs_to(sites: Seq<SiteRef>, key: u128) -> nat
    decreases sites.len(),
{
    if sites.len() == 0 {
        0
    } else {
        refs_to(sites.drop_last(), key) + if key_of(sites.last()) == key {
            1nat
        } else {
            0
        }
    }
}

/// The stored size that the first reference to `key` states.
pub open spec fn first_size(sites: Seq<SiteRef>, key: u128) -> usize
    decreases sites.len(),
{
    if sites.len() == 0 {
        0
    } else if refs_to(sites.drop_last(), key) == 0 && key_of(sites.last()) == key {
        sites.last().extsize
    } else {
        first_size(sites.drop_last(), key)
    }
}

pub open spec fn in_group(g: FetchGroup, value: SiteRef) -> bool {
    &&& g.relid == value.relid
    &&& g.bound == value.bound
    &&& exists|i: int|
        0 <= i < g.values@.len() && #[trigger] g.values@[i] == (value.value_id, value.extsize)
}

/// The value is fetched in some round trip.
pub open spec fn in_groups(gs: Seq<FetchGroup>, value: SiteRef) -> bool {
    exists|g: int| 0 <= g < gs.len() && in_group(#[trigger] gs[g], value)
}

/// No round trip for nothing, no value twice in one, no two of them to one
/// store as of one position.
pub open spec fn fetched_once(gs: Seq<FetchGroup>) -> bool {
    &&& forall|g: int| 0 <= g < gs.len() ==> (#[trigger] gs[g]).values@.len() > 0
    &&& forall|g: int, i: int, j: int|
        0 <= g < gs.len() && 0 <= i < j < gs[g].values@.len() ==> (#[trigger] gs[g].values@[i]).0
            != (#[trigger] gs[g].values@[j]).0
    &&& forall|g: int, h: int|
        0 <= g < h < gs.len() ==> (#[trigger] gs[g]).relid != (#[trigger] gs[h]).relid
            || gs[g].bound != gs[h].bound
}

fn find_group(gs: &Vec<FetchGroup>, relid: u32, bound: u64) -> (i: usize)
    ensures
        i <= gs@.len(),
        i < gs@.len() ==> gs@[i as int].relid == relid && gs@[i as int].bound == bound,
        i == gs@.len() ==> forall|g: int|
            0 <= g < gs@.len() ==> (#[trigger] gs@[g]).relid != relid || gs@[g].bound != bound,
{
    let mut i: usize = 0;
    while i < gs.len()
        invariant
            i <= gs@.len(),
            forall|g: int| 0 <= g < i ==> (#[trigger] gs@[g]).relid != relid || gs@[g].bound
                != bound,
        decreases gs@.len() - i,
    {
        if gs[i].relid == relid && gs[i].bound == bound {
            return i;
        }
        i = i + 1;
    }
    i
}

/// No group has the value, whatever its size.
pub open spec fn unknown_value(gs: Seq<FetchGroup>, s: SiteRef) -> bool {
    forall|g: int, i: int|
        0 <= g < gs.len() && gs[g].relid == s.relid && gs[g].bound == s.bound && 0 <= i
            < gs[g].values@.len() ==> (#[trigger] gs[g].values@[i]).0 != s.value_id
}

/// Enter a value that no group has into the group of its store and position.
fn enter(gs: &mut Vec<FetchGroup>, s: SiteRef)
    requires
        fetched_once(old(gs)@),
        unknown_value(old(gs)@, s),
    ensures
        fetched_once(final(gs)@),
        forall|v: SiteRef| #[trigger]
            in_groups(final(gs)@, v) <==> in_groups(old(gs)@, v) || v == s,
{
    let ghost before = gs@;
    let i: usize = find_group(gs, s.relid, s.bound);
    if i == gs.len() {
        let mut values: Vec<(u32, usize)> = Vec::new();
        values.push((s.value_id, s.extsize));
        gs.push(FetchGroup { relid: s.relid, bound: s.bound, values });
        proof {
            let last = gs@[i as int];
            assert(last.values@[0] == (s.value_id, s.extsize));
            assert(in_group(last, s));
            assert forall|v: SiteRef| #[trigger] in_groups(gs@, v) <==> in_groups(before, v) || v
                == s by {
                if in_groups(before, v) {
                    let g = choose|g: int| 0 <= g < before.len() && in_group(#[trigger] before[g], v);
                    assert(gs@[g] == before[g]);
                }
                if in_groups(gs@, v) {
                    let g = choose|g: int| 0 <= g < gs@.len() && in_group(#[trigger] gs@[g], v);
                    if g < before.len() {
                        assert(in_group(before[g], v));
                    }
                }
            }
            assert forall|g: int, a: int, b: int|
                0 <= g < gs@.len() && 0 <= a < b < gs@[g].values@.len() implies (
            #[trigger] gs@[g].values@[a]).0 != (#[trigger] gs@[g].values@[b]).0 by {
                if g < before.len() {
                    assert(before[g].values@[a].0 != before[g].values@[b].0);
                }
            }
        }
    } else {
        let ghost g0 = before[i as int];
        gs[i].values.push((s.value_id, s.extsize));
        proof {
            let g1 = gs@[i as int];
            let n = g0.values@.len() as int;
            assert(g1.values@[n] == (s.value_id, s.extsize));
            assert(in_group(g1, s));
            assert forall|v: SiteRef| #[trigger] in_groups(gs@, v) <==> in_groups(before, v) || v
                == s by {
                if in_groups(before, v) {
                    let g = choose|g: int| 0 <= g < before.len() && in_group(#[trigger] before[g], v);
                    if g == i {
                        let k = choose|k: int|
                            0 <= k < n && #[trigger] g0.values@[k] == (v.value_id, v.extsize);
                        assert(g1.values@[k] == (v.value_id, v.extsize));
                    }
                    assert(in_group(gs@[g], v));
                }
                if in_groups(gs@, v) {
                    let g = choose|g: int| 0 <= g < gs@.len() && in_group(#[trigger] gs@[g], v);
                    if g == i {
                        let k = choose|k: int|
                            0 <= k < g1.values@.len() && #[trigger] g1.values@[k] == (
                                v.value_id,
                                v.extsize,
                            );
                        if k < n {
                            assert(g0.values@[k] == (v.value_id, v.extsize));
                            assert(in_group(before[g], v));
                        }
                    } else {
                        assert(in_group(before[g], v));
                    }
                }
            }
            assert forall|g: int, a: int, b: int|
                0 <= g < gs@.len() && 0 <= a < b < gs@[g].values@.len() implies (
            #[trigger] gs@[g].values@[a]).0 != (#[trigger] gs@[g].values@[b]).0 by {
                if g == i {
                    assert(g0.values@[a].0 == g1.values@[a].0);
                    if b < n {
                        assert(before[g].values@[a].0 != before[g].values@[b].0);
                    }
                } else {
                    assert(before[g].values@[a].0 != before[g].values@[b].0);
                }
            }
            assert forall|g: int, h: int| 0 <= g < h < gs@.len() implies (
            #[trigger] gs@[g]).relid != (#[trigger] gs@[h]).relid || gs@[g].bound
                != gs@[h].bound by {
                assert(before[g].relid != before[h].relid || before[g].bound != before[h].bound);
            }
        }
    }
}

/// The value is among the references, and has the size that the first of them
/// states.
pub open spec fn referred(sites: Seq<SiteRef>, v: SiteRef) -> bool {
    refs_to(sites, key_of(v)) > 0 && v.extsize == first_size(sites, key_of(v))
}

/// The distinct values that the references need, by store and position, with
/// how many references each has.
pub fn plan_fetches(sites: &Vec<SiteRef>) -> (r: FetchPlan)
    requires
        sites@.len() <= u32::MAX,
    ensures
        forall|k: u128| #[trigger]
            r.uses@.contains_key(k) <==> refs_to(sites@, k) > 0,
        forall|k: u128|
            #![trigger r.uses@[k]]
            r.uses@.contains_key(k) ==> r.uses@[k] == refs_to(sites@, k),
        fetched_once(r.groups@),
        forall|v: SiteRef| #[trigger] in_groups(r.groups@, v) <==> referred(sites@, v),
{
    let mut uses: BTreeMap<u128, u32> = BTreeMap::new();
    let mut groups: Vec<FetchGroup> = Vec::new();
    let mut i: usize = 0;
    proof {
        assert(sites@.subrange(0, 0) =~= Seq::empty());
    }
    while i < sites.len()
        invariant
            i <= sites@.len() <= u32::MAX,
            forall|k: u128| #[trigger] refs_to(sites@.subrange(0, i as int), k) <= i,
            forall|k: u128| #[trigger]
                uses@.contains_key(k) <==> refs_to(sites@.subrange(0, i as int), k) > 0,
            forall|k: u128|
                #![trigger uses@[k]]
                uses@.contains_key(k) ==> uses@[k] == refs_to(sites@.subrange(0, i as int), k),
            fetched_once(groups@),
            forall|v: SiteRef| #[trigger]
                in_groups(groups@, v) <==> referred(sites@.subrange(0, i as int), v),
        decreases sites@.len() - i,
    {
        let s: SiteRef = sites[i];
        let key: u128 = make_key(s.relid, s.value_id, s.bound);
        let ghost part = sites@.subrange(0, i as int);
        let ghost next = sites@.subrange(0, i as int + 1);
        proof {
            assert(next.drop_last() =~= part);
            assert(next.last() == s);
            assert forall|k: u128| #[trigger] refs_to(next, k) == refs_to(part, k) + (if k == key {
                1nat
            } else {
                0
            }) by {}
            assert(refs_to(part, key) <= i);
        }
        let seen: u32 = match uses.get(&key) {
            Some(n) => *n,
            None => 0,
        };
        let ghost before = groups@;
        if seen == 0 {
            proof {
                if uses@.contains_key(key) {
                    assert(uses@[key] == refs_to(part, key));
                }
                assert(refs_to(part, key) == 0);
                assert forall|g: int, k: int|
                    0 <= g < before.len() && before[g].relid == s.relid && before[g].bound
                        == s.bound && 0 <= k < before[g].values@.len() implies (
                #[trigger] before[g].values@[k]).0 != s.value_id by {
                    let (id, size) = before[g].values@[k];
                    let v = SiteRef { value_id: id, extsize: size, ..s };
                    assert(before[g].values@[k] == (v.value_id, v.extsize));
                    assert(in_group(before[g], v));
                    assert(in_groups(before, v));
                }
            }
            enter(&mut groups, s);
        }
        proof {
            assert forall|v: SiteRef| #[trigger] in_groups(groups@, v) <==> referred(
                next,
                v,
            ) by {
                lemma_same_key(s, v.relid, v.value_id, v.bound);
                assert(in_groups(before, v) <==> referred(part, v));
            }
        }
        uses.insert(key, seen + 1);
        proof {
            assert forall|k: u128| #[trigger] refs_to(next, k) <= i + 1 by {
                assert(refs_to(part, k) <= i);
            }
        }
        i = i + 1;
    }
    proof {
        assert(sites@.subrange(0, i as int) =~= sites@);
    }
    FetchPlan { uses, groups }
}

proof fn lemma_same_key(s: SiteRef, relid: u32, value_id: u32, bound: u64)
    ensures
        value_key(relid, value_id, bound) == key_of(s) <==> relid == s.relid && value_id
            == s.value_id && bound == s.bound,
{
    if value_key(relid, value_id, bound) == key_of(s) {
        value_key_is_injective(SiteRef { relid, value_id, bound, extsize: 0 }, s);
    }
}

/// A fetched value.
#[derive(Debug)]
pub enum FetchedValue {
    Assembled(Vec<u8>),
    /// The chunks add up to another size.
    Mismatch { got: u64 },
    Missing,
}

pub enum FetchedView {
    Assembled(Seq<u8>),
    Mismatch(u64),
    Missing,
}

impl View for FetchedValue {
    type V = FetchedView;

    open spec fn view(&self) -> FetchedView {
        match self {
            FetchedValue::Assembled(b) => FetchedView::Assembled(b@),
            FetchedValue::Mismatch { got } => FetchedView::Mismatch(*got),
            FetchedValue::Missing => FetchedView::Missing,
        }
    }
}

impl FetchedValue {
    fn copied(&self) -> (r: FetchedValue)
        ensures
            r@ == self@,
    {
        match self {
            FetchedValue::Assembled(b) => {
                let mut v: Vec<u8> = Vec::new();
                crate::wire::append_all(&mut v, b.as_slice());
                proof {
                    assert(v@ =~= b@);
                }
                FetchedValue::Assembled(v)
            },
            FetchedValue::Mismatch { got } => FetchedValue::Mismatch { got: *got },
            FetchedValue::Missing => FetchedValue::Missing,
        }
    }
}

/// A round's values, with how many references each still owes.
pub struct FetchedValues {
    /// `None` without a store: every reference is filled.
    pub values: Option<BTreeMap<u128, FetchedValue>>,
    pub uses: BTreeMap<u128, u32>,
}

/// The values once the first `n` of a round trip have come, in the order they
/// were asked for.
pub open spec fn with_values(
    vs: Map<u128, FetchedValue>,
    g: FetchGroup,
    got: Seq<FetchedValue>,
    n: int,
) -> Map<u128, FetchedValue>
    decreases n,
{
    if n <= 0 {
        vs
    } else {
        with_values(vs, g, got, n - 1).insert(
            value_key(g.relid, g.values@[n - 1].0, g.bound),
            got[n - 1],
        )
    }
}

/// How many of the values that were asked for have come.
pub open spec fn answered(g: FetchGroup, got: Seq<FetchedValue>) -> int {
    if got.len() < g.values@.len() {
        got.len() as int
    } else {
        g.values@.len() as int
    }
}

impl FetchedValues {
    /// A round before its first round trip.
    pub fn new(uses: BTreeMap<u128, u32>) -> (r: Self)
        ensures
            r.uses == uses,
            r.values is Some,
            r.values->0@ == Map::<u128, FetchedValue>::empty(),
    {
        FetchedValues { values: Some(BTreeMap::new()), uses }
    }

    /// There is no store to ask.
    pub fn without_store(uses: BTreeMap<u128, u32>) -> (r: Self)
        ensures
            r.uses == uses,
            r.values is None,
    {
        FetchedValues { values: None, uses }
    }

    /// The answer of a round trip.
    pub fn arrived(&mut self, group: &FetchGroup, got: Vec<FetchedValue>)
        requires
            old(self).values is Some,
        ensures
            final(self).uses == old(self).uses,
            final(self).values is Some,
            final(self).values->0@ == with_values(
                old(self).values->0@,
                *group,
                got@,
                answered(*group, got@),
            ),
    {
        let mut vs: BTreeMap<u128, FetchedValue> = match self.values.take() {
            Some(vs) => vs,
            None => BTreeMap::new(),
        };
        let ghost before = vs@;
        let ghost all = got@;
        let mut i: usize = 0;
        for v in iter: got
            invariant
                iter.seq() == all,
                i == if iter.index() < group.values@.len() {
                    iter.index() as int
                } else {
                    group.values@.len() as int
                },
                vs@ == with_values(before, *group, all, i as int),
        {
            if i < group.values.len() {
                vs.insert(make_key(group.relid, group.values[i].0, group.bound), v);
                i = i + 1;
            }
        }
        self.values = Some(vs);
    }

    /// The value of one reference: the last one takes its bytes, earlier ones
    /// copy them.
    pub fn take(&mut self, relid: u32, value_id: u32, bound: u64) -> (r: Option<FetchedValue>)
        requires
            old(self).uses@.contains_key(value_key(relid, value_id, bound)) ==> old(
                self,
            ).uses@[value_key(relid, value_id, bound)] > 0,
        ensures
            ({
                let key = value_key(relid, value_id, bound);
                if !old(self).uses@.contains_key(key) {
                    r is None && *final(self) == *old(self)
                } else {
                    let left = (old(self).uses@[key] - 1) as u32;
                    &&& final(self).uses@ == old(self).uses@.insert(key, left)
                    &&& match old(self).values {
                        None => r is None && final(self).values is None,
                        Some(vs) => {
                            &&& final(self).values is Some
                            &&& match r {
                                None => !vs@.contains_key(key) && final(self).values->0@ == vs@,
                                Some(v) => {
                                    &&& vs@.contains_key(key)
                                    &&& v@ == vs@[key]@
                                    &&& final(self).values->0@ == (if left == 0 {
                                        vs@.remove(key)
                                    } else {
                                        vs@
                                    })
                                },
                            }
                        },
                    }
                }
            }),
    {
        let key: u128 = make_key(relid, value_id, bound);
        let left: u32 = match self.uses.get(&key) {
            None => {
                return None;
            },
            Some(n) => *n - 1,
        };
        self.uses.insert(key, left);
        match &mut self.values {
            None => None,
            Some(vs) => {
                if left == 0 {
                    let ghost before = vs@;
                    let r: Option<FetchedValue> = vs.remove(&key);
                    proof {
                        if r is None {
                            assert(vs@ =~= before);
                        }
                    }
                    r
                } else {
                    match vs.get(&key) {
                        Some(v) => Some(v.copied()),
                        None => None,
                    }
                }
            },
        }
    }
}

/// Every value of a round trip is found under its own number, since none is
/// asked for twice.
pub proof fn answers_are_kept(
    vs: Map<u128, FetchedValue>,
    g: FetchGroup,
    got: Seq<FetchedValue>,
    n: int,
    k: int,
)
    requires
        0 <= k < n <= answered(g, got),
        forall|i: int, j: int|
            0 <= i < j < g.values@.len() ==> (#[trigger] g.values@[i]).0 != (
            #[trigger] g.values@[j]).0,
    ensures
        with_values(vs, g, got, n).contains_key(value_key(g.relid, g.values@[k].0, g.bound)),
        with_values(vs, g, got, n)[value_key(g.relid, g.values@[k].0, g.bound)] == got[k],
    decreases n,
{
    if k < n - 1 {
        answers_are_kept(vs, g, got, n - 1, k);
        assert(g.values@[k].0 != g.values@[n - 1].0);
    }
}

} // verus!

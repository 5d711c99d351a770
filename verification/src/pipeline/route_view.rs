//! Routes of one transaction: a frozen version, and the transaction's own
//! schema changes on top.
use vstd::prelude::*;

use crate::ddl::predict::{effect_view, effect_views, Effect, EffectView};
use crate::mapping::{MappingView, RouteMap, TableMapping};
use crate::schema::{RelKey, RelName};

verus! {

/// The planner's window onto routes. Implementations answer from frozen
/// versions and fold a transaction's own changes into their local view only;
/// changes of shared state belong to the execution of the plan.
pub trait PlanRouteView {
    /// The relation's route, by its number; `None` is the deterministic
    /// discard of an unmapped relation.
    spec fn route(&self, rel: RelKey) -> Option<MappingView>;

    /// The route behind a number.
    spec fn numbered(&self, id: u64) -> Option<MappingView>;

    spec fn valid(&self) -> bool;

    fn route_for(&mut self, rel: &RelName) -> (r: Option<u64>)
        requires
            old(self).valid(),
        ensures
            final(self).valid(),
            forall|k: RelKey| #[trigger] final(self).route(k) == old(self).route(k),
            forall|id: u64|
                old(self).numbered(id) is Some ==> #[trigger] final(self).numbered(id) == old(
                    self,
                ).numbered(id),
            match r {
                Some(id) => old(self).route(rel@) is Some && final(self).numbered(id) == old(
                    self,
                ).route(rel@),
                None => old(self).route(rel@) is None,
            },
    ;

    /// Fold the effects of a schema change into the local view.
    fn apply(&mut self, effects: Vec<Effect>)
        requires
            old(self).valid(),
        ensures
            final(self).valid(),
            forall|k: RelKey| #[trigger]
                final(self).route(k) == folded(old(self).route(k), effect_views(effects@), k),
            forall|id: u64|
                old(self).numbered(id) is Some ==> #[trigger] final(self).numbered(id) == old(
                    self,
                ).numbered(id),
    ;
}

/// A relation's route after the effects; the last one of the relation counts.
pub open spec fn folded(
    before: Option<MappingView>,
    effects: Seq<EffectView>,
    rel: RelKey,
) -> Option<MappingView>
    decreases effects.len(),
{
    if effects.len() == 0 {
        before
    } else if effects.last().0 == rel {
        effects.last().1
    } else {
        folded(before, effects.drop_last(), rel)
    }
}

/// An effect is on the relation.
pub open spec fn touched(effects: Seq<EffectView>, rel: RelKey) -> bool
    decreases effects.len(),
{
    effects.len() > 0 && (effects.last().0 == rel || touched(effects.drop_last(), rel))
}

/// The last entry of `rel` in an overlay: a new route, or none.
pub open spec fn overlay_in(list: Seq<Effect>, rel: RelKey) -> Option<Option<MappingView>>
    decreases list.len(),
{
    if list.len() == 0 {
        None
    } else if list.last().0@ == rel {
        Some(effect_view(list.last()).1)
    } else {
        overlay_in(list.drop_last(), rel)
    }
}

/// The last entry of `rel` in a memo.
pub open spec fn memo_in(list: Seq<(RelName, Option<u64>)>, rel: RelKey) -> Option<Option<u64>>
    decreases list.len(),
{
    if list.len() == 0 {
        None
    } else if list.last().0@ == rel {
        Some(list.last().1)
    } else {
        memo_in(list.drop_last(), rel)
    }
}

/// A counter's next value; counters wrap.
pub open spec fn one_more(n: u64) -> u64 {
    if n == u64::MAX {
        0
    } else {
        (n + 1) as u64
    }
}

/// Frozen route state plus a transaction's catalog changes.
pub struct ReorderRouteView<'a> {
    mapping: Option<&'a RouteMap>,
    /// Changes above `mapping`; a `None` route is dropped locally.
    overlay: Vec<Effect>,
    /// Answers so far; an entry goes when its relation changes.
    memo: Vec<(RelName, Option<u64>)>,
    /// The routes that have a number.
    frozen: Vec<TableMapping>,
    mapped: u64,
    unmapped: u64,
}

impl<'a> ReorderRouteView<'a> {
    closed spec fn current(&self, rel: RelKey) -> Option<MappingView> {
        match overlay_in(self.overlay@, rel) {
            Some(o) => o,
            None => match self.mapping {
                Some(m) => m.route(rel),
                None => None,
            },
        }
    }

    /// What the relation was answered since it last changed, if it was asked
    /// for.
    pub closed spec fn answer(&self, rel: RelKey) -> Option<Option<u64>> {
        memo_in(self.memo@, rel)
    }

    /// How many routes have a number.
    pub closed spec fn given(&self) -> nat {
        self.frozen@.len()
    }

    /// How many relations were resolved to a route, and how many to none.
    pub closed spec fn counts(&self) -> (u64, u64) {
        (self.mapped, self.unmapped)
    }

    pub fn new(mapping: Option<&'a RouteMap>) -> (r: Self)
        ensures
            r.valid(),
            r.counts() == (0u64, 0u64),
            r.given() == 0,
            forall|k: RelKey| #[trigger] r.answer(k) is None,
            forall|id: u64| #[trigger] r.numbered(id) is None,
            forall|k: RelKey| #[trigger]
                r.route(k) == (match mapping {
                    Some(m) => m.route(k),
                    None => None,
                }),
    {
        ReorderRouteView {
            mapping,
            overlay: Vec::new(),
            memo: Vec::new(),
            frozen: Vec::new(),
            mapped: 0,
            unmapped: 0,
        }
    }

    /// The route behind a number.
    pub fn snapshot(&self, id: u64) -> (r: Option<&TableMapping>)
        ensures
            match r {
                Some(m) => self.numbered(id) == Some(m@),
                None => self.numbered(id) is None,
            },
    {
        if id < self.frozen.len() as u64 {
            Some(&self.frozen[id as usize])
        } else {
            None
        }
    }

    pub fn mapped_count(&self) -> (n: u64)
        ensures
            n == self.counts().0,
    {
        self.mapped
    }

    pub fn unmapped_count(&self) -> (n: u64)
        ensures
            n == self.counts().1,
    {
        self.unmapped
    }

    fn find_memo(&self, rel: &RelName) -> (r: Option<Option<u64>>)
        ensures
            r == memo_in(self.memo@, rel@),
    {
        let mut i: usize = self.memo.len();
        proof {
            assert(self.memo@.subrange(0, i as int) =~= self.memo@);
        }
        while i > 0
            invariant
                i <= self.memo@.len(),
                memo_in(self.memo@, rel@) == memo_in(self.memo@.subrange(0, i as int), rel@),
            decreases i,
        {
            proof {
                let part = self.memo@.subrange(0, i as int);
                assert(part.drop_last() =~= self.memo@.subrange(0, i - 1));
                assert(part.last() == self.memo@[i - 1]);
            }
            if self.memo[i - 1].0.same(rel) {
                return Some(self.memo[i - 1].1);
            }
            i = i - 1;
        }
        None
    }

    fn lookup(&self, rel: &RelName) -> (r: Option<TableMapping>)
        ensures
            match r {
                Some(m) => self.current(rel@) == Some(m@),
                None => self.current(rel@) is None,
            },
    {
        let mut i: usize = self.overlay.len();
        proof {
            assert(self.overlay@.subrange(0, i as int) =~= self.overlay@);
        }
        while i > 0
            invariant
                i <= self.overlay@.len(),
                overlay_in(self.overlay@, rel@) == overlay_in(
                    self.overlay@.subrange(0, i as int),
                    rel@,
                ),
            decreases i,
        {
            proof {
                let part = self.overlay@.subrange(0, i as int);
                assert(part.drop_last() =~= self.overlay@.subrange(0, i - 1));
                assert(part.last() == self.overlay@[i - 1]);
            }
            if self.overlay[i - 1].0.same(rel) {
                return match &self.overlay[i - 1].1 {
                    Some(m) => Some(m.copied()),
                    None => None,
                };
            }
            i = i - 1;
        }
        match self.mapping {
            Some(m) => match m.get(rel) {
                Some(t) => Some(t.copied()),
                None => None,
            },
            None => None,
        }
    }

    fn forget_memo(&mut self, rel: &RelName)
        ensures
            *final(self) == (ReorderRouteView { memo: final(self).memo, ..*old(self) }),
            memo_in(final(self).memo@, rel@) is None,
            forall|k: RelKey|
                k != rel@ ==> #[trigger] memo_in(final(self).memo@, k) == memo_in(
                    old(self).memo@,
                    k,
                ),
    {
        let mut kept: Vec<(RelName, Option<u64>)> = Vec::new();
        let n: usize = self.memo.len();
        let mut i: usize = 0;
        while i < n
            invariant
                i <= n == self.memo@.len(),
                *self == *old(self),
                memo_in(kept@, rel@) is None,
                forall|k: RelKey|
                    k != rel@ ==> #[trigger] memo_in(kept@, k) == memo_in(
                        self.memo@.subrange(0, i as int),
                        k,
                    ),
            decreases n - i,
        {
            let ghost part = self.memo@.subrange(0, i as int + 1);
            let ghost before = kept@;
            proof {
                assert(part.drop_last() =~= self.memo@.subrange(0, i as int));
                assert(part.last() == self.memo@[i as int]);
            }
            if !self.memo[i].0.same(rel) {
                kept.push((self.memo[i].0.copied(), self.memo[i].1));
                proof {
                    assert(kept@.drop_last() =~= before);
                }
            }
            proof {
                assert forall|k: RelKey| k != rel@ implies #[trigger] memo_in(kept@, k) == memo_in(
                    part,
                    k,
                ) by {
                    assert(memo_in(before, k) == memo_in(self.memo@.subrange(0, i as int), k));
                }
            }
            i = i + 1;
        }
        proof {
            assert(self.memo@.subrange(0, i as int) =~= self.memo@);
        }
        self.memo = kept;
    }
}

impl<'a> PlanRouteView for ReorderRouteView<'a> {
    closed spec fn route(&self, rel: RelKey) -> Option<MappingView> {
        self.current(rel)
    }

    closed spec fn numbered(&self, id: u64) -> Option<MappingView> {
        if id < self.frozen@.len() {
            Some(self.frozen@[id as int]@)
        } else {
            None
        }
    }

    /// The memo agrees with the routes.
    closed spec fn valid(&self) -> bool {
        forall|k: RelKey|
            match #[trigger] memo_in(self.memo@, k) {
                None => true,
                Some(None) => self.current(k) is None,
                Some(Some(id)) => self.current(k) is Some && self.numbered(id) == self.current(k),
            }
    }

    fn route_for(&mut self, rel: &RelName) -> (r: Option<u64>)
        ensures
            match old(self).answer(rel@) {
                // The answer stands until the relation changes.
                Some(known) => r == known && *final(self) == *old(self),
                None => {
                    &&& forall|k: RelKey| #[trigger]
                        final(self).answer(k) == (if k == rel@ {
                            Some(r)
                        } else {
                            old(self).answer(k)
                        })
                    &&& match r {
                        Some(id) => {
                            &&& id == old(self).given()
                            &&& final(self).given() == old(self).given() + 1
                            &&& final(self).counts() == (
                                one_more(old(self).counts().0),
                                old(self).counts().1,
                            )
                        },
                        None => {
                            &&& final(self).given() == old(self).given()
                            &&& final(self).counts() == (
                                old(self).counts().0,
                                one_more(old(self).counts().1),
                            )
                        },
                    }
                    &&& forall|id: u64| #[trigger]
                        final(self).numbered(id) == (if r == Some(id) {
                            old(self).route(rel@)
                        } else {
                            old(self).numbered(id)
                        })
                },
            },
    {
        if let Some(known) = self.find_memo(rel) {
            return known;
        }
        let ghost pre = *self;
        let r: Option<u64> = match self.lookup(rel) {
            Some(m) => {
                let id: u64 = self.frozen.len() as u64;
                self.frozen.push(m);
                self.mapped = self.mapped.wrapping_add(1);
                Some(id)
            },
            None => {
                self.unmapped = self.unmapped.wrapping_add(1);
                None
            },
        };
        self.memo.push((rel.copied(), r));
        proof {
            assert(self.memo@.drop_last() =~= pre.memo@);
            assert forall|k: RelKey|
                match #[trigger] memo_in(self.memo@, k) {
                    None => true,
                    Some(None) => self.current(k) is None,
                    Some(Some(id)) => self.current(k) is Some && self.numbered(id)
                        == self.current(k),
                } by {
                assert(self.current(k) == pre.current(k));
                if k != rel@ {
                    assert(memo_in(self.memo@, k) == memo_in(pre.memo@, k));
                }
            }
            assert forall|k: RelKey| #[trigger]
                self.answer(k) == (if k == rel@ {
                    Some(r)
                } else {
                    pre.answer(k)
                }) by {
                if k != rel@ {
                    assert(memo_in(self.memo@, k) == memo_in(pre.memo@, k));
                }
            }
        }
        r
    }

    fn apply(&mut self, effects: Vec<Effect>)
        ensures
            final(self).counts() == old(self).counts(),
            final(self).given() == old(self).given(),
            forall|id: u64| #[trigger] final(self).numbered(id) == old(self).numbered(id),
            forall|k: RelKey| #[trigger]
                final(self).answer(k) == (if touched(effect_views(effects@), k) {
                    None
                } else {
                    old(self).answer(k)
                }),
    {
        let ghost pre = *self;
        let ghost all = effects@;
        let n: usize = effects.len();
        let mut i: usize = 0;
        proof {
            assert(effect_views(all.subrange(0, 0)) =~= Seq::empty());
        }
        for e in iter: effects
            invariant
                iter.seq() == all,
                i == iter.index(),
                i <= n == all.len(),
                self.valid(),
                self.frozen == pre.frozen,
                self.counts() == pre.counts(),
                pre == *old(self),
                forall|k: RelKey| #[trigger]
                    self.answer(k) == (if touched(
                        effect_views(all.subrange(0, i as int)),
                        k,
                    ) {
                        None
                    } else {
                        pre.answer(k)
                    }),
                forall|k: RelKey| #[trigger]
                    self.current(k) == folded(
                        pre.current(k),
                        effect_views(all.subrange(0, i as int)),
                        k,
                    ),
        {
            let ghost mid = *self;
            let ghost part = effect_views(all.subrange(0, i as int + 1));
            proof {
                assert(part.drop_last() =~= effect_views(all.subrange(0, i as int)));
                assert(part.last() == effect_view(all[i as int]));
                assert(e == all[i as int]);
            }
            self.forget_memo(&e.0);
            let ghost key = e.0@;
            self.overlay.push(e);
            proof {
                assert(self.overlay@.drop_last() =~= mid.overlay@);
                assert forall|k: RelKey| #[trigger]
                    self.current(k) == folded(pre.current(k), part, k) by {
                    assert(mid.current(k) == folded(
                        pre.current(k),
                        effect_views(all.subrange(0, i as int)),
                        k,
                    ));
                }
                assert forall|k: RelKey| #[trigger]
                    self.answer(k) == (if touched(part, k) {
                        None
                    } else {
                        pre.answer(k)
                    }) by {
                    assert(mid.answer(k) == (if touched(
                        effect_views(all.subrange(0, i as int)),
                        k,
                    ) {
                        None
                    } else {
                        pre.answer(k)
                    }));
                    if k != key {
                        assert(memo_in(self.memo@, k) == memo_in(mid.memo@, k));
                    }
                }
                assert forall|k: RelKey|
                    match #[trigger] memo_in(self.memo@, k) {
                        None => true,
                        Some(None) => self.current(k) is None,
                        Some(Some(id)) => self.current(k) is Some && self.numbered(id)
                            == self.current(k),
                    } by {
                    if k != key {
                        assert(memo_in(self.memo@, k) == memo_in(mid.memo@, k));
                        assert(self.current(k) == mid.current(k));
                    }
                }
            }
            i = i + 1;
        }
        proof {
            assert(all.subrange(0, i as int) =~= all);
        }
    }
}

} // verus!

//! What a planner writes is what its sealed plan reads back.
use vstd::prelude::*;

use crate::pipeline::plan_laws::{item_of, kth_outcome, replay_gives_back_the_writes};
use crate::pipeline::plan_replay::{header_fault, start_state, walk, ItemView};
use crate::pipeline::plan_spool::{
    header, with_key, writes_heap, LogStep, PlanStore, SealedPlan, SpoolErrorView, WriterView,
};

verus! {

/// One thing that happens to a plan that is being written.
pub enum PlanStep<E> {
    /// A row or truncate is written.
    Heap { desc: (u64, u64), route: Option<u64>, heap: Seq<u8> },
    /// The disk budget does not allow a row.
    Refused { desc: (u64, u64), route: Option<u64> },
    Control { event: E, row_idx: usize },
    Fence { upto: usize },
    Rows { rows: Seq<u64> },
    /// Bytes are handed over for the file.
    Spill { chunk: Seq<u8> },
}

/// `post` is `pre` after the step.
pub open spec fn stepped<E>(pre: WriterView<E>, s: PlanStep<E>, post: WriterView<E>) -> bool {
    match s {
        PlanStep::Heap { desc, route, heap } => pre.took_heap(desc, route, heap, post),
        PlanStep::Refused { desc, route } => post == pre.with_keys(desc, route),
        PlanStep::Control { event, row_idx } => post == pre.with_control(event, row_idx),
        PlanStep::Fence { upto } => post == pre.with_fence(upto),
        PlanStep::Rows { rows } => post == pre.with_rows(rows),
        PlanStep::Spill { chunk } => pre.hands_over(chunk, post),
    }
}

/// `states` are those of a plan from its first byte on, one step after
/// another.
pub open spec fn is_writing<E>(
    path: Seq<char>,
    cap: u64,
    mem_max: u64,
    states: Seq<WriterView<E>>,
    steps: Seq<PlanStep<E>>,
) -> bool {
    &&& states.len() == steps.len() + 1
    &&& states[0] == WriterView::<E>::fresh(path, cap, mem_max)
    &&& forall|i: int| 0 <= i < states.len() ==> (#[trigger] states[i]).wf()
    &&& forall|i: int|
        0 <= i < steps.len() ==> stepped(states[i], #[trigger] steps[i], states[i + 1])
}

/// The steps that replay gives back, in order.
pub open spec fn replayed<E>(steps: Seq<PlanStep<E>>) -> Seq<PlanStep<E>>
    decreases steps.len(),
{
    if steps.len() == 0 {
        Seq::empty()
    } else {
        let rest = replayed(steps.drop_last());
        match steps.last() {
            PlanStep::Heap { .. } => rest.push(steps.last()),
            PlanStep::Control { .. } => rest.push(steps.last()),
            _ => rest,
        }
    }
}

/// The bytes that were handed over, in order.
pub open spec fn spilled_bytes<E>(steps: Seq<PlanStep<E>>) -> Seq<u8>
    decreases steps.len(),
{
    if steps.len() == 0 {
        Seq::empty()
    } else {
        let rest = spilled_bytes(steps.drop_last());
        match steps.last() {
            PlanStep::Spill { chunk } => rest + chunk,
            _ => rest,
        }
    }
}

/// The byte stream of a sealed plan: in memory, or in the file that the
/// handed over bytes went to, `rest` at its end.
pub open spec fn stored<E>(plan: SealedPlan<E>, steps: Seq<PlanStep<E>>, rest: Seq<u8>) -> Seq<u8> {
    match plan.store {
        PlanStore::Mem(bytes) => bytes@,
        PlanStore::File(_) => spilled_bytes(steps) + rest,
    }
}

/// The item is what the step wrote.
pub open spec fn gives_back<E>(item: ItemView<E>, s: PlanStep<E>) -> bool {
    match (item, s) {
        (ItemView::Heap(h), PlanStep::Heap { desc, route, heap }) => h.descriptor == desc
            && h.route == route && h.heap == heap,
        (ItemView::Control(c), PlanStep::Control { event, row_idx }) => c.event == event
            && c.row_idx == row_idx,
        _ => false,
    }
}

/// The log's step is the write of `s`, under the header's entries.
spec fn logs<E>(
    step: LogStep<E>,
    descriptors: Seq<(u64, u64)>,
    routes: Seq<u64>,
    s: PlanStep<E>,
) -> bool {
    match s {
        PlanStep::Heap { desc, route, heap } => writes_heap(
            step,
            descriptors,
            routes,
            desc,
            route,
            heap,
        ),
        PlanStep::Control { event, row_idx } => match step {
            LogStep::Control(c) => c.event == event && c.row_idx == row_idx,
            LogStep::Heap { .. } => false,
        },
        _ => false,
    }
}

/// The plan holds the writes and has handed over a prefix of its bytes.
spec fn in_step<E>(w: WriterView<E>, steps: Seq<PlanStep<E>>) -> bool {
    &&& w.log.len() == replayed(steps).len()
    &&& forall|k: int|
        0 <= k < w.log.len() ==> logs(
            #[trigger] w.log[k],
            w.descriptors,
            w.routes,
            replayed(steps)[k],
        )
    &&& w.handed_over <= w.bytes.len()
    &&& spilled_bytes(steps) == w.bytes.subrange(0, w.handed_over as int)
}

/// Entries of a header keep their place.
proof fn lemma_place_kept<E>(
    step: LogStep<E>,
    w: WriterView<E>,
    desc: (u64, u64),
    route: Option<u64>,
    s: PlanStep<E>,
)
    requires
        logs(step, w.descriptors, w.routes, s),
    ensures
        logs(
            step,
            w.with_keys(desc, route).descriptors,
            w.with_keys(desc, route).routes,
            s,
        ),
{
    if let LogStep::Heap { dict_id, route_id, .. } = step {
        assert(with_key(w.descriptors, desc)[dict_id as int] == w.descriptors[dict_id as int]);
        if let Some(k) = route {
            if route_id < w.routes.len() {
                assert(with_key(w.routes, k)[route_id as int] == w.routes[route_id as int]);
            }
        }
    }
}

proof fn lemma_step<E>(pre: WriterView<E>, post: WriterView<E>, steps: Seq<PlanStep<E>>)
    requires
        steps.len() > 0,
        in_step(pre, steps.drop_last()),
        stepped(pre, steps.last(), post),
        pre.wf(),
        post.wf(),
    ensures
        in_step(post, steps),
{
    let before = replayed(steps.drop_last());
    let now = replayed(steps);
    let s = steps.last();
    assert forall|k: int| 0 <= k < post.log.len() implies logs(
        #[trigger] post.log[k],
        post.descriptors,
        post.routes,
        now[k],
    ) by {
        match s {
            PlanStep::Heap { desc, route, heap } => {
                if k < pre.log.len() {
                    assert(post.log.drop_last()[k] == pre.log[k]);
                    assert(logs(pre.log[k], pre.descriptors, pre.routes, before[k]));
                    lemma_place_kept(pre.log[k], pre, desc, route, before[k]);
                    assert(now[k] == before[k]);
                } else {
                    assert(post.log[k] == post.log.last());
                }
            },
            PlanStep::Refused { desc, route } => {
                assert(logs(pre.log[k], pre.descriptors, pre.routes, before[k]));
                lemma_place_kept(pre.log[k], pre, desc, route, before[k]);
            },
            PlanStep::Control { .. } => {
                if k < pre.log.len() {
                    assert(post.log[k] == pre.log[k]);
                    assert(logs(pre.log[k], pre.descriptors, pre.routes, before[k]));
                    assert(now[k] == before[k]);
                }
            },
            _ => {
                assert(logs(pre.log[k], pre.descriptors, pre.routes, before[k]));
            },
        }
    }
    match s {
        PlanStep::Heap { .. } => {
            assert(post.bytes.subrange(0, post.handed_over as int) =~= pre.bytes.subrange(
                0,
                pre.handed_over as int,
            ));
        },
        PlanStep::Spill { chunk } => {
            if pre.spilled {
                assert(pre.bytes.subrange(0, pre.handed_over as int) + chunk =~= pre.bytes);
                assert(post.bytes.subrange(0, post.handed_over as int) =~= pre.bytes);
            } else {
                assert(spilled_bytes(steps) =~= spilled_bytes(steps.drop_last()));
            }
        },
        _ => {},
    }
}

proof fn lemma_in_step<E>(
    path: Seq<char>,
    cap: u64,
    mem_max: u64,
    states: Seq<WriterView<E>>,
    steps: Seq<PlanStep<E>>,
)
    requires
        is_writing(path, cap, mem_max, states, steps),
    ensures
        in_step(states.last(), steps),
    decreases steps.len(),
{
    if steps.len() == 0 {
        assert(header().subrange(0, 0) =~= Seq::empty());
    } else {
        let n = steps.len() - 1;
        let states0 = states.drop_last();
        let steps0 = steps.drop_last();
        assert forall|i: int| 0 <= i < states0.len() implies (#[trigger] states0[i]).wf() by {
            assert(states0[i] == states[i]);
        }
        assert forall|i: int| 0 <= i < steps0.len() implies stepped(
            states0[i],
            #[trigger] steps0[i],
            states0[i + 1],
        ) by {
            assert(steps0[i] == steps[i]);
        }
        lemma_in_step(path, cap, mem_max, states0, steps0);
        assert(stepped(states[n], steps[n], states[n + 1]));
        assert(states0.last() == states[n]);
        lemma_step(states[n], states[n + 1], steps);
    }
}

/// What goes into a plan comes out of it: rows, truncates and controls read
/// back in the order in which they were written, every row with the
/// descriptor, the route and the bytes it was written with, and then the plan
/// ends. Of a plan in a file this holds of the bytes that were handed over
/// along the way, followed by those that sealing hands over.
pub proof fn sealed_plans_read_back_as_written<E>(
    path: Seq<char>,
    cap: u64,
    mem_max: u64,
    states: Seq<WriterView<E>>,
    steps: Seq<PlanStep<E>>,
    commit_lsn: u64,
    commit_ts: i64,
    plan: SealedPlan<E>,
    rest: Seq<u8>,
)
    requires
        is_writing(path, cap, mem_max, states, steps),
        states.last().seals_to(commit_lsn, commit_ts, plan, rest),
    ensures
        stored(plan, steps, rest) == states.last().sealed(),
        header_fault(stored(plan, steps, rest)) is None,
        forall|k: nat|
            k < replayed(steps).len() ==> match #[trigger] kth_outcome(
                plan@,
                stored(plan, steps, rest),
                k,
            ) {
                Ok(Some(item)) => gives_back(item, replayed(steps)[k as int]),
                _ => false,
            },
        kth_outcome(plan@, stored(plan, steps, rest), replayed(steps).len()) == Ok::<
            _,
            SpoolErrorView,
        >(None::<ItemView<E>>),
        walk(plan@, stored(plan, steps, rest), start_state()) is Ok,
{
    let w = states.last();
    let n = steps.len() as int;
    let sealed = w.sealed();
    let input = stored(plan, steps, rest);
    assert(w == states[n]);
    assert(w.wf());
    lemma_in_step(path, cap, mem_max, states, steps);
    if plan.store is File {
        assert(input =~= sealed);
    }
    replay_gives_back_the_writes(plan@, sealed, w.log);
    assert forall|k: nat| k < replayed(steps).len() implies match #[trigger] kth_outcome(
        plan@,
        input,
        k,
    ) {
        Ok(Some(item)) => gives_back(item, replayed(steps)[k as int]),
        _ => false,
    } by {
        let s = replayed(steps)[k as int];
        assert(logs(w.log[k as int], w.descriptors, w.routes, s));
        assert(kth_outcome(plan@, sealed, k) == Ok::<_, SpoolErrorView>(
            Some(item_of(plan@, w.log, k as int)),
        ));
    }
}

} // verus!

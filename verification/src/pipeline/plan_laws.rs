//! Laws of the plan spool: replay gives back the writes, and only a whole
//! stream replays.
use vstd::prelude::*;

use crate::pipeline::plan_replay::{
    body_meaning, control_due, header_fault, lemma_next_progress, next_outcome, start_state,
    state_ok, walk, work_left, FrameView, HeapView, ItemView, ReadState,
};
use crate::pipeline::plan_spool::{
    controls_in, crc32c_of, encodes, frame, frames, header, heap_body, heaps_in, seal_body,
    step_bytes, step_ok, LogStep, PlanView, SpoolErrorView, PLAN_VERSION, ROUTE_NONE, TAG_HEAP,
    TAG_SEAL,
};
use crate::u256::le_nat;
use crate::wire::{le_bytes, le_bytes_spell_the_number, lemma_le_bytes_len, lemma_pow256_small};

verus! {

/// The item that replays the `k`-th write.
pub open spec fn item_of<E>(p: PlanView<E>, log: Seq<LogStep<E>>, k: int) -> ItemView<E> {
    match log[k] {
        LogStep::Control(c) => ItemView::Control(c),
        LogStep::Heap { dict_id, route_id, heap } => ItemView::Heap(
            HeapView {
                descriptor: p.descriptors[dict_id as int],
                route: if route_id == ROUTE_NONE {
                    None
                } else {
                    Some(p.routes[route_id as int])
                },
                heap,
                frame_offset: (4 + frames(log.subrange(0, k)).len()) as u64,
            },
        ),
    }
}

/// Where a replay stands after `k` items.
pub open spec fn state_after<E>(p: PlanView<E>, input: Seq<u8>, k: nat) -> ReadState
    decreases k,
{
    if k == 0 {
        start_state()
    } else {
        next_outcome(p, input, state_after(p, input, (k - 1) as nat)).1
    }
}

/// The `k`-th outcome of a replay.
pub open spec fn kth_outcome<E>(p: PlanView<E>, input: Seq<u8>, k: nat) -> Result<
    Option<ItemView<E>>,
    SpoolErrorView,
> {
    next_outcome(p, input, state_after(p, input, k)).0
}

spec fn state_at<E>(log: Seq<LogStep<E>>, k: int) -> ReadState {
    ReadState {
        offset: 4 + frames(log.subrange(0, k)).len(),
        next_heap: heaps_in(log.subrange(0, k)),
        next_control: controls_in(log.subrange(0, k)).len(),
        done: false,
    }
}

proof fn lemma_take_step<E>(log: Seq<LogStep<E>>, k: int)
    requires
        0 <= k < log.len(),
    ensures
        log.subrange(0, k + 1).drop_last() == log.subrange(0, k),
        log.subrange(0, k + 1).last() == log[k],
{
    assert(log.subrange(0, k + 1).drop_last() =~= log.subrange(0, k));
}

/// Every control is pinned behind the heaps before it.
spec fn log_pins<E>(log: Seq<LogStep<E>>) -> bool {
    forall|i: int|
        0 <= i < log.len() ==> match #[trigger] log[i] {
            LogStep::Control(c) => c.heap_idx == heaps_in(log.subrange(0, i)),
            LogStep::Heap { .. } => true,
        }
}

/// Earlier frames are a prefix of later ones.
proof fn lemma_frames_prefix<E>(log: Seq<LogStep<E>>, k: int, n: int)
    requires
        0 <= k <= n <= log.len(),
    ensures
        ({
            let a = frames(log.subrange(0, k));
            let b = frames(log.subrange(0, n));
            a.len() <= b.len() && b.subrange(0, a.len() as int) == a
        }),
    decreases n,
{
    let a = frames(log.subrange(0, k));
    if k < n {
        lemma_frames_prefix(log, k, n - 1);
        lemma_take_step(log, n - 1);
        let b = frames(log.subrange(0, n));
        let m = frames(log.subrange(0, n - 1));
        assert(b == m + step_bytes(log[n - 1]));
        assert(b.subrange(0, a.len() as int) =~= m.subrange(0, a.len() as int));
    } else {
        assert(a.subrange(0, a.len() as int) =~= a);
    }
}

/// Earlier controls are a prefix of later ones, and every control from the
/// `k`-th write on is pinned at or behind the heaps before it.
proof fn lemma_controls_prefix<E>(log: Seq<LogStep<E>>, k: int, n: int)
    requires
        0 <= k <= n <= log.len(),
        log_pins(log),
    ensures
        ({
            let a = controls_in(log.subrange(0, k));
            let b = controls_in(log.subrange(0, n));
            &&& a.len() <= b.len() && b.subrange(0, a.len() as int) == a
            &&& forall|i: int|
                a.len() <= i < b.len() ==> (#[trigger] b[i]).heap_idx >= heaps_in(
                    log.subrange(0, k),
                )
        }),
        heaps_in(log.subrange(0, k)) <= heaps_in(log.subrange(0, n)),
    decreases n,
{
    let a = controls_in(log.subrange(0, k));
    if k < n {
        lemma_controls_prefix(log, k, n - 1);
        lemma_take_step(log, n - 1);
        let b = controls_in(log.subrange(0, n));
        let m = controls_in(log.subrange(0, n - 1));
        assert(b.subrange(0, a.len() as int) =~= m.subrange(0, a.len() as int));
        assert forall|i: int| a.len() <= i < b.len() implies (#[trigger] b[i]).heap_idx
            >= heaps_in(log.subrange(0, k)) by {
            if i < m.len() {
                assert(b[i] == m[i]);
            } else {
                assert(log[n - 1] is Control);
            }
        }
    } else {
        assert(a.subrange(0, a.len() as int) =~= a);
    }
}

/// Reading a frame back.
proof fn lemma_frame_reads(input: Seq<u8>, at: int, body: Seq<u8>)
    requires
        0 <= at,
        at + 8 <= input.len(),
        body.len() <= u32::MAX,
        input.subrange(at, at + 8) == frame(body).subrange(0, 8),
    ensures
        frame(body).len() == 8 + body.len(),
        le_nat(input.subrange(at, at + 4)) == body.len(),
        le_nat(input.subrange(at + 4, at + 8)) == crc32c_of(body),
{
    lemma_pow256_small();
    le_bytes_spell_the_number(body.len() as int, 4);
    le_bytes_spell_the_number(crc32c_of(body) as int, 4);
    let f = frame(body);
    let head = input.subrange(at, at + 8);
    assert(f.subrange(0, 8).subrange(0, 4) =~= le_bytes(body.len() as int, 4));
    assert(f.subrange(0, 8).subrange(4, 8) =~= le_bytes(crc32c_of(body) as int, 4));
    assert(input.subrange(at, at + 4) =~= head.subrange(0, 4));
    assert(input.subrange(at + 4, at + 8) =~= head.subrange(4, 8));
}

proof fn lemma_heap_body_reads<E>(
    p: PlanView<E>,
    at: nat,
    next_heap: nat,
    dict_id: u32,
    route_id: u32,
    heap: Seq<u8>,
)
    requires
        step_ok(
            LogStep::<E>::Heap { dict_id, route_id, heap },
            p.descriptors.len(),
            p.routes.len(),
        ),
    ensures
        heap_body(dict_id, route_id, heap).len() == 9 + heap.len(),
        body_meaning(p, at, next_heap, heap_body(dict_id, route_id, heap)) == Ok::<
            FrameView,
            SpoolErrorView,
        >(
            FrameView::Heap(
                HeapView {
                    descriptor: p.descriptors[dict_id as int],
                    route: if route_id == ROUTE_NONE {
                        None
                    } else {
                        Some(p.routes[route_id as int])
                    },
                    heap,
                    frame_offset: at as u64,
                },
            ),
        ),
{
    lemma_pow256_small();
    le_bytes_spell_the_number(dict_id as int, 4);
    le_bytes_spell_the_number(route_id as int, 4);
    let body = heap_body(dict_id, route_id, heap);
    assert(body[0] == TAG_HEAP);
    assert(body.subrange(1, 5) =~= le_bytes(dict_id as int, 4));
    assert(body.subrange(5, 9) =~= le_bytes(route_id as int, 4));
    assert(body.subrange(9, body.len() as int) =~= heap);
}

proof fn lemma_seal_body_reads<E>(p: PlanView<E>, at: nat, count: u64)
    requires
        p.heap_count == count,
    ensures
        seal_body(count).len() == 9,
        body_meaning(p, at, count as nat, seal_body(count)) == Ok::<FrameView, SpoolErrorView>(
            FrameView::Seal,
        ),
{
    lemma_pow256_small();
    le_bytes_spell_the_number(count as int, 8);
    let body = seal_body(count);
    assert(body[0] == TAG_SEAL);
    assert(body.subrange(1, 9) =~= le_bytes(count as int, 8));
}

/// The frame of the `k`-th write lies where the frames before it end.
proof fn lemma_frame_place<E>(p: PlanView<E>, input: Seq<u8>, log: Seq<LogStep<E>>, k: int)
    requires
        encodes(p, input, log),
        0 <= k < log.len(),
    ensures
        ({
            let at = (4 + frames(log.subrange(0, k)).len()) as int;
            let end = (4 + frames(log.subrange(0, k + 1)).len()) as int;
            &&& end == at + step_bytes(log[k]).len()
            &&& end < input.len()
            &&& input.subrange(at, end) == step_bytes(log[k])
        }),
{
    lemma_take_step(log, k);
    lemma_frames_prefix(log, k + 1, log.len() as int);
    assert(log.subrange(0, log.len() as int) =~= log);
    lemma_le_bytes_len(PLAN_VERSION as int, 2);
    let a = frames(log.subrange(0, k));
    let b = frames(log.subrange(0, k + 1));
    let all = frames(log);
    let at = (4 + a.len()) as int;
    let end = (4 + b.len()) as int;
    let seal = frame(seal_body(heaps_in(log) as u64));
    lemma_le_bytes_len(heaps_in(log) as u64 as int, 8);
    lemma_le_bytes_len(seal_body(heaps_in(log) as u64).len() as int, 4);
    assert(seal.len() > 0);
    assert(header().len() == 4);
    lemma_lies_within(header(), all, seal, a, step_bytes(log[k]));
}

/// A part that follows `a` at the start of `all` lies behind what precedes
/// `all`, and `a`.
proof fn lemma_lies_within(h: Seq<u8>, all: Seq<u8>, tail: Seq<u8>, a: Seq<u8>, part: Seq<u8>)
    requires
        (a + part).len() <= all.len(),
        all.subrange(0, (a + part).len() as int) == a + part,
    ensures
        (h + all + tail).subrange(
            (h.len() + a.len()) as int,
            (h.len() + a.len() + part.len()) as int,
        ) == part,
{
    let whole = h + all + tail;
    let at = (h.len() + a.len()) as int;
    let cut = whole.subrange(at, at + part.len());
    let start = all.subrange(0, (a + part).len() as int);
    assert forall|i: int| 0 <= i < part.len() implies cut[i] == #[trigger] part[i] by {
        assert(cut[i] == whole[at + i]);
        assert(whole[at + i] == all[a.len() + i]);
        assert(start[a.len() + i] == all[a.len() + i]);
        assert((a + part)[a.len() + i] == part[i]);
    }
    assert(cut =~= part);
}

proof fn lemma_seal_place<E>(p: PlanView<E>, input: Seq<u8>, log: Seq<LogStep<E>>)
    requires
        encodes(p, input, log),
    ensures
        ({
            let at = (4 + frames(log).len()) as int;
            let seal = frame(seal_body(heaps_in(log) as u64));
            &&& input.len() == at + seal.len()
            &&& input.subrange(at, input.len() as int) == seal
            &&& seal.len() == 17
        }),
{
    lemma_le_bytes_len(PLAN_VERSION as int, 2);
    let seal = frame(seal_body(heaps_in(log) as u64));
    lemma_seal_body_reads(p, 0, heaps_in(log) as u64);
    lemma_le_bytes_len(9, 4);
    lemma_le_bytes_len(crc32c_of(seal_body(heaps_in(log) as u64)) as int, 4);
    assert(header().len() == 4);
    let at = (4 + frames(log).len()) as int;
    assert(input.subrange(at, input.len() as int) =~= seal);
}

/// Reading a heap's frame out of `part`, which may end within it.
proof fn lemma_heap_frame_step<E>(
    p: PlanView<E>,
    part: Seq<u8>,
    st: ReadState,
    body: Seq<u8>,
    h: HeapView,
)
    requires
        !control_due(p, st),
        !st.done,
        st.offset <= part.len(),
        st.offset + 8 + body.len() <= p.size_bytes,
        body.len() <= u32::MAX,
        body_meaning(p, st.offset, st.next_heap, body) == Ok::<FrameView, SpoolErrorView>(
            FrameView::Heap(h),
        ),
        st.offset + 8 <= part.len() ==> part.subrange(
            st.offset as int,
            st.offset as int + 8,
        ) == frame(body).subrange(0, 8),
        st.offset + 8 + body.len() <= part.len() ==> part.subrange(
            st.offset as int + 8,
            st.offset as int + 8 + body.len(),
        ) == body,
    ensures
        ({
            let (r, next) = next_outcome(p, part, st);
            if st.offset + 8 + body.len() <= part.len() {
                r == Ok::<_, SpoolErrorView>(Some(ItemView::<E>::Heap(h))) && next == (ReadState {
                    offset: st.offset + 8 + body.len(),
                    next_heap: st.next_heap + 1,
                    ..st
                })
            } else {
                r == Err::<Option<ItemView<E>>, _>(SpoolErrorView::Unsealed)
            }
        }),
{
    if st.offset + 8 <= part.len() {
        lemma_frame_reads(part, st.offset as int, body);
    }
}

/// One step of replay over a control.
proof fn lemma_control_step<E>(
    p: PlanView<E>,
    part: Seq<u8>,
    log: Seq<LogStep<E>>,
    k: int,
)
    requires
        log_pins(log),
        p.controls == controls_in(log),
        0 <= k < log.len(),
        log[k] is Control,
    ensures
        next_outcome(p, part, state_at(log, k)) == (
            Ok::<_, SpoolErrorView>(Some(item_of(p, log, k))),
            state_at(log, k + 1),
        ),
{
    let st = state_at(log, k);
    lemma_take_step(log, k);
    lemma_controls_prefix(log, k + 1, log.len() as int);
    assert(log.subrange(0, log.len() as int) =~= log);
    let nc = st.next_control as int;
    let upto = controls_in(log.subrange(0, k + 1));
    assert(p.controls.subrange(0, upto.len() as int)[nc] == upto[nc]);
    assert(frames(log.subrange(0, k + 1)) =~= frames(log.subrange(0, k)));
}

/// No control is due where a heap was written.
proof fn lemma_no_control_due<E>(p: PlanView<E>, log: Seq<LogStep<E>>, k: int)
    requires
        log_pins(log),
        p.controls == controls_in(log),
        0 <= k < log.len(),
        log[k] is Heap,
    ensures
        !control_due(p, state_at(log, k)),
        state_at(log, k + 1).next_control == state_at(log, k).next_control,
        state_at(log, k + 1).next_heap == state_at(log, k).next_heap + 1,
{
    let st = state_at(log, k);
    lemma_take_step(log, k);
    lemma_controls_prefix(log, k + 1, log.len() as int);
    assert(log.subrange(0, log.len() as int) =~= log);
    let nc = st.next_control as int;
    if nc < p.controls.len() {
        assert(p.controls[nc].heap_idx >= heaps_in(log.subrange(0, k + 1)));
    }
}

/// One step of replay over `cut`, a prefix of the sealed stream.
#[verifier::spinoff_prover]
proof fn lemma_replay_step<E>(
    p: PlanView<E>,
    input: Seq<u8>,
    cut: int,
    log: Seq<LogStep<E>>,
    k: int,
)
    requires
        encodes(p, input, log),
        0 <= k < log.len(),
        state_at(log, k).offset <= cut <= input.len(),
    ensures
        ({
            let (r, next) = next_outcome(p, input.subrange(0, cut), state_at(log, k));
            if state_at(log, k + 1).offset <= cut {
                r == Ok::<_, SpoolErrorView>(Some(item_of(p, log, k))) && next == state_at(
                    log,
                    k + 1,
                )
            } else {
                r == Err::<Option<ItemView<E>>, _>(SpoolErrorView::Unsealed)
            }
        }),
{
    let st = state_at(log, k);
    let part = input.subrange(0, cut);
    match log[k] {
        LogStep::Control(c) => {
            lemma_control_step(p, part, log, k);
            assert(state_at(log, k + 1).offset == st.offset) by {
                lemma_take_step(log, k);
            }
        },
        LogStep::Heap { dict_id, route_id, heap } => {
            let at = st.offset as int;
            let body = heap_body(dict_id, route_id, heap);
            let whole = frame(body);
            lemma_no_control_due(p, log, k);
            assert(step_ok(log[k], p.descriptors.len(), p.routes.len()));
            lemma_heap_body_reads(p, st.offset, st.next_heap, dict_id, route_id, heap);
            lemma_frame_place(p, input, log, k);
            assert(whole.len() == 8 + body.len()) by {
                lemma_le_bytes_len(body.len() as int, 4);
                lemma_le_bytes_len(crc32c_of(body) as int, 4);
            }
            assert(step_bytes(log[k]) == whole);
            assert(input.subrange(at, at + 8 + body.len()) == whole);
            assert(state_at(log, k + 1).offset == at + 8 + body.len());
            if at + 8 <= cut {
                assert(part.subrange(at, at + 8) =~= input.subrange(
                    at,
                    at + 8 + body.len(),
                ).subrange(0, 8));
            }
            if at + 8 + body.len() <= cut {
                assert(part.subrange(at + 8, at + 8 + body.len()) =~= input.subrange(
                    at,
                    at + 8 + body.len(),
                ).subrange(8, 8 + body.len() as int));
                assert(whole.subrange(8, 8 + body.len() as int) =~= body) by {
                    lemma_le_bytes_len(body.len() as int, 4);
                    lemma_le_bytes_len(crc32c_of(body) as int, 4);
                }
            }
            let h = HeapView {
                descriptor: p.descriptors[dict_id as int],
                route: if route_id == ROUTE_NONE {
                    None
                } else {
                    Some(p.routes[route_id as int])
                },
                heap,
                frame_offset: st.offset as u64,
            };
            lemma_heap_frame_step(p, part, st, body, h);
        },
    }
}

proof fn lemma_replay_end<E>(p: PlanView<E>, input: Seq<u8>, cut: int, log: Seq<LogStep<E>>)
    requires
        encodes(p, input, log),
        state_at(log, log.len() as int).offset <= cut <= input.len(),
    ensures
        ({
            let (r, next) = next_outcome(
                p,
                input.subrange(0, cut),
                state_at(log, log.len() as int),
            );
            if cut == input.len() {
                r == Ok::<_, SpoolErrorView>(None::<ItemView<E>>)
            } else {
                r == Err::<Option<ItemView<E>>, _>(SpoolErrorView::Unsealed)
            }
        }),
{
    let st = state_at(log, log.len() as int);
    assert(log.subrange(0, log.len() as int) =~= log);
    lemma_seal_place(p, input, log);
    let part = input.subrange(0, cut);
    let at = st.offset as int;
    let count = heaps_in(log) as u64;
    let body = seal_body(count);
    lemma_seal_body_reads(p, st.offset, count);
    let whole = input.subrange(at, input.len() as int);
    if at + 8 <= cut {
        assert(part.subrange(at, at + 8) =~= whole.subrange(0, 8));
        lemma_frame_reads(part, at, body);
        if cut == input.len() {
            assert(part.subrange(at + 8, at + 8 + body.len()) =~= whole.subrange(
                8,
                8 + body.len() as int,
            ));
            assert(whole.subrange(8, 8 + body.len() as int) =~= body);
        }
    }
}

proof fn lemma_state_after<E>(p: PlanView<E>, input: Seq<u8>, log: Seq<LogStep<E>>, k: nat)
    requires
        encodes(p, input, log),
        k <= log.len(),
    ensures
        state_after(p, input, k) == state_at(log, k as int),
    decreases k,
{
    if k == 0 {
        assert(log.subrange(0, 0) =~= Seq::empty());
    } else {
        lemma_state_after(p, input, log, (k - 1) as nat);
        lemma_frame_place(p, input, log, k - 1);
        assert(input.subrange(0, input.len() as int) =~= input);
        lemma_replay_step(p, input, input.len() as int, log, k - 1);
    }
}

/// Replay of a sealed plan gives back the writes, in the order in which they
/// were made, and then ends: every control comes before the heap that it was
/// pinned to, and every heap with the descriptor, route and bytes that it was
/// written with.
pub proof fn replay_gives_back_the_writes<E>(
    p: PlanView<E>,
    input: Seq<u8>,
    log: Seq<LogStep<E>>,
)
    requires
        encodes(p, input, log),
    ensures
        header_fault(input) is None,
        forall|k: nat|
            k < log.len() ==> #[trigger] kth_outcome(p, input, k) == Ok::<_, SpoolErrorView>(
                Some(item_of(p, log, k as int)),
            ),
        kth_outcome(p, input, log.len()) == Ok::<_, SpoolErrorView>(None::<ItemView<E>>),
        walk(p, input, start_state()) is Ok,
{
    lemma_header_reads(p, input, log);
    assert(input.subrange(0, input.len() as int) =~= input);
    assert forall|k: nat| k < log.len() implies #[trigger] kth_outcome(p, input, k) == Ok::<
        _,
        SpoolErrorView,
    >(Some(item_of(p, log, k as int))) by {
        lemma_state_after(p, input, log, k);
        lemma_frame_place(p, input, log, k as int);
        lemma_replay_step(p, input, input.len() as int, log, k as int);
    }
    lemma_state_after(p, input, log, log.len());
    assert(log.subrange(0, log.len() as int) =~= log);
    lemma_seal_place(p, input, log);
    lemma_replay_end(p, input, input.len() as int, log);
    assert(log.subrange(0, 0) =~= Seq::empty());
    lemma_walk_from(p, input, input.len() as int, log, 0);
}

/// A stream that breaks off anywhere before its end reads as unsealed: a plan
/// that was not finished never replays as if it were.
pub proof fn cut_stream_reads_as_unsealed<E>(
    p: PlanView<E>,
    input: Seq<u8>,
    cut: int,
    log: Seq<LogStep<E>>,
)
    requires
        encodes(p, input, log),
        4 <= cut < input.len(),
    ensures
        header_fault(input.subrange(0, cut)) is None,
        walk(p, input.subrange(0, cut), start_state()) == Err::<(), _>(SpoolErrorView::Unsealed),
{
    lemma_header_reads(p, input, log);
    let part = input.subrange(0, cut);
    assert(part.subrange(2, 4) =~= input.subrange(2, 4));
    assert(log.subrange(0, 0) =~= Seq::empty());
    lemma_walk_from(p, input, cut, log, 0);
}

proof fn lemma_header_reads<E>(p: PlanView<E>, input: Seq<u8>, log: Seq<LogStep<E>>)
    requires
        encodes(p, input, log),
    ensures
        header_fault(input) is None,
{
    lemma_pow256_small();
    le_bytes_spell_the_number(PLAN_VERSION as int, 2);
    assert(input.subrange(2, 4) =~= le_bytes(PLAN_VERSION as int, 2));
    assert(input[0] == header()[0] && input[1] == header()[1]);
}

proof fn lemma_walk_from<E>(
    p: PlanView<E>,
    input: Seq<u8>,
    cut: int,
    log: Seq<LogStep<E>>,
    k: int,
)
    requires
        encodes(p, input, log),
        0 <= k <= log.len(),
        state_at(log, k).offset <= cut <= input.len(),
    ensures
        cut < input.len() ==> walk(p, input.subrange(0, cut), state_at(log, k)) == Err::<(), _>(
            SpoolErrorView::Unsealed,
        ),
        cut == input.len() ==> walk(p, input.subrange(0, cut), state_at(log, k)) is Ok,
    decreases log.len() - k,
{
    let part = input.subrange(0, cut);
    let st = state_at(log, k);
    lemma_heaps_before_offset(log, k);
    lemma_frames_prefix(log, k, log.len() as int);
    lemma_controls_prefix(log, k, log.len() as int);
    assert(log.subrange(0, log.len() as int) =~= log);
    assert(state_ok(p, part, st));
    if k < log.len() {
        lemma_replay_step(p, input, cut, log, k);
        lemma_frame_place(p, input, log, k);
        if state_at(log, k + 1).offset <= cut {
            lemma_walk_from(p, input, cut, log, k + 1);
        }
    } else {
        lemma_replay_end(p, input, cut, log);
    }
}

proof fn lemma_heaps_before_offset<E>(log: Seq<LogStep<E>>, k: int)
    requires
        0 <= k <= log.len(),
    ensures
        state_at(log, k).next_heap <= state_at(log, k).offset,
    decreases k,
{
    if k > 0 {
        lemma_heaps_before_offset(log, k - 1);
        lemma_take_step(log, k - 1);
        if let LogStep::Heap { dict_id, route_id, heap } = log[k - 1] {
            lemma_le_bytes_len(heap_body(dict_id, route_id, heap).len() as int, 4);
        }
    }
}

/// The first `n` reads of a replay give an item each.
pub open spec fn reads_items<E>(p: PlanView<E>, input: Seq<u8>, n: nat) -> bool {
    forall|k: nat| k < n ==> #[trigger] kth_outcome(p, input, k) matches Ok(Some(_))
}

/// How a replay ends with an outcome that is no item.
pub open spec fn ending<E>(r: Result<Option<ItemView<E>>, SpoolErrorView>) -> Result<
    (),
    SpoolErrorView,
> {
    match r {
        Ok(_) => Ok(()),
        Err(e) => Err(e),
    }
}

/// Checking a plan agrees with reading it item by item: reading comes to an
/// end, and the check accepts the plan if the end is reached behind the seal,
/// and reports the error at which reading stops otherwise.
pub proof fn check_agrees_with_reading<E>(p: PlanView<E>, input: Seq<u8>)
    requires
        header_fault(input) is None,
    ensures
        exists|n: nat|
            reads_items(p, input, n) && !(#[trigger] kth_outcome(p, input, n) matches Ok(Some(_))),
        forall|n: nat|
            reads_items(p, input, n) && !(#[trigger] kth_outcome(p, input, n) matches Ok(Some(_)))
                ==> walk(p, input, start_state()) == ending(kth_outcome(p, input, n)),
{
    lemma_reading_ends(p, input, 0);
    assert forall|n: nat|
        reads_items(p, input, n) && !(#[trigger] kth_outcome(p, input, n) matches Ok(
            Some(_),
        )) implies walk(p, input, start_state()) == ending(kth_outcome(p, input, n)) by {
        lemma_walk_after(p, input, n);
    }
}

proof fn lemma_walk_after<E>(p: PlanView<E>, input: Seq<u8>, n: nat)
    requires
        header_fault(input) is None,
        reads_items(p, input, n),
    ensures
        state_ok(p, input, state_after(p, input, n)),
        walk(p, input, state_after(p, input, n)) == walk(p, input, start_state()),
    decreases n,
{
    if n > 0 {
        let k = (n - 1) as nat;
        lemma_walk_after(p, input, k);
        lemma_next_progress(p, input, state_after(p, input, k));
        assert(kth_outcome(p, input, k) matches Ok(Some(_)));
    }
}

proof fn lemma_reading_ends<E>(p: PlanView<E>, input: Seq<u8>, k: nat)
    requires
        header_fault(input) is None,
        reads_items(p, input, k),
    ensures
        exists|n: nat|
            reads_items(p, input, n) && !(#[trigger] kth_outcome(p, input, n) matches Ok(Some(_))),
    decreases work_left(p, input, state_after(p, input, k)),
{
    lemma_walk_after(p, input, k);
    lemma_next_progress(p, input, state_after(p, input, k));
    if kth_outcome(p, input, k) matches Ok(Some(_)) {
        lemma_walk_after(p, input, k + 1);
        lemma_reading_ends(p, input, k + 1);
    }
}

/// A body whose checksum is not the frame's is refused as corrupt before
/// anything in it is read.
pub proof fn altered_body_reads_as_corrupt<E>(
    p: PlanView<E>,
    input: Seq<u8>,
    st: ReadState,
    at: int,
    len: int,
)
    requires
        !control_due(p, st),
        !st.done,
        at == st.offset,
        len == le_nat(input.subrange(at, at + 4)),
        at + 8 + len <= input.len(),
        at + 8 + len <= p.size_bytes,
        crc32c_of(input.subrange(at + 8, at + 8 + len)) != le_nat(
            input.subrange(at + 4, at + 8),
        ),
        len >= 0,
    ensures
        next_outcome(p, input, st).0 == Err::<Option<ItemView<E>>, _>(
            SpoolErrorView::Corrupt(st.offset as u64),
        ),
{
}

} // verus!

//! Laws of executing a plan.
use vstd::prelude::*;

use crate::pipeline::reorder::{
    marker_seq, put_slices, total_len, ExecItem, ExecLimits, ExecState, StepView,
};

verus! {

/// The steps of a plan's items, and where they leave the execution.
pub open spec fn run<H>(items: Seq<ExecItem<H>>, start: ExecState<H>, l: ExecLimits) -> (
    Seq<StepView<H>>,
    ExecState<H>,
)
    decreases items.len(),
{
    if items.len() == 0 {
        (Seq::empty(), start)
    } else {
        let (steps, s) = run(items.drop_last(), start, l);
        let (more, t) = s.stepped(items.last(), l);
        (steps + more, t)
    }
}

/// An execution that has not begun.
pub open spec fn fresh<H>(next_seq: nat) -> ExecState<H> {
    ExecState {
        pending: Seq::empty(),
        pending_bytes: 0,
        cursor: 0,
        next_truncate: 0,
        rows_total: 0,
        next_seq,
    }
}

/// All steps of a plan.
pub open spec fn executed<H>(
    items: Seq<ExecItem<H>>,
    l: ExecLimits,
    next_seq: nat,
    total_rows: nat,
) -> (Seq<StepView<H>>, ExecState<H>) {
    let (steps, s) = run(items, fresh(next_seq), l);
    let (more, t) = s.finished(total_rows);
    (steps + more, t)
}

/// The rows of a plan's items, in order.
pub open spec fn heaps_of<H>(items: Seq<ExecItem<H>>) -> Seq<H>
    decreases items.len(),
{
    if items.len() == 0 {
        Seq::empty()
    } else {
        match items.last() {
            ExecItem::Heap(h, _) => heaps_of(items.drop_last()).push(h),
            _ => heaps_of(items.drop_last()),
        }
    }
}

/// The rows that steps dispatch, in order.
pub open spec fn dispatched_heaps<H>(steps: Seq<StepView<H>>) -> Seq<H>
    decreases steps.len(),
{
    if steps.len() == 0 {
        Seq::empty()
    } else {
        match steps.last() {
            StepView::Dispatch { heaps, .. } => dispatched_heaps(steps.drop_last()) + heaps,
            _ => dispatched_heaps(steps.drop_last()),
        }
    }
}

/// The seqs that steps register, each with whether it publishes.
pub open spec fn registered<H>(steps: Seq<StepView<H>>) -> Seq<(nat, bool)>
    decreases steps.len(),
{
    if steps.len() == 0 {
        Seq::empty()
    } else {
        match steps.last() {
            StepView::Dispatch { seq, publish, .. } => registered(steps.drop_last()).push(
                (seq, publish),
            ),
            _ => registered(steps.drop_last()),
        }
    }
}

/// The ranges of mirror rows that steps put, in order.
pub open spec fn put_ranges<H>(steps: Seq<StepView<H>>) -> Seq<(nat, nat)>
    decreases steps.len(),
{
    if steps.len() == 0 {
        Seq::empty()
    } else {
        match steps.last() {
            StepView::PutRows(from, to) => put_ranges(steps.drop_last()).push((from, to)),
            _ => put_ranges(steps.drop_last()),
        }
    }
}

/// The ranges follow one another from zero on, up to `end`.
pub open spec fn tiles(ranges: Seq<(nat, nat)>, end: nat) -> bool
    decreases ranges.len(),
{
    if ranges.len() == 0 {
        end == 0
    } else {
        ranges.last().1 == end && ranges.last().0 < end && tiles(
            ranges.drop_last(),
            ranges.last().0,
        )
    }
}

/// All seqs of a commit: those of its slices, then its marker if it has one.
pub open spec fn commit_seqs<H>(
    items: Seq<ExecItem<H>>,
    l: ExecLimits,
    next_seq: nat,
    total_rows: nat,
) -> Seq<(nat, bool)> {
    let published = run(items, fresh::<H>(next_seq), l).1.pending.len() > 0;
    let (steps, t) = executed(items, l, next_seq, total_rows);
    match marker_seq(published, t.next_seq) {
        Some(s) => registered(steps).push((s, true)),
        None => registered(steps),
    }
}

proof fn lemma_concat<H>(a: Seq<StepView<H>>, b: Seq<StepView<H>>)
    ensures
        dispatched_heaps(a + b) == dispatched_heaps(a) + dispatched_heaps(b),
        registered(a + b) == registered(a) + registered(b),
        put_ranges(a + b) == put_ranges(a) + put_ranges(b),
    decreases b.len(),
{
    if b.len() == 0 {
        assert(a + b =~= a);
        assert(dispatched_heaps(a) + dispatched_heaps(b) =~= dispatched_heaps(a));
        assert(registered(a) + registered(b) =~= registered(a));
        assert(put_ranges(a) + put_ranges(b) =~= put_ranges(a));
    } else {
        assert((a + b).drop_last() =~= a + b.drop_last());
        assert((a + b).last() == b.last());
        lemma_concat(a, b.drop_last());
        assert(dispatched_heaps(a + b) =~= dispatched_heaps(a) + dispatched_heaps(b));
        assert(registered(a + b) =~= registered(a) + registered(b));
        assert(put_ranges(a + b) =~= put_ranges(a) + put_ranges(b));
    }
}

proof fn lemma_one<H>(x: StepView<H>)
    ensures
        dispatched_heaps(seq![x]) == (match x {
            StepView::Dispatch { heaps, .. } => heaps,
            _ => Seq::empty(),
        }),
        registered(seq![x]) == (match x {
            StepView::Dispatch { seq, publish, .. } => seq![(seq, publish)],
            _ => Seq::empty(),
        }),
        put_ranges(seq![x]) == (match x {
            StepView::PutRows(from, to) => seq![(from, to)],
            _ => Seq::empty(),
        }),
{
    reveal_with_fuel(dispatched_heaps, 2);
    reveal_with_fuel(registered, 2);
    reveal_with_fuel(put_ranges, 2);
    let s = seq![x];
    assert(s.drop_last() =~= Seq::<StepView<H>>::empty());
    assert(dispatched_heaps(s) =~= (match x {
        StepView::Dispatch { heaps, .. } => heaps,
        _ => Seq::empty(),
    }));
    assert(registered(s) =~= (match x {
        StepView::Dispatch { seq, publish, .. } => seq![(seq, publish)],
        _ => Seq::empty(),
    }));
    assert(put_ranges(s) =~= (match x {
        StepView::PutRows(from, to) => seq![(from, to)],
        _ => Seq::empty(),
    }));
}

/// What a part of an execution adds: rows leave `before` for `after`, seqs
/// are dense from `from` on, none publishes, and mirror rows move on.
spec fn progress<H>(
    steps: Seq<StepView<H>>,
    s: ExecState<H>,
    t: ExecState<H>,
    taken: Seq<H>,
    publish: bool,
) -> bool {
    &&& s.pending + taken == dispatched_heaps(steps) + t.pending
    &&& t.next_seq == s.next_seq + registered(steps).len()
    &&& forall|i: int|
        0 <= i < registered(steps).len() ==> #[trigger] registered(steps)[i] == (
            (s.next_seq + i) as nat,
            publish,
        )
    &&& (put_ranges(steps).len() == 0 && t.cursor == s.cursor) || (put_ranges(steps) == seq![
        (s.cursor, t.cursor),
    ] && s.cursor < t.cursor)
}

proof fn lemma_put<H>(s: ExecState<H>, end: nat)
    ensures
        progress(s.put(end).0, s, s.put(end).1, Seq::empty(), false),
        s.put(end).1.pending == s.pending,
        registered(s.put(end).0).len() == 0,
        s.put(end).1.next_seq == s.next_seq,
{
    let (steps, t) = s.put(end);
    assert(s.pending + Seq::<H>::empty() =~= s.pending);
    if end > s.cursor {
        lemma_one::<H>(StepView::PutRows(s.cursor, end));
    }
    assert(dispatched_heaps(steps) + t.pending =~= t.pending);
}

proof fn lemma_dispatch<H>(s: ExecState<H>, publish: bool)
    ensures
        progress(s.dispatched(publish).0, s, s.dispatched(publish).1, Seq::empty(), publish),
        s.dispatched(publish).1.pending.len() == 0,
        s.dispatched(publish).1.cursor == s.cursor,
        put_ranges(s.dispatched(publish).0).len() == 0,
{
    let (steps, t) = s.dispatched(publish);
    assert(s.pending + Seq::<H>::empty() =~= s.pending);
    if s.pending.len() > 0 {
        lemma_one(
            StepView::Dispatch {
                seq: s.next_seq,
                publish,
                heaps: s.pending,
                bytes: s.pending_bytes,
            },
        );
        assert(dispatched_heaps(steps) + t.pending =~= s.pending);
    } else {
        assert(dispatched_heaps(steps) + t.pending =~= s.pending);
    }
}

proof fn lemma_fence<H>(s: ExecState<H>, end: nat)
    ensures
        progress(s.fenced(end).0, s, s.fenced(end).1, Seq::empty(), false),
        s.fenced(end).1.pending.len() == 0,
        s.fenced(end).0.len() >= 2,
        s.fenced(end).0.last() == StepView::<H>::Apply,
        s.fenced(end).0[s.fenced(end).0.len() - 2] == StepView::<H>::Fence,
{
    let (a, s1) = s.put(end);
    let (b, s2) = s1.dispatched(false);
    let tail = seq![StepView::<H>::Fence, StepView::Apply];
    lemma_put(s, end);
    lemma_dispatch(s1, false);
    lemma_concat(a, b);
    lemma_concat(a + b, tail);
    lemma_concat(seq![StepView::<H>::Fence], seq![StepView::<H>::Apply]);
    lemma_one(StepView::<H>::Fence);
    lemma_one(StepView::<H>::Apply);
    assert(seq![StepView::<H>::Fence] + seq![StepView::<H>::Apply] =~= tail);
    let steps = s.fenced(end).0;
    assert(dispatched_heaps(steps) =~= dispatched_heaps(b));
    assert(registered(steps) =~= registered(b));
    assert(put_ranges(steps) =~= put_ranges(a));
    assert(s.pending + Seq::<H>::empty() =~= s.pending);
    assert(s1.pending + Seq::<H>::empty() =~= s1.pending);
}

proof fn lemma_step<H>(s: ExecState<H>, item: ExecItem<H>, l: ExecLimits)
    ensures
        ({
            let (steps, t) = s.stepped(item, l);
            let taken = match item {
                ExecItem::Heap(h, _) => seq![h],
                _ => Seq::empty(),
            };
            progress(steps, s, t, taken, false)
        }),
        !(item is Heap) ==> {
            let (steps, t) = s.stepped(item, l);
            &&& t.pending.len() == 0
            &&& steps.len() >= 2
            &&& steps.last() == StepView::<H>::Apply
            &&& steps[steps.len() - 2] == StepView::<H>::Fence
        },
{
    match item {
        ExecItem::Control(row_idx) => {
            lemma_fence(s, row_idx);
        },
        ExecItem::Truncate => {
            let upto = if s.next_truncate < l.truncates.len() {
                l.truncates[s.next_truncate as int] as nat
            } else {
                s.cursor
            };
            lemma_fence(s, upto);
        },
        ExecItem::Heap(h, bytes) => {
            let m = ExecState {
                pending: s.pending.push(h),
                pending_bytes: crate::pipeline::reorder::add_clamped(s.pending_bytes, bytes),
                rows_total: s.rows_total + 1,
                ..s
            };
            assert(s.pending + seq![h] =~= m.pending);
            lemma_dispatch(m, false);
            assert(m.pending + Seq::<H>::empty() =~= m.pending);
            assert(dispatched_heaps(Seq::<StepView<H>>::empty()) + m.pending =~= m.pending);
        },
    }
}

proof fn lemma_run<H>(items: Seq<ExecItem<H>>, next_seq: nat, l: ExecLimits)
    ensures
        ({
            let (steps, s) = run(items, fresh(next_seq), l);
            &&& dispatched_heaps(steps) + s.pending == heaps_of(items)
            &&& s.next_seq == next_seq + registered(steps).len()
            &&& forall|i: int|
                0 <= i < registered(steps).len() ==> #[trigger] registered(steps)[i] == (
                    (next_seq + i) as nat,
                    false,
                )
            &&& tiles(put_ranges(steps), s.cursor)
        }),
    decreases items.len(),
{
    if items.len() == 0 {
        let (steps, s) = run(items, fresh::<H>(next_seq), l);
        assert(dispatched_heaps(steps) + s.pending =~= Seq::<H>::empty());
    } else {
        lemma_run(items.drop_last(), next_seq, l);
        let (steps, s) = run(items.drop_last(), fresh::<H>(next_seq), l);
        let (more, t) = s.stepped(items.last(), l);
        lemma_step(s, items.last(), l);
        lemma_concat(steps, more);
        let taken = match items.last() {
            ExecItem::Heap(h, _) => seq![h],
            _ => Seq::empty(),
        };
        let all = registered(steps + more);
        assert forall|i: int| 0 <= i < all.len() implies #[trigger] all[i] == (
            (next_seq + i) as nat,
            false,
        ) by {
            if i < registered(steps).len() {
                assert(all[i] == registered(steps)[i]);
            } else {
                assert(all[i] == registered(more)[i - registered(steps).len()]);
            }
        }
        assert(heaps_of(items) =~= heaps_of(items.drop_last()) + taken);
        assert(dispatched_heaps(steps + more) + t.pending =~= dispatched_heaps(steps) + (
        dispatched_heaps(more) + t.pending));
        assert(dispatched_heaps(steps) + (s.pending + taken) =~= (dispatched_heaps(steps)
            + s.pending) + taken);
        let ranges = put_ranges(steps) + put_ranges(more);
        if put_ranges(more).len() > 0 {
            assert(ranges.drop_last() =~= put_ranges(steps));
            assert(ranges.last() == (s.cursor, t.cursor));
        } else {
            assert(ranges =~= put_ranges(steps));
        }
    }
}

/// A plan's rows are dispatched in plan order, each once: none is lost and
/// none repeated.
pub proof fn every_row_is_dispatched_once<H>(
    items: Seq<ExecItem<H>>,
    l: ExecLimits,
    next_seq: nat,
    total_rows: nat,
)
    ensures
        dispatched_heaps(executed(items, l, next_seq, total_rows).0) == heaps_of(items),
        executed(items, l, next_seq, total_rows).1.pending.len() == 0,
{
    lemma_run(items, next_seq, l);
    let (steps, s) = run(items, fresh::<H>(next_seq), l);
    let (a, s1) = s.put(total_rows);
    let (b, s2) = s1.dispatched(true);
    lemma_put(s, total_rows);
    lemma_dispatch(s1, true);
    lemma_concat(a, b);
    lemma_concat(steps, a + b);
    assert(s.pending + Seq::<H>::empty() =~= s.pending);
    assert(s1.pending + Seq::<H>::empty() =~= s1.pending);
    assert(dispatched_heaps(a) + s1.pending =~= s.pending);
    assert(dispatched_heaps(a).len() == 0);
    assert(dispatched_heaps(b) + s2.pending =~= dispatched_heaps(b));
    assert(dispatched_heaps(a) + dispatched_heaps(b) =~= s.pending);
}

/// A commit's seqs are dense, and exactly the last one publishes its
/// position: the last slice if the plan ends in rows, else a marker.
pub proof fn commit_publishes_once_and_last<H>(
    items: Seq<ExecItem<H>>,
    l: ExecLimits,
    next_seq: nat,
    total_rows: nat,
)
    ensures
        commit_seqs(items, l, next_seq, total_rows).len() > 0,
        forall|i: int|
            0 <= i < commit_seqs(items, l, next_seq, total_rows).len() ==> #[trigger] commit_seqs(
                items,
                l,
                next_seq,
                total_rows,
            )[i] == ((next_seq + i) as nat, i == commit_seqs(items, l, next_seq, total_rows).len()
                - 1),
{
    lemma_run(items, next_seq, l);
    let (steps, s) = run(items, fresh::<H>(next_seq), l);
    let (a, s1) = s.put(total_rows);
    let (b, s2) = s1.dispatched(true);
    lemma_put(s, total_rows);
    lemma_dispatch(s1, true);
    lemma_concat(a, b);
    lemma_concat(steps, a + b);
    let all = registered(executed(items, l, next_seq, total_rows).0);
    assert(all =~= registered(steps) + registered(b));
    if s.pending.len() > 0 {
        lemma_one(
            StepView::Dispatch {
                seq: s1.next_seq,
                publish: true,
                heaps: s1.pending,
                bytes: s1.pending_bytes,
            },
        );
        assert(registered(b) =~= seq![(s.next_seq, true)]);
    } else {
        assert(registered(b) =~= Seq::empty());
    }
    let seqs = commit_seqs(items, l, next_seq, total_rows);
    assert forall|i: int| 0 <= i < seqs.len() implies #[trigger] seqs[i] == (
        (next_seq + i) as nat,
        i == seqs.len() - 1,
    ) by {
        if i < registered(steps).len() {
            assert(seqs[i] == registered(steps)[i]);
        }
    }
}

/// A control or truncate is applied right behind a fence, when every row
/// before it has been dispatched and none is pending.
pub proof fn controls_wait_for_earlier_rows<H>(
    before: Seq<ExecItem<H>>,
    control: ExecItem<H>,
    l: ExecLimits,
    next_seq: nat,
)
    requires
        !(control is Heap),
    ensures
        ({
            let (steps, s) = run(before.push(control), fresh(next_seq), l);
            &&& s.pending.len() == 0
            &&& dispatched_heaps(steps) == heaps_of(before)
            &&& steps.len() >= 2
            &&& steps.last() == StepView::<H>::Apply
            &&& steps[steps.len() - 2] == StepView::<H>::Fence
        }),
{
    let items = before.push(control);
    lemma_run(items, next_seq, l);
    assert(items.drop_last() =~= before);
    let (steps, s) = run(before, fresh::<H>(next_seq), l);
    lemma_step(s, control, l);
    let (more, t) = s.stepped(control, l);
    assert((steps + more).last() == more.last());
    assert((steps + more)[(steps + more).len() - 2] == more[more.len() - 2]);
    let all = run(items, fresh::<H>(next_seq), l);
    assert(dispatched_heaps(all.0) + all.1.pending =~= dispatched_heaps(all.0));
}

/// Mirror rows are put in order, each once, and by the end of the plan all of
/// them are.
pub proof fn mirror_rows_are_put_once_in_order<H>(
    items: Seq<ExecItem<H>>,
    l: ExecLimits,
    next_seq: nat,
    total_rows: nat,
)
    ensures
        tiles(
            put_ranges(executed(items, l, next_seq, total_rows).0),
            executed(items, l, next_seq, total_rows).1.cursor,
        ),
        executed(items, l, next_seq, total_rows).1.cursor >= total_rows,
{
    lemma_run(items, next_seq, l);
    let (steps, s) = run(items, fresh::<H>(next_seq), l);
    let (a, s1) = s.put(total_rows);
    let (b, s2) = s1.dispatched(true);
    lemma_put(s, total_rows);
    lemma_dispatch(s1, true);
    lemma_concat(a, b);
    lemma_concat(steps, a + b);
    let ranges = put_ranges(steps + (a + b));
    if put_ranges(a).len() > 0 {
        assert(ranges =~= put_ranges(steps) + put_ranges(a));
        assert(ranges.drop_last() =~= put_ranges(steps));
        assert(ranges.last() == (s.cursor, s1.cursor));
    } else {
        assert(ranges =~= put_ranges(steps));
    }
}

/// The slices of a range cover exactly the rows of the range that the batches
/// hold.
pub proof fn slices_cover_the_range(lens: Seq<usize>, from: nat, to: nat)
    ensures
        covered(put_slices(lens, from as int, to as int)) == (if from >= to || from >= total_len(
            lens,
        ) {
            0
        } else if to <= total_len(lens) {
            to - from
        } else {
            total_len(lens) - from
        }),
    decreases lens.len(),
{
    if lens.len() > 0 {
        slices_cover_the_range(lens.drop_last(), from, to);
        let rest = put_slices(lens.drop_last(), from as int, to as int);
        let all = put_slices(lens, from as int, to as int);
        let base = total_len(lens.drop_last()) as int;
        let n = lens.last() as int;
        let lo = if from > base {
            from as int
        } else {
            base
        };
        let hi = if to < base + n {
            to as int
        } else {
            base + n
        };
        if lo < hi {
            assert(all.drop_last() =~= rest);
        }
    }
}

/// Rows in a list of slices.
pub open spec fn covered(slices: Seq<(usize, usize, usize)>) -> int
    decreases slices.len(),
{
    if slices.len() == 0 {
        0
    } else {
        covered(slices.drop_last()) + (slices.last().2 - slices.last().1)
    }
}

} // verus!

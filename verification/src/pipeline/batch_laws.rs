//! What a sealed batch holds, what any run of rows leaves in the tables, and
//! what a flush leaves behind.
use vstd::prelude::*;

use crate::columns::CellView;
use crate::encoder::{appended_cell, cell_at, filled};
use crate::pipeline::batch_hub::{
    batch_ok, batches_ok, handled, held, joined, lemma_shipped_concat, rows_of, shipped,
    within_budgets, Batcher,
};
use crate::pipeline::batcher::{
    counted_row, lemma_counted_row, op_code, seq_rows, BatcherConfig, InsertBatch, RoutedRow,
    Table,
};

verus! {

/// The table takes the rows one after another, from empty on: `trace[i]` is
/// the table before row `i`, which came under `permits[i]` and would set
/// `deadlines[i]`.
pub open spec fn is_gathering(
    trace: Seq<Table>,
    rows: Seq<RoutedRow>,
    permits: Seq<Option<u64>>,
    deadlines: Seq<u64>,
) -> bool {
    &&& trace.len() == rows.len() + 1
    &&& permits.len() == rows.len()
    &&& deadlines.len() == rows.len()
    &&& trace[0].enc.rows == 0
    &&& forall|i: int| 0 <= i < trace.len() ==> (#[trigger] trace[i]).wf()
    &&& forall|i: int| 0 <= i < rows.len() ==> takes(
        trace[i],
        #[trigger] rows[i],
        permits[i],
        deadlines[i],
        trace[i + 1],
    )
}

/// `after` is `before` with the row.
pub open spec fn takes(
    before: Table,
    row: RoutedRow,
    permit: Option<u64>,
    deadline: u64,
    after: Table,
) -> bool {
    &&& row.route.mapping.columns@.len() == before.enc.plan.columns@.len()
    &&& before.enc.rows < usize::MAX
    &&& match op_code(row.committed.decoded.op) {
        Some(op) => after.took_row(before, row, op, permit, deadline),
        None => false,
    }
}

/// The cell that a row gives column `c` of the table: the encoded value of a
/// mapped column, or one of the appended cells.
pub open spec fn cell_of(t: Table, row: RoutedRow, c: int) -> CellView {
    let n = row.route.mapping.columns@.len();
    if c < n {
        cell_at(
            t.enc.plan.columns@,
            t.enc.buffers@,
            row.committed.decoded,
            row.route.mapping.columns@,
            c,
        )->Ok_0
    } else {
        appended_cell(
            row.committed,
            match op_code(row.committed.decoded.op) {
                Some(op) => op,
                None => 0,
            },
            c - n,
        )
    }
}

proof fn lemma_gathered(
    trace: Seq<Table>,
    rows: Seq<RoutedRow>,
    permits: Seq<Option<u64>>,
    deadlines: Seq<u64>,
    k: int,
)
    requires
        is_gathering(trace, rows, permits, deadlines),
        0 <= k <= rows.len(),
    ensures
        trace[k].enc.rows == k,
        trace[k].enc.buffers@.len() == trace[0].enc.buffers@.len(),
        forall|c: int, i: int|
            0 <= c < trace[k].enc.buffers@.len() && 0 <= i < k
                ==> #[trigger] trace[k].enc.buffers@[c].rows()[i] == cell_of(trace[i], rows[i], c),
        forall|s: u64|
            #[trigger] seq_rows(trace[k].seq_counts@, s) == rows_of(rows.subrange(0, k), s),
    decreases k,
{
    let t = trace[k];
    assert(t.wf());
    if k == 0 {
        assert(rows.subrange(0, 0) =~= Seq::empty());
        assert forall|s: u64| #[trigger] seq_rows(t.seq_counts@, s) == 0 by {
            lemma_counts_nothing(t.seq_counts@, s);
        }
    } else {
        lemma_gathered(trace, rows, permits, deadlines, k - 1);
        let p = trace[k - 1];
        let row = rows[k - 1];
        let m = row.route.mapping;
        let op = op_code(row.committed.decoded.op)->0;
        assert(p.wf());
        assert(takes(p, row, permits[k - 1], deadlines[k - 1], trace[k - 1 + 1]));
        assert(p.enc.grew_to(t.enc, row.committed, m, op));
        assert forall|c: int, i: int|
            0 <= c < t.enc.buffers@.len() && 0 <= i
                < k implies #[trigger] t.enc.buffers@[c].rows()[i] == cell_of(
            trace[i],
            rows[i],
            c,
        ) by {
            let n = m.columns@.len();
            if c < n {
                assert(filled(
                    p.enc.plan.columns@,
                    p.enc.buffers@,
                    row.committed.decoded,
                    m.columns@,
                    c,
                    t.enc.buffers@[c],
                    p.enc.limits.cell_header,
                ));
            }
            assert(p.enc.buffers@[c].rows().len() == k - 1);
            assert(t.enc.buffers@[c].rows() == p.enc.buffers@[c].rows().push(
                cell_of(p, row, c),
            ));
            if i < k - 1 {
                assert(p.enc.buffers@[c].rows()[i] == cell_of(trace[i], rows[i], c));
            }
        }
        let part = rows.subrange(0, k);
        assert(part.drop_last() =~= rows.subrange(0, k - 1));
        assert(part.last() == row);
        lemma_counted_row(p.seq_counts@, row.seq);
        assert forall|s: u64| #[trigger] seq_rows(t.seq_counts@, s) == rows_of(part, s) by {
            assert(t.seq_counts@ == counted_row(p.seq_counts@, row.seq));
            assert(seq_rows(p.seq_counts@, s) == rows_of(rows.subrange(0, k - 1), s));
        }
    }
}

proof fn lemma_counts_nothing(counts: Seq<(u64, u64)>, s: u64)
    requires
        crate::pipeline::batcher::all_rows(counts) == 0,
    ensures
        seq_rows(counts, s) == 0,
    decreases counts.len(),
{
    if counts.len() > 0 {
        lemma_counts_nothing(counts.drop_last(), s);
    }
}

/// A batch holds the rows that its table took since it was last empty, in
/// order and each with its values, and counts them under their transactions.
pub proof fn sealed_batch_holds_its_rows(
    trace: Seq<Table>,
    rows: Seq<RoutedRow>,
    permits: Seq<Option<u64>>,
    deadlines: Seq<u64>,
    b: InsertBatch,
)
    requires
        is_gathering(trace, rows, permits, deadlines),
        trace[rows.len() as int].sealed_as(b),
    ensures
        b.n_rows == rows.len(),
        forall|c: int, i: int|
            0 <= c < b.buffers@.len() && 0 <= i < rows.len()
                ==> #[trigger] b.buffers@[c].rows()[i] == cell_of(trace[i], rows[i], c),
        forall|s: u64| #[trigger] seq_rows(b.per_seq@, s) == rows_of(rows, s),
{
    let n = rows.len() as int;
    lemma_gathered(trace, rows, permits, deadlines, n);
    assert(rows.subrange(0, n) =~= rows);
}

/// A row that the batcher is handed, with the budgets, the time and the permit
/// that apply to it.
pub struct RowCall {
    pub cfg: BatcherConfig,
    pub now: u64,
    pub row: RoutedRow,
    pub permit: Option<u64>,
}

pub open spec fn called_rows(calls: Seq<RowCall>) -> Seq<RoutedRow> {
    calls.map_values(|c: RowCall| c.row)
}

/// `states` are those of a batcher that takes one row after another, and
/// `outs` what each of them makes it hand out.
pub open spec fn is_row_run(
    states: Seq<Batcher>,
    calls: Seq<RowCall>,
    outs: Seq<Seq<InsertBatch>>,
) -> bool {
    &&& states.len() == calls.len() + 1
    &&& outs.len() == calls.len()
    &&& forall|i: int|
        0 <= i < calls.len() ==> handled(
            states[i],
            (#[trigger] calls[i]).cfg,
            calls[i].now,
            calls[i].row,
            calls[i].permit,
            states[i + 1],
            outs[i],
        )
}

/// Whatever rows a batcher takes that started empty, every one of them is
/// counted once, in a batch that was handed out or in an open table; a batch
/// has rows, and its counts add up to them; and after every row its table
/// holds fewer rows than the row budget allows.
pub proof fn taken_rows_are_handed_out_or_held(
    states: Seq<Batcher>,
    calls: Seq<RowCall>,
    outs: Seq<Seq<InsertBatch>>,
)
    requires
        is_row_run(states, calls, outs),
        states[0].tables@.len() == 0,
    ensures
        forall|s: u64| #[trigger]
            rows_of(called_rows(calls), s) == shipped(joined(outs), s) + held(
                states.last().tables@,
                s,
            ),
        batches_ok(joined(outs)),
        forall|i: int, k: int|
            #![trigger calls[i], states[i + 1].tables@[k]]
            0 <= i < calls.len() && 0 <= k < states[i + 1].tables@.len() && states[i
                + 1].tables@[k].key@ == calls[i].row.rel.rel_name@ ==> states[i
                + 1].tables@[k].enc.rows < (if calls[i].cfg.row_budget == 0 {
                1
            } else {
                calls[i].cfg.row_budget
            }),
    decreases calls.len(),
{
    let n = calls.len() - 1;
    let rows = called_rows(calls);
    assert forall|i: int, k: int|
        #![trigger calls[i], states[i + 1].tables@[k]]
        0 <= i < calls.len() && 0 <= k < states[i + 1].tables@.len() && states[i
            + 1].tables@[k].key@ == calls[i].row.rel.rel_name@ implies states[i
        + 1].tables@[k].enc.rows < (if calls[i].cfg.row_budget == 0 {
        1
    } else {
        calls[i].cfg.row_budget
    }) by {
        assert(within_budgets(states[i + 1], calls[i].cfg, calls[i].row.rel.rel_name@));
    }
    if calls.len() > 0 {
        let states0 = states.drop_last();
        let calls0 = calls.drop_last();
        let outs0 = outs.drop_last();
        assert forall|i: int| 0 <= i < calls0.len() implies handled(
            states0[i],
            (#[trigger] calls0[i]).cfg,
            calls0[i].now,
            calls0[i].row,
            calls0[i].permit,
            states0[i + 1],
            outs0[i],
        ) by {
            assert(calls[i] == calls0[i]);
        }
        taken_rows_are_handed_out_or_held(states0, calls0, outs0);
        let c = calls[n];
        assert(handled(states[n], c.cfg, c.now, c.row, c.permit, states[n + 1], outs[n]));
        assert(joined(outs) == joined(outs0) + outs.last());
        assert(called_rows(calls0) =~= rows.drop_last());
        assert(rows.last() == c.row);
        assert(states0.last() == states[n]);
        assert(states.last() == states[n + 1]);
        assert forall|s: u64| #[trigger] rows_of(rows, s) == shipped(joined(outs), s) + held(
            states.last().tables@,
            s,
        ) by {
            lemma_shipped_concat(joined(outs0), outs.last(), s);
            assert(rows_of(called_rows(calls0), s) == shipped(joined(outs0), s) + held(
                states0.last().tables@,
                s,
            ));
        }
        assert forall|k: int| 0 <= k < joined(outs).len() implies batch_ok(
            #[trigger] joined(outs)[k],
        ) by {
            let first = joined(outs0);
            if k < first.len() {
                assert(batch_ok(first[k]));
            } else {
                assert(batch_ok(outs.last()[k - first.len()]));
            }
        }
    } else {
        assert forall|s: u64| #[trigger] rows_of(rows, s) == shipped(joined(outs), s) + held(
            states.last().tables@,
            s,
        ) by {}
    }
}

/// One thing that happens to the batcher: it takes rows, and hands batches
/// out.
pub struct HubStep {
    pub before: Batcher,
    pub rows: Seq<RoutedRow>,
    pub out: Seq<InsertBatch>,
    pub after: Batcher,
}

/// Rows come in, and every row is held or handed out: what taking rows, a
/// deadline and a flush have in common.
pub open spec fn conserves(step: HubStep) -> bool {
    forall|s: u64|
        #[trigger] held(step.after.tables@, s) + shipped(step.out, s) == held(
            step.before.tables@,
            s,
        ) + rows_of(step.rows, s)
}

/// Rows of `s` that the steps took.
pub open spec fn rows_taken(steps: Seq<HubStep>, s: u64) -> nat
    decreases steps.len(),
{
    if steps.len() == 0 {
        0
    } else {
        rows_taken(steps.drop_last(), s) + rows_of(steps.last().rows, s)
    }
}

/// Rows of `s` that the steps handed out.
pub open spec fn rows_handed_out(steps: Seq<HubStep>, s: u64) -> nat
    decreases steps.len(),
{
    if steps.len() == 0 {
        0
    } else {
        rows_handed_out(steps.drop_last(), s) + shipped(steps.last().out, s)
    }
}

pub open spec fn is_hub_course(steps: Seq<HubStep>) -> bool {
    &&& forall|i: int| 0 <= i < steps.len() ==> conserves(#[trigger] steps[i])
    &&& forall|i: int, j: int|
        0 <= i && j == i + 1 && j < steps.len() ==> (#[trigger] steps[i]).after == (
        #[trigger] steps[j]).before
}

/// Whatever rows, deadlines and flushes come, every row is held or was handed
/// out, and none twice.
pub proof fn rows_are_neither_lost_nor_doubled(steps: Seq<HubStep>, s: u64)
    requires
        is_hub_course(steps),
        steps.len() > 0,
    ensures
        held(steps.last().after.tables@, s) + rows_handed_out(steps, s) == held(
            steps[0].before.tables@,
            s,
        ) + rows_taken(steps, s),
    decreases steps.len(),
{
    let n = steps.len() - 1;
    assert(conserves(steps[n]));
    assert(held(steps[n].after.tables@, s) + shipped(steps[n].out, s) == held(
        steps[n].before.tables@,
        s,
    ) + rows_of(steps[n].rows, s));
    if n == 0 {
        let none = steps.drop_last();
        assert(none.len() == 0);
        assert(rows_taken(none, s) == 0 && rows_handed_out(none, s) == 0);
    } else {
        let rest = steps.drop_last();
        assert forall|i: int| 0 <= i < rest.len() implies conserves(#[trigger] rest[i]) by {
            assert(rest[i] == steps[i]);
        }
        assert forall|i: int, j: int|
            0 <= i && j == i + 1 && j < rest.len() implies (#[trigger] rest[i]).after == (
        #[trigger] rest[j]).before by {
            assert(rest[i] == steps[i] && rest[j] == steps[j]);
        }
        rows_are_neither_lost_nor_doubled(rest, s);
        assert(rest.last() == steps[n - 1]);
        assert(steps[n - 1].after == steps[n].before);
    }
}

/// A batcher that started empty and has just been flushed has handed out
/// every row it took, each of them once.
pub proof fn flushed_batcher_has_handed_out_every_row(steps: Seq<HubStep>, s: u64)
    requires
        is_hub_course(steps),
        steps.len() > 0,
        steps[0].before.tables@.len() == 0,
        steps.last().after.tables@.len() == 0,
    ensures
        rows_handed_out(steps, s) == rows_taken(steps, s),
{
    rows_are_neither_lost_nor_doubled(steps, s);
}

} // verus!

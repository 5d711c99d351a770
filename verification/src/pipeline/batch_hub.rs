//! Every open table of the batcher, and when each is sealed.
use std::sync::Arc;
use vstd::prelude::*;
use vstd::string::*;

use crate::columns::{shape_of, ColumnBuf};
use crate::encoder::{buf_fits, empty_blocks_judge_alike, shapeless, OracleLimits, TableEncoder, Verdict};
use crate::errors::ErrorView;
use crate::oracle::clamp;
use crate::pipeline::batcher::{
    all_rows, counted_row, lemma_counted_row, meta_columns, meta_views, op_code, seq_rows, wire_op,
    BatchMeta, BatcherConfig, InsertBatch, RoutedRow, RowChunk, Table,
};
use crate::plan::{plan_built, plan_refused, planned_at, ColumnPlanView, TablePlan, TablePlanView};
use crate::schema::{RelKey, RelName};

verus! {

/// The open tables, every relation at most once.
pub struct Batcher {
    pub tables: Vec<Table>,
    /// Grows with every barrier, so that inserters rebuild what they cached.
    pub epoch: u64,
    /// Bytes that the open tables hold.
    pub partial_bytes: u128,
    /// An insert is sealed at this size, so that every inserter gets one.
    pub batch_limit: usize,
    /// Size of the pool for encoded bytes.
    pub pool: usize,
    pub limits: OracleLimits,
}

/// Rows of `seq` in open tables.
pub open spec fn held(tables: Seq<Table>, seq: u64) -> nat
    decreases tables.len(),
{
    if tables.len() == 0 {
        0
    } else {
        held(tables.drop_last(), seq) + seq_rows(tables.last().seq_counts@, seq)
    }
}

/// Rows of `seq` in sealed batches.
pub open spec fn shipped(batches: Seq<InsertBatch>, seq: u64) -> nat
    decreases batches.len(),
{
    if batches.len() == 0 {
        0
    } else {
        shipped(batches.drop_last(), seq) + seq_rows(batches.last().per_seq@, seq)
    }
}

/// Bytes that the open tables hold.
pub open spec fn allocated(tables: Seq<Table>) -> nat
    decreases tables.len(),
{
    if tables.len() == 0 {
        0
    } else {
        allocated(tables.drop_last()) + tables.last().allocated_bytes as nat
    }
}

/// The tables that have rows, in order.
pub open spec fn open_tables(tables: Seq<Table>) -> Seq<Table>
    decreases tables.len(),
{
    if tables.len() == 0 {
        Seq::empty()
    } else if tables.last().enc.rows > 0 {
        open_tables(tables.drop_last()).push(tables.last())
    } else {
        open_tables(tables.drop_last())
    }
}

/// A batch carries rows, its counts cover them, and every column has as many.
pub open spec fn batch_ok(b: InsertBatch) -> bool {
    &&& b.n_rows > 0
    &&& all_rows(b.per_seq@) == b.n_rows
    &&& forall|i: int|
        0 <= i < b.buffers@.len() ==> (#[trigger] b.buffers@[i]).wf() && b.buffers@[i].rows().len()
            == b.n_rows
}

pub open spec fn batches_ok(batches: Seq<InsertBatch>) -> bool {
    forall|i: int| 0 <= i < batches.len() ==> batch_ok(#[trigger] batches[i])
}

/// Where the relation's table is, or the number of tables.
pub open spec fn slot_of(tables: Seq<Table>, key: RelKey) -> nat
    decreases tables.len(),
{
    if tables.len() == 0 {
        0
    } else {
        let i = slot_of(tables.drop_last(), key);
        if i < tables.len() - 1 {
            i
        } else if tables.last().key@ == key {
            (tables.len() - 1) as nat
        } else {
            tables.len()
        }
    }
}

/// Every table is in order, and no two are of one relation.
pub open spec fn tables_ok(tables: Seq<Table>, limits: OracleLimits) -> bool {
    &&& forall|i: int|
        0 <= i < tables.len() ==> (#[trigger] tables[i]).wf() && tables[i].enc.limits == limits
    &&& forall|i: int, j: int|
        0 <= i < j < tables.len() ==> (#[trigger] tables[i]).key@ != (#[trigger] tables[j]).key@
}

/// Whether a table is sealed after a row, and whether all of them are.
pub open spec fn seal_rule(
    cfg: BatcherConfig,
    batch_limit: usize,
    pool: usize,
    rows: usize,
    bytes: usize,
    partial: nat,
) -> (bool, bool) {
    let limit = if cfg.byte_budget <= batch_limit {
        cfg.byte_budget
    } else {
        batch_limit
    };
    let seals = rows >= cfg.row_budget || bytes >= limit;
    let left = if seals {
        (partial - bytes) as nat
    } else {
        partial
    };
    let shared = if cfg.byte_budget <= pool {
        cfg.byte_budget
    } else {
        pool
    };
    (seals, left >= shared)
}

/// Whether a table that holds `rows` rows in `bytes` bytes is sealed, and
/// whether all tables are: the row budget and the byte limit of one insert
/// seal the table, the byte budget that partial tables share seals all.
pub fn seal_decision(
    cfg: &BatcherConfig,
    batch_limit: usize,
    pool: usize,
    rows: usize,
    bytes: usize,
    partial: u128,
) -> (r: (bool, bool))
    requires
        bytes <= partial,
    ensures
        r == seal_rule(*cfg, batch_limit, pool, rows, bytes, partial as nat),
{
    let limit: usize = if cfg.byte_budget <= batch_limit {
        cfg.byte_budget
    } else {
        batch_limit
    };
    let seals: bool = rows >= cfg.row_budget || bytes >= limit;
    let left: u128 = if seals {
        partial - bytes as u128
    } else {
        partial
    };
    let shared: usize = if cfg.byte_budget <= pool {
        cfg.byte_budget
    } else {
        pool
    };
    (seals, left >= shared as u128)
}

pub(crate) proof fn lemma_slot(tables: Seq<Table>, key: RelKey)
    ensures
        slot_of(tables, key) <= tables.len(),
        slot_of(tables, key) < tables.len() ==> tables[slot_of(tables, key) as int].key@ == key,
        forall|i: int| 0 <= i < slot_of(tables, key) ==> (#[trigger] tables[i]).key@ != key,
    decreases tables.len(),
{
    if tables.len() > 0 {
        let rest = tables.drop_last();
        lemma_slot(rest, key);
        assert forall|i: int| 0 <= i < slot_of(tables, key) implies (
        #[trigger] tables[i]).key@ != key by {
            if i < rest.len() {
                assert(rest[i] == tables[i]);
            }
        }
        if slot_of(rest, key) < rest.len() {
            assert(rest[slot_of(rest, key) as int] == tables[slot_of(rest, key) as int]);
        }
    }
}

proof fn lemma_held_update(tables: Seq<Table>, i: int, t: Table, seq: u64)
    requires
        0 <= i < tables.len(),
    ensures
        held(tables.update(i, t), seq) + seq_rows(tables[i].seq_counts@, seq) == held(tables, seq)
            + seq_rows(t.seq_counts@, seq),
        seq_rows(tables[i].seq_counts@, seq) <= held(tables, seq),
    decreases tables.len(),
{
    let n = tables.len() - 1;
    let next = tables.update(i, t);
    if i < n {
        lemma_held_update(tables.drop_last(), i, t, seq);
        assert(next.drop_last() =~= tables.drop_last().update(i, t));
        assert(tables.drop_last()[i] == tables[i]);
    } else {
        assert(next.drop_last() =~= tables.drop_last());
    }
}

proof fn lemma_allocated_update(tables: Seq<Table>, i: int, t: Table)
    requires
        0 <= i < tables.len(),
    ensures
        allocated(tables.update(i, t)) + tables[i].allocated_bytes == allocated(tables)
            + t.allocated_bytes,
        tables[i].allocated_bytes <= allocated(tables),
    decreases tables.len(),
{
    let n = tables.len() - 1;
    let next = tables.update(i, t);
    if i < n {
        lemma_allocated_update(tables.drop_last(), i, t);
        assert(next.drop_last() =~= tables.drop_last().update(i, t));
        assert(tables.drop_last()[i] == tables[i]);
    } else {
        assert(next.drop_last() =~= tables.drop_last());
    }
}

proof fn lemma_shipped_push(batches: Seq<InsertBatch>, b: InsertBatch, seq: u64)
    ensures
        shipped(batches.push(b), seq) == shipped(batches, seq) + seq_rows(b.per_seq@, seq),
{
    assert(batches.push(b).drop_last() =~= batches);
}

/// Counts that cover no row count none of any transaction.
proof fn lemma_no_rows(counts: Seq<(u64, u64)>, seq: u64)
    requires
        all_rows(counts) == 0,
    ensures
        seq_rows(counts, seq) == 0,
    decreases counts.len(),
{
    if counts.len() > 0 {
        lemma_no_rows(counts.drop_last(), seq);
    }
}

proof fn lemma_buffers_wf(e: TableEncoder)
    requires
        e.wf(),
    ensures
        forall|i: int|
            0 <= i < e.buffers@.len() ==> (#[trigger] e.buffers@[i]).wf()
                && e.buffers@[i].rows().len() == e.rows,
{
    assert forall|i: int| 0 <= i < e.buffers@.len() implies (#[trigger] e.buffers@[i]).wf() by {
        if i < e.plan.columns@.len() {
            assert(buf_fits(e.plan.columns@[i]@, e.buffers@[i], e.limits.cell_header));
        }
    }
}

proof fn lemma_allocated_bound(tables: Seq<Table>)
    ensures
        allocated(tables) <= tables.len() * usize::MAX,
    decreases tables.len(),
{
    if tables.len() > 0 {
        lemma_allocated_bound(tables.drop_last());
        assert(tables.len() * usize::MAX == (tables.len() - 1) * usize::MAX + usize::MAX)
            by (nonlinear_arith);
    }
}

/// Bytes that a table's buffers hold.
fn buffers_bytes(bufs: &Vec<ColumnBuf>) -> (n: usize)
    requires
        forall|i: int| 0 <= i < bufs@.len() ==> (#[trigger] bufs@[i]).wf(),
    ensures
        covers(n, bufs@),
{
    let mut sum: usize = 0;
    let mut i: usize = 0;
    while i < bufs.len()
        invariant
            i <= bufs@.len(),
            forall|k: int| 0 <= k < bufs@.len() ==> (#[trigger] bufs@[k]).wf(),
            covers(sum, bufs@.subrange(0, i as int)),
        decreases bufs@.len() - i,
    {
        let bytes: usize = bufs[i].allocated_bytes();
        proof {
            let part = bufs@.subrange(0, i as int + 1);
            assert(part.drop_last() =~= bufs@.subrange(0, i as int));
            lemma_covers_more(sum, bytes, part);
        }
        sum = sum.saturating_add(bytes);
        i = i + 1;
    }
    proof {
        assert(bufs@.subrange(0, i as int) =~= bufs@);
    }
    sum
}

/// What the buffers use.
pub open spec fn buffers_size(bufs: Seq<ColumnBuf>) -> nat
    decreases bufs.len(),
{
    if bufs.len() == 0 {
        0
    } else {
        buffers_size(bufs.drop_last()) + bufs.last().size()
    }
}

/// `n` bytes account for the buffers: no less than they use, and just that
/// where all of them hold cells for the oracle. How much more a slab holds is
/// the allocator's choice.
pub open spec fn covers(n: usize, bufs: Seq<ColumnBuf>) -> bool {
    &&& n >= clamp(buffers_size(bufs))
    &&& (forall|i: int| 0 <= i < bufs.len() ==> #[trigger] bufs[i] is Oracle) ==> n == clamp(
        buffers_size(bufs),
    )
}

proof fn lemma_covers_more(sum: usize, bytes: usize, bufs: Seq<ColumnBuf>)
    requires
        bufs.len() > 0,
        covers(sum, bufs.drop_last()),
        bytes >= clamp(bufs.last().size()),
        bufs.last() is Oracle ==> bytes == bufs.last().size(),
    ensures
        covers(clamp((sum + bytes) as nat), bufs),
{
    let rest = bufs.drop_last();
    if forall|i: int| 0 <= i < bufs.len() ==> #[trigger] bufs[i] is Oracle {
        assert(bufs[bufs.len() - 1] is Oracle);
        assert forall|i: int| 0 <= i < rest.len() implies #[trigger] rest[i] is Oracle by {
            assert(bufs[i] is Oracle);
        }
    }
}

/// A table for `row`'s relation could be opened: its columns plan.
pub open spec fn opens(row: RoutedRow, t: Table, epoch: u64, limits: OracleLimits) -> bool {
    &&& t.wf()
    &&& t.key@ == row.rel.rel_name@
    &&& t.enc.rows == 0
    &&& t.enc.limits == limits
    &&& t.allocated_bytes == 0
    &&& t.seq_counts@.len() == 0
    &&& t.slice_permits@.len() == 0
    &&& t.value_permits@.len() == 0
    &&& plan_built(
        *row.rel,
        row.route.mapping,
        row.route.types@,
        row.route.system@,
        t.enc.plan@,
    )
    &&& t.meta.schema_epoch == epoch
    &&& t.meta.table_key@ == row.rel.rel_name@
    &&& t.meta.insert_sql@ == t.enc.plan@.insert_sql
    &&& meta_views(t.meta.columns@) == meta_columns(t.enc.plan@)
}

/// Open a table for the row's relation.
fn open_table(row: &RoutedRow, epoch: u64, limits: OracleLimits) -> (r: Result<Table, String>)
    requires
        row.route.wf(),
        limits.seal_bytes < usize::MAX,
        limits.max_request_bytes < usize::MAX,
    ensures
        match r {
            Ok(t) => opens(*row, t, epoch, limits),
            Err(text) => open_refused(*row, text@),
        },
{
    let plan = match TablePlan::build(
        &row.rel,
        &row.route.mapping,
        &row.route.types,
        &row.route.system,
    ) {
        Ok(p) => p,
        Err(e) => {
            return Err(e.to_text());
        },
    };
    let meta = BatchMeta::from_plan(&plan, row.rel.rel_name.copied(), epoch);
    match TableEncoder::new(plan, limits) {
        Err(e) => Err(e.to_text()),
        Ok(enc) => Ok(
            Table {
                key: row.rel.rel_name.copied(),
                enc,
                allocated_bytes: 0,
                meta: Arc::new(meta),
                seq_counts: Vec::new(),
                slice_permits: Vec::new(),
                value_permits: Vec::new(),
                deadline: None,
            },
        ),
    }
}

/// `text` says why no table can be opened for the row: a column does not
/// plan, or a planned column has no buffer shape.
pub open spec fn open_refused(row: RoutedRow, text: Seq<char>) -> bool {
    ||| exists|e: ErrorView| #[trigger]
        plan_refused(*row.rel, row.route.mapping, row.route.types@, e) && text == e.text()
    ||| exists|p: TablePlan|
        {
            &&& #[trigger] shapeless(p.columns@)
            &&& plan_built(
                *row.rel,
                row.route.mapping,
                row.route.types@,
                row.route.system@,
                p@,
            )
            &&& text == ErrorView::Type("Nullable type with no child"@).text()
        }
}

/// The table takes the row, sealed first if it has to be.
pub open spec fn admits(t: Table, row: RoutedRow) -> bool {
    &&& op_code(row.committed.decoded.op) is Some
    &&& match t.enc.verdict(row.committed, row.route.mapping) {
        Verdict::Done => true,
        Verdict::Full => exists|mid: Table| #[trigger]
            mid.emptied_from(t) && mid.wf() && mid.enc.verdict(
                row.committed,
                row.route.mapping,
            ) is Done,
        _ => false,
    }
}

pub open spec fn verdict_text(v: Verdict, text: Seq<char>) -> bool {
    match v {
        Verdict::Refused(e) => text == e.text(),
        Verdict::Torn(_, e) => text == e.text(),
        _ => false,
    }
}

/// The table refuses the row with `text`.
pub open spec fn rejects(t: Table, row: RoutedRow, text: Seq<char>) -> bool {
    if op_code(row.committed.decoded.op) is None {
        text == "TRUNCATE routed to batcher"@
    } else {
        let v = t.enc.verdict(row.committed, row.route.mapping);
        verdict_text(v, text) || (v is Full && exists|mid: Table| #[trigger]
            mid.emptied_from(t) && mid.wf() && verdict_text(
                mid.enc.verdict(row.committed, row.route.mapping),
                text,
            ))
    }
}

/// `post` is what a refused row leaves of `t`, which is emptied first if it
/// was full.
pub open spec fn abandoned(t: Table, row: RoutedRow, post: Table) -> bool {
    if op_code(row.committed.decoded.op) is None {
        post == t
    } else if t.enc.verdict(row.committed, row.route.mapping) is Full {
        exists|mid: Table| #[trigger]
            mid.emptied_from(t) && mid.wf() && post.left_by(mid, row)
    } else {
        post.left_by(t, row)
    }
}

/// `grown` is `t` with the row, sealed and emptied first if it was full.
pub open spec fn entered(
    t: Table,
    row: RoutedRow,
    slice_permit: Option<u64>,
    deadline: u64,
    grown: Table,
) -> bool {
    match op_code(row.committed.decoded.op) {
        None => false,
        Some(op) => match t.enc.verdict(row.committed, row.route.mapping) {
            Verdict::Done => grown.took_row(t, row, op, slice_permit, deadline),
            Verdict::Full => exists|mid: Table| #[trigger]
                mid.emptied_from(t) && mid.wf() && mid.enc.verdict(
                    row.committed,
                    row.route.mapping,
                ) is Done && grown.took_row(mid, row, op, slice_permit, deadline),
            _ => false,
        },
    }
}

/// The tables with `t` in place `i`, behind all others if there is none.
pub open spec fn tables_with(tables: Seq<Table>, i: nat, t: Table) -> Seq<Table> {
    if i < tables.len() {
        tables.update(i as int, t)
    } else {
        tables.push(t)
    }
}

/// The batches are what the tables held, one each and in order.
pub open spec fn sealed_from(batches: Seq<InsertBatch>, tables: Seq<Table>) -> bool {
    &&& batches.len() == tables.len()
    &&& forall|k: int|
        0 <= k < batches.len() ==> tables[k].sealed_as(#[trigger] batches[k])
}

/// The table, if it has to be sealed before it takes the row.
pub open spec fn turned_over(t: Table, row: RoutedRow) -> Option<Table> {
    if t.enc.verdict(row.committed, row.route.mapping) is Full {
        Some(t)
    } else {
        None
    }
}

/// The tables that a row seals, in order: its own if that was full, its own
/// again if it reached a budget, and all that have rows if they share too
/// many bytes.
pub open spec fn sealed_by_row(
    full: Option<Table>,
    tables: Seq<Table>,
    i: int,
    seals: (bool, bool),
) -> Seq<Table> {
    (match full {
        Some(t) => seq![t],
        None => Seq::empty(),
    }) + (if seals.0 {
        seq![tables[i]]
    } else {
        Seq::empty()
    }) + (if seals.1 {
        open_tables(
            if seals.0 {
                tables.remove(i)
            } else {
                tables
            },
        )
    } else {
        Seq::empty()
    })
}

/// What taking a row makes of the batcher and hands out: the row enters `t`,
/// which becomes `grown` and is counted anew, and what reached a budget is
/// sealed.
pub open spec fn row_taken(
    pre: Batcher,
    cfg: BatcherConfig,
    now: u64,
    row: RoutedRow,
    slice_permit: Option<u64>,
    t: Table,
    grown: Table,
    post: Batcher,
    batches: Seq<InsertBatch>,
) -> bool {
    let i = slot_of(pre.tables@, row.rel.rel_name@);
    let tables = tables_with(pre.tables@, i, grown);
    let seals = seal_rule(
        cfg,
        pre.batch_limit,
        pre.pool,
        grown.enc.rows,
        grown.allocated_bytes,
        allocated(tables),
    );
    &&& pre.goes_to(row, t)
    &&& entered(t, row, slice_permit, (now + cfg.flush_timeout) as u64, grown)
    &&& covers(grown.allocated_bytes, grown.enc.buffers@)
    &&& sealed_from(
        batches,
        sealed_by_row(
            turned_over(t, row),
            tables,
            i as int,
            seals,
        ),
    )
    &&& post == (Batcher { tables: post.tables, partial_bytes: post.partial_bytes, ..pre })
    &&& post.tables@.len() == tables.len()
    &&& forall|k: int|
        0 <= k < tables.len() ==> if seals.1 || (seals.0 && k == i) {
            (#[trigger] post.tables@[k]).emptied_from(tables[k])
        } else {
            post.tables@[k] == tables[k]
        }
}

/// The batcher took the row.
pub open spec fn took(
    pre: Batcher,
    cfg: BatcherConfig,
    now: u64,
    row: RoutedRow,
    slice_permit: Option<u64>,
    post: Batcher,
    batches: Seq<InsertBatch>,
) -> bool {
    exists|t: Table, grown: Table| #[trigger]
        row_taken(pre, cfg, now, row, slice_permit, t, grown, post, batches)
}

/// What holds once the batcher has taken a row: the row is held or handed out
/// like every other, and nothing that is held exceeds a budget.
pub open spec fn handled(
    pre: Batcher,
    cfg: BatcherConfig,
    now: u64,
    row: RoutedRow,
    slice_permit: Option<u64>,
    post: Batcher,
    batches: Seq<InsertBatch>,
) -> bool {
    &&& post.wf()
    &&& took(pre, cfg, now, row, slice_permit, post, batches)
    &&& batches_ok(batches)
    &&& forall|s: u64|
        #![trigger held(post.tables@, s)]
        held(post.tables@, s) + shipped(batches, s) == held(pre.tables@, s) + (if s == row.seq {
            1nat
        } else {
            0
        })
    &&& within_budgets(post, cfg, row.rel.rel_name@)
    &&& others_kept(pre, post, row)
}

/// All batches of `outs`, in order.
pub open spec fn joined(outs: Seq<Seq<InsertBatch>>) -> Seq<InsertBatch>
    decreases outs.len(),
{
    if outs.len() == 0 {
        Seq::empty()
    } else {
        joined(outs.drop_last()) + outs.last()
    }
}

/// `states` are those of a batcher that takes the rows one after another, and
/// `outs` what each of them makes it hand out.
pub open spec fn row_course(
    cfg: BatcherConfig,
    now: u64,
    rows: Seq<RoutedRow>,
    permit: Option<u64>,
    states: Seq<Batcher>,
    outs: Seq<Seq<InsertBatch>>,
) -> bool {
    &&& states.len() == rows.len() + 1
    &&& outs.len() == rows.len()
    &&& forall|i: int|
        0 <= i < rows.len() ==> took(
            states[i],
            cfg,
            now,
            rows[i],
            permit,
            states[i + 1],
            #[trigger] outs[i],
        )
}

/// The batcher took the rows one after another.
pub open spec fn took_all(
    pre: Batcher,
    cfg: BatcherConfig,
    now: u64,
    rows: Seq<RoutedRow>,
    permit: Option<u64>,
    post: Batcher,
    batches: Seq<InsertBatch>,
) -> bool {
    exists|states: Seq<Batcher>, outs: Seq<Seq<InsertBatch>>|
        {
            &&& #[trigger] row_course(cfg, now, rows, permit, states, outs)
            &&& states[0] == pre
            &&& states[rows.len() as int] == post
            &&& batches == joined(outs)
        }
}

proof fn lemma_took_none(pre: Batcher, cfg: BatcherConfig, now: u64, permit: Option<u64>)
    ensures
        took_all(pre, cfg, now, Seq::empty(), permit, pre, Seq::empty()),
{
    let states = seq![pre];
    let outs = Seq::<Seq<InsertBatch>>::empty();
    assert(row_course(cfg, now, Seq::empty(), permit, states, outs));
}

proof fn lemma_took_more(
    pre: Batcher,
    cfg: BatcherConfig,
    now: u64,
    rows: Seq<RoutedRow>,
    permit: Option<u64>,
    mid: Batcher,
    first: Seq<InsertBatch>,
    post: Batcher,
    last: Seq<InsertBatch>,
)
    requires
        rows.len() > 0,
        took_all(pre, cfg, now, rows.drop_last(), permit, mid, first),
        took(mid, cfg, now, rows.last(), permit, post, last),
    ensures
        took_all(pre, cfg, now, rows, permit, post, first + last),
{
    let before = rows.drop_last();
    let (states, outs) = choose|states: Seq<Batcher>, outs: Seq<Seq<InsertBatch>>|
        {
            &&& #[trigger] row_course(cfg, now, before, permit, states, outs)
            &&& states[0] == pre
            &&& states[before.len() as int] == mid
            &&& first == joined(outs)
        };
    let states1 = states.push(post);
    let outs1 = outs.push(last);
    assert(outs1.drop_last() =~= outs);
    assert forall|i: int| 0 <= i < rows.len() implies took(
        states1[i],
        cfg,
        now,
        rows[i],
        permit,
        states1[i + 1],
        #[trigger] outs1[i],
    ) by {
        if i < before.len() {
            assert(took(states[i], cfg, now, before[i], permit, states[i + 1], outs[i]));
        }
    }
    assert(row_course(cfg, now, rows, permit, states1, outs1));
}

/// What sealing makes of `filled`, whose table `i` took a row, and what it
/// adds to the batches `full`.
pub open spec fn settled(
    filled: Batcher,
    cfg: BatcherConfig,
    i: int,
    full: Seq<InsertBatch>,
    post: Batcher,
    batches: Seq<InsertBatch>,
) -> bool {
    let tables = filled.tables@;
    let seals = seal_rule(
        cfg,
        filled.batch_limit,
        filled.pool,
        tables[i].enc.rows,
        tables[i].allocated_bytes,
        allocated(tables),
    );
    let sealing = sealed_by_row(None, tables, i, seals);
    &&& batches.len() == full.len() + sealing.len()
    &&& forall|k: int| 0 <= k < full.len() ==> #[trigger] batches[k] == full[k]
    &&& forall|k: int|
        full.len() <= k < batches.len() ==> sealing[k - full.len()].sealed_as(
            #[trigger] batches[k],
        )
    &&& post == (Batcher { tables: post.tables, partial_bytes: post.partial_bytes, ..filled })
    &&& post.tables@.len() == tables.len()
    &&& forall|k: int|
        0 <= k < tables.len() ==> if seals.1 || (seals.0 && k == i) {
            (#[trigger] post.tables@[k]).emptied_from(tables[k])
        } else {
            post.tables@[k] == tables[k]
        }
}

proof fn lemma_row_taken(
    pre: Batcher,
    cfg: BatcherConfig,
    now: u64,
    row: RoutedRow,
    slice_permit: Option<u64>,
    t: Table,
    grown: Table,
    filled: Batcher,
    post: Batcher,
    full: Seq<InsertBatch>,
    batches: Seq<InsertBatch>,
)
    requires
        pre.goes_to(row, t),
        entered(t, row, slice_permit, (now + cfg.flush_timeout) as u64, grown),
        covers(grown.allocated_bytes, grown.enc.buffers@),
        filled == (Batcher { tables: filled.tables, partial_bytes: filled.partial_bytes, ..pre }),
        filled.tables@ == tables_with(
            pre.tables@,
            slot_of(pre.tables@, row.rel.rel_name@),
            grown,
        ),
        filled.tables@[slot_of(pre.tables@, row.rel.rel_name@) as int] == grown,
        match turned_over(t, row) {
            Some(x) => full.len() == 1 && x.sealed_as(full[0]),
            None => full.len() == 0,
        },
        settled(
            filled,
            cfg,
            slot_of(pre.tables@, row.rel.rel_name@) as int,
            full,
            post,
            batches,
        ),
    ensures
        took(pre, cfg, now, row, slice_permit, post, batches),
{
    let i = slot_of(pre.tables@, row.rel.rel_name@) as int;
    let seals = seal_rule(
        cfg,
        pre.batch_limit,
        pre.pool,
        grown.enc.rows,
        grown.allocated_bytes,
        allocated(filled.tables@),
    );
    let rest = sealed_by_row(None, filled.tables@, i, seals);
    let sealing = sealed_by_row(turned_over(t, row), filled.tables@, i, seals);
    let first = match turned_over(t, row) {
        Some(x) => seq![x],
        None => Seq::empty(),
    };
    assert(sealing =~= first + rest);
    assert forall|k: int| 0 <= k < batches.len() implies sealing[k].sealed_as(
        #[trigger] batches[k],
    ) by {
        if k < full.len() {
            assert(batches[k] == full[k]);
        } else {
            assert(rest[k - full.len()].sealed_as(batches[k]));
        }
    }
    assert(sealed_from(batches, sealing));
    assert(row_taken(pre, cfg, now, row, slice_permit, t, grown, post, batches));
}

/// Leaving out a table without rows changes nothing of those that have some.
proof fn lemma_open_without(tables: Seq<Table>, i: int)
    requires
        0 <= i < tables.len(),
        tables[i].enc.rows == 0,
    ensures
        open_tables(tables) == open_tables(tables.remove(i)),
    decreases tables.len(),
{
    let n = tables.len() - 1;
    if i == n {
        assert(tables.remove(i) =~= tables.drop_last());
    } else {
        lemma_open_without(tables.drop_last(), i);
        assert(tables.remove(i).drop_last() =~= tables.drop_last().remove(i));
        assert(tables.remove(i).last() == tables.last());
    }
}

/// No table both takes and refuses a row.
proof fn lemma_rejects_or_admits(t: Table, row: RoutedRow, text: Seq<char>)
    requires
        t.wf(),
        rejects(t, row, text),
        row.route.mapping.columns@.len() == t.enc.plan.columns@.len(),
    ensures
        !admits(t, row),
{
    let m = row.route.mapping;
    let c = row.committed;
    if admits(t, row) && t.enc.verdict(c, m) is Full {
        let a = choose|mid: Table| #[trigger]
            mid.emptied_from(t) && mid.wf() && mid.enc.verdict(c, m) is Done;
        let b = choose|mid: Table| #[trigger]
            mid.emptied_from(t) && mid.wf() && verdict_text(mid.enc.verdict(c, m), text);
        empty_blocks_judge_alike(a.enc, b.enc, c, m);
    }
}

/// One plan per relation and route.
proof fn lemma_one_plan(row: RoutedRow, p: TablePlanView, q: TablePlanView)
    requires
        plan_built(*row.rel, row.route.mapping, row.route.types@, row.route.system@, p),
        plan_built(*row.rel, row.route.mapping, row.route.types@, row.route.system@, q),
    ensures
        p == q,
{
    assert forall|i: int| 0 <= i < p.columns.len() implies p.columns[i] == q.columns[i] by {
        let x = planned_at(*row.rel, row.route.mapping, row.route.types@, i);
        assert(x == Ok::<_, ErrorView>(p.columns[i]));
        assert(x == Ok::<_, ErrorView>(q.columns[i]));
    }
    assert(p.columns =~= q.columns);
}

impl Batcher {
    pub open spec fn wf(&self) -> bool {
        &&& self.sound()
        &&& forall|i: int|
            0 <= i < self.tables@.len() ==> (#[trigger] self.tables@[i]).enc.rows < usize::MAX
    }

    /// In order, with a table possibly full to the last row.
    pub open spec fn sound(&self) -> bool {
        &&& tables_ok(self.tables@, self.limits)
        &&& self.partial_bytes == allocated(self.tables@)
        &&& self.limits.seal_bytes < usize::MAX
        &&& self.limits.max_request_bytes < usize::MAX
    }

    /// The row's route has as many columns as its relation's open table.
    pub open spec fn fits(&self, row: RoutedRow) -> bool {
        let i = slot_of(self.tables@, row.rel.rel_name@);
        &&& row.route.wf()
        &&& i < self.tables@.len() ==> self.tables@[i as int].enc.plan.columns@.len()
            == row.route.mapping.columns@.len()
    }

    /// `t` is the table that the row goes to: its relation's open one, else a
    /// new one.
    pub open spec fn goes_to(&self, row: RoutedRow, t: Table) -> bool {
        let i = slot_of(self.tables@, row.rel.rel_name@);
        if i < self.tables@.len() {
            t == self.tables@[i as int]
        } else {
            opens(row, t, self.epoch, self.limits)
        }
    }

    /// The row is taken: a table can be had for it, it is no truncate, and
    /// its values fit the block, or the fresh one after a seal.
    pub open spec fn accepts(&self, row: RoutedRow) -> bool {
        exists|t: Table| #[trigger] self.goes_to(row, t) && admits(t, row)
    }

    /// Why the row is refused.
    pub open spec fn refuses(&self, row: RoutedRow, text: Seq<char>) -> bool {
        ||| slot_of(self.tables@, row.rel.rel_name@) == self.tables@.len() && open_refused(
            row,
            text,
        )
        ||| exists|t: Table| #[trigger] self.goes_to(row, t) && rejects(t, row, text)
    }

    /// What a refused row leaves of the batcher: its own table as far as it
    /// was taken, and everything else as it was.
    pub open spec fn left_with(&self, row: RoutedRow, post: Batcher) -> bool {
        let i = slot_of(self.tables@, row.rel.rel_name@);
        &&& post == (Batcher { tables: post.tables, ..*self })
        &&& ({
            ||| post.tables@ == self.tables@
            ||| {
                &&& i < post.tables@.len()
                &&& post.tables@ == tables_with(self.tables@, i, post.tables@[i as int])
                &&& exists|t: Table| #[trigger]
                    self.goes_to(row, t) && abandoned(t, row, post.tables@[i as int])
            }
        })
    }

    /// A batcher for `boot`'s budgets. An insert is sealed at its inserter's
    /// share of the byte budget, and no budget is smaller than one byte.
    pub fn new(boot: &BatcherConfig, limits: OracleLimits) -> (r: Self)
        requires
            limits.seal_bytes < usize::MAX,
            limits.max_request_bytes < usize::MAX,
        ensures
            r.wf(),
            r.tables@.len() == 0,
            r.epoch == 0,
            r.limits == limits,
            r.batch_limit == (if boot.inserters == 0 {
                if boot.byte_budget == 0 {
                    1
                } else {
                    boot.byte_budget
                }
            } else if boot.byte_budget / boot.inserters == 0 {
                1
            } else {
                boot.byte_budget / boot.inserters
            }),
            r.pool == (if boot.byte_budget == 0 {
                1
            } else {
                boot.byte_budget
            }),
    {
        let inserters: usize = if boot.inserters == 0 {
            1
        } else {
            boot.inserters
        };
        let share: usize = boot.byte_budget / inserters;
        Batcher {
            tables: Vec::new(),
            epoch: 0,
            partial_bytes: 0,
            batch_limit: if share == 0 {
                1
            } else {
                share
            },
            pool: if boot.byte_budget == 0 {
                1
            } else {
                boot.byte_budget
            },
            limits,
        }
    }

    fn position(&self, key: &RelName) -> (i: usize)
        ensures
            i == slot_of(self.tables@, key@),
            i <= self.tables@.len(),
    {
        let mut i: usize = 0;
        let n: usize = self.tables.len();
        proof {
            lemma_slot(self.tables@, key@);
        }
        while i < n
            invariant
                i <= n == self.tables@.len(),
                forall|k: int| 0 <= k < i ==> (#[trigger] self.tables@[k]).key@ != key@,
                slot_of(self.tables@, key@) <= n,
                slot_of(self.tables@, key@) < n ==> self.tables@[slot_of(
                    self.tables@,
                    key@,
                ) as int].key@ == key@,
                forall|k: int|
                    0 <= k < slot_of(self.tables@, key@) ==> (#[trigger] self.tables@[k]).key@
                        != key@,
            decreases n - i,
        {
            if self.tables[i].key.same(key) {
                return i;
            }
            i = i + 1;
        }
        i
    }

    /// Seal table `i`, adding its batch to `out`.
    fn seal_at(&mut self, i: usize, out: &mut Vec<InsertBatch>)
        requires
            old(self).sound(),
            i < old(self).tables@.len(),
            batches_ok(old(out)@),
        ensures
            final(self).sound(),
            final(self).tables@.len() == old(self).tables@.len(),
            final(self).tables@[i as int].emptied_from(old(self).tables@[i as int]),
            forall|k: int|
                0 <= k < old(self).tables@.len() && k != i ==> #[trigger] final(self).tables@[k]
                    == old(self).tables@[k],
            *final(self) == (Batcher {
                tables: final(self).tables,
                partial_bytes: final(self).partial_bytes,
                ..*old(self)
            }),
            final(self).partial_bytes + old(self).tables@[i as int].allocated_bytes == old(
                self,
            ).partial_bytes,
            batches_ok(final(out)@),
            if old(self).tables@[i as int].enc.rows == 0 {
                final(out)@ == old(out)@
            } else {
                &&& final(out)@.len() == old(out)@.len() + 1
                &&& final(out)@.drop_last() == old(out)@
                &&& old(self).tables@[i as int].sealed_as(final(out)@.last())
            },
            forall|s: u64|
                #![trigger held(final(self).tables@, s)]
                #![trigger shipped(final(out)@, s)]
                held(final(self).tables@, s) + shipped(final(out)@, s) == held(
                    old(self).tables@,
                    s,
                ) + shipped(old(out)@, s),
    {
        let ghost before = self.tables@;
        let ghost t0 = before[i as int];
        let ghost done = out@;
        let bytes: usize = self.tables[i].allocated_bytes;
        proof {
            assert(t0.wf());
        }
        let sealed: Option<InsertBatch> = self.tables[i].emit_batch();
        proof {
            let t1 = self.tables@[i as int];
            assert(self.tables@ =~= before.update(i as int, t1));
            lemma_allocated_update(before, i as int, t1);
            assert forall|s: u64|
                #![trigger held(self.tables@, s)]
                held(self.tables@, s) + seq_rows(t0.seq_counts@, s) == held(before, s) by {
                lemma_held_update(before, i as int, t1, s);
            }
            assert forall|k: int, j: int| 0 <= k < j < self.tables@.len() implies (
            #[trigger] self.tables@[k]).key@ != (#[trigger] self.tables@[j]).key@ by {
                assert(before[k].key@ != before[j].key@);
            }
            assert forall|k: int| 0 <= k < self.tables@.len() implies (
            #[trigger] self.tables@[k]).wf() && self.tables@[k].enc.limits == self.limits by {
                assert(before[k].wf() && before[k].enc.limits == self.limits);
            }
        }
        self.partial_bytes = self.partial_bytes - bytes as u128;
        match sealed {
            None => {
                proof {
                    assert forall|s: u64| #[trigger] seq_rows(t0.seq_counts@, s) == 0 by {
                        lemma_no_rows(t0.seq_counts@, s);
                    }
                }
            },
            Some(b) => {
                proof {
                    assert forall|s: u64|
                        #![trigger shipped(done.push(b), s)]
                        shipped(done.push(b), s) == shipped(done, s) + seq_rows(
                            t0.seq_counts@,
                            s,
                        ) by {
                        lemma_shipped_push(done, b, s);
                    }
                    lemma_buffers_wf(t0.enc);
                    assert(batch_ok(b));
                }
                out.push(b);
                proof {
                    assert(out@.drop_last() =~= done);
                }
            },
        }
    }

    /// The place of the row's table, which is opened if it is not there.
    fn slot_for(&mut self, row: &RoutedRow) -> (r: Result<usize, String>)
        requires
            old(self).wf(),
            old(self).fits(*row),
        ensures
            match r {
                Err(text) => {
                    &&& *final(self) == *old(self)
                    &&& old(self).refuses(*row, text@)
                    &&& forall|t: Table| !#[trigger] old(self).goes_to(*row, t)
                },
                Ok(i) => {
                    &&& i == slot_of(old(self).tables@, row.rel.rel_name@)
                    &&& i < final(self).tables@.len()
                    &&& final(self).wf()
                    &&& *final(self) == (Batcher { tables: final(self).tables, ..*old(self) })
                    &&& final(self).tables@ == tables_with(
                        old(self).tables@,
                        i as nat,
                        final(self).tables@[i as int],
                    )
                    &&& old(self).goes_to(*row, final(self).tables@[i as int])
                    &&& final(self).tables@[i as int].key@ == row.rel.rel_name@
                    &&& final(self).tables@[i as int].enc.plan.columns@.len()
                        == row.route.mapping.columns@.len()
                    &&& forall|s: u64| #[trigger]
                        held(final(self).tables@, s) == held(old(self).tables@, s)
                },
            },
    {
        let ghost pre = *self;
        let ghost key = row.rel.rel_name@;
        let i: usize = self.position(&row.rel.rel_name);
        proof {
            lemma_slot(self.tables@, key);
        }
        if i == self.tables.len() {
            let t: Table = match open_table(row, self.epoch, self.limits) {
                Ok(t) => t,
                Err(text) => {
                    proof {
                        assert forall|t: Table| !#[trigger] pre.goes_to(*row, t) by {
                            lemma_opens_or_not(*row, t, pre.epoch, pre.limits, text@);
                        }
                    }
                    return Err(text);
                },
            };
            self.tables.push(t);
            proof {
                assert(self.tables@.drop_last() =~= pre.tables@);
            }
        }
        let ghost opened = *self;
        let ghost start = self.tables@[i as int];
        proof {
            assert(opened.tables@ =~= tables_with(pre.tables@, i as nat, start));
            assert(pre.goes_to(*row, start));
            assert(opened.wf()) by {
                lemma_opened(pre, opened, i as int, *row);
            }
            assert(start.key@ == key);
            assert(start.enc.plan.columns@.len() == row.route.mapping.columns@.len()) by {
                assert(start.enc.plan@.columns.len() == start.enc.plan.columns@.len());
            }
            assert forall|s: u64| #[trigger] held(opened.tables@, s) == held(pre.tables@, s) by {}
        }
        Ok(i)
    }

    /// Take one row. Returns what has to be inserted, in order.
    pub fn handle_row(
        &mut self,
        cfg: &BatcherConfig,
        now: u64,
        row: &RoutedRow,
        slice_permit: Option<u64>,
    ) -> (r: Result<Vec<InsertBatch>, String>)
        requires
            old(self).wf(),
            old(self).fits(*row),
            now + cfg.flush_timeout <= u64::MAX,
        ensures
            final(self).epoch == old(self).epoch,
            r is Ok <==> old(self).accepts(*row),
            match r {
                Ok(batches) => handled(
                    *old(self),
                    *cfg,
                    now,
                    *row,
                    slice_permit,
                    *final(self),
                    batches@,
                ),
                Err(text) => old(self).refuses(*row, text@) && old(self).left_with(
                    *row,
                    *final(self),
                ),
            },
    {
        let ghost pre = *self;
        let i: usize = match self.slot_for(row) {
            Ok(i) => i,
            Err(text) => {
                proof {
                    lemma_left_as_it_was(pre, *row);
                }
                return Err(text);
            },
        };
        let ghost opened = *self;
        let ghost start = self.tables@[i as int];
        let op: i8 = match wire_op(row.committed.decoded.op) {
            Some(op) => op,
            None => {
                let text: String = String::from_str("TRUNCATE routed to batcher");
                proof {
                    assert(rejects(start, *row, text@));
                    lemma_only_one_table(pre, *row, start, text@);
                    lemma_left_with(pre, *row, start, *self);
                }
                return Err(text);
            },
        };
        let mut out: Vec<InsertBatch> = Vec::new();
        let held_bytes: usize = self.tables[i].allocated_bytes;
        proof {
            assert(start.wf());
        }
        match self.tables[i].add_row(row, op, slice_permit, now + cfg.flush_timeout) {
            Err(text) => {
                proof {
                    assert(rejects(start, *row, text@));
                    lemma_only_one_table(pre, *row, start, text@);
                    assert(self.tables@ =~= tables_with(
                        pre.tables@,
                        i as nat,
                        self.tables@[i as int],
                    ));
                    lemma_left_with(pre, *row, start, *self);
                }
                return Err(text);
            },
            Ok(None) => {},
            Ok(Some(b)) => {
                proof {
                    lemma_buffers_wf(start.enc);
                    assert(batch_ok(b));
                    assert forall|mid: Table| #[trigger] mid.emptied_from(start) implies
                        mid.seq_counts@ == Seq::<(u64, u64)>::empty() by {
                        assert(mid.seq_counts@ =~= Seq::empty());
                    }
                }
                out.push(b);
            },
        }
        proof {
            assert(admits(start, *row));
            assert(pre.accepts(*row));
        }
        let ghost added = self.tables@;
        let ghost grown = self.tables@[i as int];
        proof {
            assert(added =~= opened.tables@.update(i as int, grown));
            assert forall|s: u64|
                #![trigger held(added, s)]
                held(added, s) + shipped(out@, s) == held(pre.tables@, s) + (if s == row.seq {
                    1nat
                } else {
                    0
                }) by {
                lemma_held_update(opened.tables@, i as int, grown, s);
                lemma_row_counted(start, grown, out@, *row, op, slice_permit, s);
            }
            lemma_buffers_wf(grown.enc);
        }
        let bytes: usize = buffers_bytes(&self.tables[i].enc.buffers);
        self.tables[i].allocated_bytes = bytes;
        let n: usize = self.tables.len();
        proof {
            let t1 = self.tables@[i as int];
            assert(self.tables@ =~= opened.tables@.update(i as int, t1));
            lemma_allocated_update(opened.tables@, i as int, t1);
            lemma_allocated_bound(self.tables@);
            assert(n * usize::MAX <= 0xffff_ffff_ffff_ffff * 0xffff_ffff_ffff_ffff)
                by (nonlinear_arith)
                requires
                    n <= 0xffff_ffff_ffff_ffff,
                    usize::MAX <= 0xffff_ffff_ffff_ffff,
            ;
            assert forall|s: u64|
                #![trigger held(self.tables@, s)]
                held(self.tables@, s) == held(added, s) by {
                lemma_held_update(added, i as int, t1, s);
                assert(self.tables@ =~= added.update(i as int, t1));
            }
            assert forall|k: int, j: int| 0 <= k < j < self.tables@.len() implies (
            #[trigger] self.tables@[k]).key@ != (#[trigger] self.tables@[j]).key@ by {
                assert(opened.tables@[k].key@ != opened.tables@[j].key@);
            }
            assert forall|k: int| 0 <= k < self.tables@.len() implies (
            #[trigger] self.tables@[k]).wf() && self.tables@[k].enc.limits == self.limits by {
                assert(opened.tables@[k].wf() && opened.tables@[k].enc.limits == opened.limits);
            }
        }
        self.partial_bytes = self.partial_bytes - held_bytes as u128 + bytes as u128;
        proof {
            lemma_allocated_update(self.tables@, i as int, self.tables@[i as int]);
            assert(self.sound());
        }
        let ghost filled = *self;
        let ghost full = out@;
        self.settle_row(cfg, i, &mut out);
        proof {
            let t1 = filled.tables@[i as int];
            let deadline = (now + cfg.flush_timeout) as u64;
            assert(filled.tables@ =~= tables_with(pre.tables@, i as nat, t1));
            assert(entered(start, *row, slice_permit, deadline, t1));
            lemma_row_taken(
                pre,
                *cfg,
                now,
                *row,
                slice_permit,
                start,
                t1,
                filled,
                *self,
                full,
                out@,
            );
        }
        Ok(out)
    }

    /// Seal what has reached a budget now that table `i` has taken a row.
    fn settle_row(&mut self, cfg: &BatcherConfig, i: usize, out: &mut Vec<InsertBatch>)
        requires
            old(self).sound(),
            i < old(self).tables@.len(),
            old(self).tables@[i as int].enc.rows > 0,
            forall|k: int|
                0 <= k < old(self).tables@.len() && k != i ==> (
                #[trigger] old(self).tables@[k]).enc.rows < usize::MAX,
            batches_ok(old(out)@),
        ensures
            final(self).wf(),
            batches_ok(final(out)@),
            settled(*old(self), *cfg, i as int, old(out)@, *final(self), final(out)@),
            within_budgets(*final(self), *cfg, old(self).tables@[i as int].key@),
            forall|s: u64|
                #![trigger held(final(self).tables@, s)]
                held(final(self).tables@, s) + shipped(final(out)@, s) == held(
                    old(self).tables@,
                    s,
                ) + shipped(old(out)@, s),
    {
        let ghost filled = *self;
        let ghost full = out@;
        proof {
            lemma_allocated_update(self.tables@, i as int, self.tables@[i as int]);
        }
        let rows: usize = self.tables[i].enc.rows;
        let bytes: usize = self.tables[i].allocated_bytes;
        let (seals, all): (bool, bool) = seal_decision(
            cfg,
            self.batch_limit,
            self.pool,
            rows,
            bytes,
            self.partial_bytes,
        );
        if seals {
            self.seal_at(i, out);
            proof {
                assert(self.tables@.remove(i as int) =~= filled.tables@.remove(i as int));
                lemma_open_without(self.tables@, i as int);
                assert forall|k: int| 0 <= k < full.len() implies #[trigger] out@[k]
                    == full[k] by {
                    assert(out@.drop_last()[k] == out@[k]);
                }
            }
        }
        let ghost two = out@;
        if all {
            self.seal_all(out);
        }
        proof {
            let tail = out@.subrange(full.len() as int, out@.len() as int);
            assert(out@ =~= full + tail);
        }
    }

    /// Take a chunk's rows in order. The chunk only saves hand-overs; budgets
    /// and deadlines apply per row.
    pub fn handle_rows(&mut self, cfg: &BatcherConfig, now: u64, chunk: &RowChunk) -> (r: Result<
        Vec<InsertBatch>,
        String,
    >)
        requires
            old(self).wf(),
            forall|i: int|
                0 <= i < chunk.rows@.len() ==> old(self).fits(#[trigger] chunk.rows@[i]),
            same_shapes(chunk.rows@),
            now + cfg.flush_timeout <= u64::MAX,
        ensures
            final(self).epoch == old(self).epoch,
            match r {
                Ok(batches) => {
                    &&& final(self).wf()
                    &&& took_all(
                        *old(self),
                        *cfg,
                        now,
                        chunk.rows@,
                        chunk.permit,
                        *final(self),
                        batches@,
                    )
                    &&& batches_ok(batches@)
                    &&& forall|s: u64|
                        #![trigger held(final(self).tables@, s)]
                        held(final(self).tables@, s) + shipped(batches@, s) == held(
                            old(self).tables@,
                            s,
                        ) + rows_of(chunk.rows@, s)
                },
                Err(text) => exists|b: Batcher, i: int, done: Seq<InsertBatch>|
                    {
                        &&& 0 <= i < chunk.rows@.len()
                        &&& #[trigger] took_all(
                            *old(self),
                            *cfg,
                            now,
                            chunk.rows@.subrange(0, i),
                            chunk.permit,
                            b,
                            done,
                        )
                        &&& b.refuses(chunk.rows@[i], text@)
                        &&& !b.accepts(chunk.rows@[i])
                        &&& b.left_with(chunk.rows@[i], *final(self))
                    },
            },
    {
        let mut out: Vec<InsertBatch> = Vec::new();
        let mut i: usize = 0;
        proof {
            assert(chunk.rows@.subrange(0, 0) =~= Seq::empty());
            lemma_took_none(*self, *cfg, now, chunk.permit);
        }
        while i < chunk.rows.len()
            invariant
                i <= chunk.rows@.len(),
                self.wf(),
                self.epoch == old(self).epoch,
                took_all(
                    *old(self),
                    *cfg,
                    now,
                    chunk.rows@.subrange(0, i as int),
                    chunk.permit,
                    *self,
                    out@,
                ),
                batches_ok(out@),
                forall|k: int|
                    i <= k < chunk.rows@.len() ==> self.fits(#[trigger] chunk.rows@[k]),
                same_shapes(chunk.rows@),
                now + cfg.flush_timeout <= u64::MAX,
                forall|s: u64|
                    #![trigger held(self.tables@, s)]
                    held(self.tables@, s) + shipped(out@, s) == held(old(self).tables@, s)
                        + rows_of(chunk.rows@.subrange(0, i as int), s),
            decreases chunk.rows@.len() - i,
        {
            let ghost pre = *self;
            let ghost sofar = out@;
            let ghost part = chunk.rows@.subrange(0, i as int + 1);
            proof {
                assert(part.drop_last() =~= chunk.rows@.subrange(0, i as int));
                assert(part.last() == chunk.rows@[i as int]);
            }
            let mut more: Vec<InsertBatch> = match self.handle_row(
                cfg,
                now,
                &chunk.rows[i],
                chunk.permit,
            ) {
                Ok(b) => b,
                Err(text) => {
                    proof {
                        assert(pre.refuses(chunk.rows@[i as int], text@));
                    }
                    return Err(text);
                },
            };
            let ghost added = more@;
            out.append(&mut more);
            proof {
                assert(out@ =~= sofar + added);
                assert(took(
                    pre,
                    *cfg,
                    now,
                    chunk.rows@[i as int],
                    chunk.permit,
                    *self,
                    added,
                ));
                lemma_took_more(
                    *old(self),
                    *cfg,
                    now,
                    part,
                    chunk.permit,
                    pre,
                    sofar,
                    *self,
                    added,
                );
                assert forall|s: u64|
                    #![trigger held(self.tables@, s)]
                    held(self.tables@, s) + shipped(out@, s) == held(old(self).tables@, s)
                        + rows_of(part, s) by {
                    lemma_shipped_concat(sofar, added, s);
                    assert(held(pre.tables@, s) + shipped(sofar, s) == held(old(self).tables@, s)
                        + rows_of(chunk.rows@.subrange(0, i as int), s));
                }
                assert forall|k: int| 0 <= k < out@.len() implies batch_ok(
                    #[trigger] out@[k],
                ) by {
                    if k < sofar.len() {
                        assert(batch_ok(sofar[k]));
                    } else {
                        assert(batch_ok(added[k - sofar.len()]));
                    }
                }
                assert forall|k: int| i + 1 <= k < chunk.rows@.len() implies self.fits(
                    #[trigger] chunk.rows@[k],
                ) by {
                    lemma_still_fits(pre, *self, chunk.rows@[i as int], chunk.rows@[k]);
                }
            }
            i = i + 1;
        }
        proof {
            assert(chunk.rows@.subrange(0, i as int) =~= chunk.rows@);
        }
        Ok(out)
    }

    /// Seal every table whose deadline has passed.
    pub fn flush_due(&mut self, now: u64) -> (out: Vec<InsertBatch>)
        requires
            old(self).wf(),
        ensures
            final(self).wf(),
            batches_ok(out@),
            *final(self) == (Batcher {
                tables: final(self).tables,
                partial_bytes: final(self).partial_bytes,
                ..*old(self)
            }),
            sealed_from(out@, due_tables(old(self).tables@, now)),
            final(self).tables@.len() == old(self).tables@.len(),
            forall|k: int|
                0 <= k < old(self).tables@.len() ==> if due(old(self).tables@[k], now) {
                    (#[trigger] final(self).tables@[k]).emptied_from(old(self).tables@[k])
                } else {
                    final(self).tables@[k] == old(self).tables@[k]
                },
            forall|s: u64|
                #![trigger held(final(self).tables@, s)]
                held(final(self).tables@, s) + shipped(out@, s) == held(old(self).tables@, s),
    {
        let mut out: Vec<InsertBatch> = Vec::new();
        let n: usize = self.tables.len();
        let ghost before = self.tables@;
        let mut i: usize = 0;
        while i < n
            invariant
                i <= n == before.len(),
                before == old(self).tables@,
                self.tables@.len() == n,
                self.wf(),
                batches_ok(out@),
                sealed_from(out@, due_tables(before.subrange(0, i as int), now)),
                *self == (Batcher {
                    tables: self.tables,
                    partial_bytes: self.partial_bytes,
                    ..*old(self)
                }),
                forall|k: int|
                    0 <= k < i ==> if due(before[k], now) {
                        (#[trigger] self.tables@[k]).emptied_from(before[k])
                    } else {
                        self.tables@[k] == before[k]
                    },
                forall|k: int| i <= k < n ==> #[trigger] self.tables@[k] == before[k],
                forall|s: u64|
                    #![trigger held(self.tables@, s)]
                    held(self.tables@, s) + shipped(out@, s) == held(before, s),
            decreases n - i,
        {
            let ghost mid = *self;
            let ghost sofar = out@;
            proof {
                let part = before.subrange(0, i as int + 1);
                assert(part.drop_last() =~= before.subrange(0, i as int));
                assert(part.last() == before[i as int]);
                assert(self.tables@[i as int] == before[i as int]);
                assert(self.tables@[i as int].wf());
            }
            let is_due: bool = match self.tables[i].deadline {
                Some(d) => now >= d,
                None => false,
            };
            if is_due {
                self.seal_at(i, &mut out);
                proof {
                    assert forall|k: int| 0 <= k < n implies (
                    #[trigger] self.tables@[k]).enc.rows < usize::MAX by {
                        assert(mid.tables@[k].enc.rows < usize::MAX);
                    }
                    assert forall|k: int| 0 <= k < sofar.len() implies #[trigger] out@[k]
                        == sofar[k] by {
                        assert(out@.drop_last()[k] == out@[k]);
                    }
                }
            }
            i = i + 1;
        }
        proof {
            assert(before.subrange(0, i as int) =~= before);
        }
        out
    }

    /// Seal every table, forget all of them, and start a new epoch: the next
    /// rows plan against what the barrier changed.
    pub fn flush_all(&mut self) -> (out: Vec<InsertBatch>)
        requires
            old(self).wf(),
            old(self).epoch < u64::MAX,
        ensures
            final(self).wf(),
            final(self).tables@.len() == 0,
            final(self).epoch == old(self).epoch + 1,
            final(self).batch_limit == old(self).batch_limit,
            final(self).pool == old(self).pool,
            final(self).limits == old(self).limits,
            batches_ok(out@),
            sealed_from(out@, open_tables(old(self).tables@)),
            forall|s: u64| #[trigger] shipped(out@, s) == held(old(self).tables@, s),
    {
        let mut out: Vec<InsertBatch> = Vec::new();
        self.seal_all(&mut out);
        proof {
            assert forall|s: u64| #[trigger] shipped(out@, s) == held(old(self).tables@, s) by {
                lemma_none_held(self.tables@, s);
            }
        }
        self.tables = Vec::new();
        self.partial_bytes = 0;
        self.epoch = self.epoch + 1;
        out
    }

    /// The earliest deadline of an open table.
    pub fn next_deadline(&self) -> (r: Option<u64>)
        ensures
            match r {
                Some(d) => {
                    &&& exists|i: int|
                        0 <= i < self.tables@.len() && (#[trigger] self.tables@[i]).deadline
                            == Some(d)
                    &&& forall|i: int|
                        0 <= i < self.tables@.len() ==> match (
                        #[trigger] self.tables@[i]).deadline {
                            Some(e) => d <= e,
                            None => true,
                        }
                },
                None => forall|i: int|
                    0 <= i < self.tables@.len() ==> (#[trigger] self.tables@[i]).deadline is None,
            },
    {
        let mut best: Option<u64> = None;
        let mut i: usize = 0;
        while i < self.tables.len()
            invariant
                i <= self.tables@.len(),
                match best {
                    Some(d) => {
                        &&& exists|k: int|
                            0 <= k < i && (#[trigger] self.tables@[k]).deadline == Some(d)
                        &&& forall|k: int|
                            0 <= k < i ==> match (#[trigger] self.tables@[k]).deadline {
                                Some(e) => d <= e,
                                None => true,
                            }
                    },
                    None => forall|k: int|
                        0 <= k < i ==> (#[trigger] self.tables@[k]).deadline is None,
                },
            decreases self.tables@.len() - i,
        {
            if let Some(e) = self.tables[i].deadline {
                let sooner: bool = match best {
                    Some(d) => e < d,
                    None => true,
                };
                if sooner {
                    proof {
                        assert(self.tables@[i as int].deadline == Some(e));
                    }
                    best = Some(e);
                }
            }
            i = i + 1;
        }
        best
    }

    /// Whether the row's route has as many columns as its relation's open
    /// table.
    pub fn row_fits(&self, row: &RoutedRow) -> (r: bool)
        ensures
            r == self.fits(*row),
    {
        if row.route.types.len() != row.route.mapping.columns.len() {
            return false;
        }
        let i: usize = self.position(&row.rel.rel_name);
        i == self.tables.len() || self.tables[i].enc.plan.columns.len()
            == row.route.mapping.columns.len()
    }

    /// Seal every table.
    fn seal_all(&mut self, out: &mut Vec<InsertBatch>)
        requires
            old(self).sound(),
            batches_ok(old(out)@),
        ensures
            final(self).wf(),
            batches_ok(final(out)@),
            *final(self) == (Batcher {
                tables: final(self).tables,
                partial_bytes: final(self).partial_bytes,
                ..*old(self)
            }),
            final(self).tables@.len() == old(self).tables@.len(),
            forall|k: int|
                0 <= k < old(self).tables@.len() ==> (
                #[trigger] final(self).tables@[k]).emptied_from(old(self).tables@[k]),
            final(out)@.len() == old(out)@.len() + open_tables(old(self).tables@).len(),
            forall|k: int|
                0 <= k < old(out)@.len() ==> #[trigger] final(out)@[k] == old(out)@[k],
            forall|k: int|
                old(out)@.len() <= k < final(out)@.len() ==> open_tables(old(self).tables@)[k
                    - old(out)@.len()].sealed_as(#[trigger] final(out)@[k]),
            forall|s: u64|
                #![trigger held(final(self).tables@, s)]
                #![trigger shipped(final(out)@, s)]
                held(final(self).tables@, s) + shipped(final(out)@, s) == held(
                    old(self).tables@,
                    s,
                ) + shipped(old(out)@, s),
    {
        let n: usize = self.tables.len();
        let ghost before = self.tables@;
        let ghost first = out@;
        let mut i: usize = 0;
        while i < n
            invariant
                i <= n == before.len(),
                before == old(self).tables@,
                first == old(out)@,
                self.tables@.len() == n,
                self.sound(),
                batches_ok(out@),
                *self == (Batcher {
                    tables: self.tables,
                    partial_bytes: self.partial_bytes,
                    ..*old(self)
                }),
                forall|k: int| 0 <= k < i ==> (#[trigger] self.tables@[k]).emptied_from(before[k]),
                forall|k: int| i <= k < n ==> #[trigger] self.tables@[k] == before[k],
                out@.len() == first.len() + open_tables(before.subrange(0, i as int)).len(),
                forall|k: int| 0 <= k < first.len() ==> #[trigger] out@[k] == first[k],
                forall|k: int|
                    first.len() <= k < out@.len() ==> open_tables(before.subrange(0, i as int))[k
                        - first.len()].sealed_as(#[trigger] out@[k]),
                forall|s: u64|
                    #![trigger held(self.tables@, s)]
                    #![trigger shipped(out@, s)]
                    held(self.tables@, s) + shipped(out@, s) == held(before, s) + shipped(first, s),
            decreases n - i,
        {
            let ghost part = before.subrange(0, i as int + 1);
            let ghost sofar = out@;
            proof {
                assert(part.drop_last() =~= before.subrange(0, i as int));
                assert(part.last() == before[i as int]);
                assert(self.tables@[i as int] == before[i as int]);
            }
            self.seal_at(i, out);
            proof {
                assert forall|k: int| 0 <= k < sofar.len() implies #[trigger] out@[k]
                    == sofar[k] by {
                    if before[i as int].enc.rows > 0 {
                        assert(out@.drop_last()[k] == out@[k]);
                    }
                }
            }
            i = i + 1;
        }
        proof {
            assert(before.subrange(0, i as int) =~= before);
        }
    }
}

/// The table's deadline has passed.
pub open spec fn due(t: Table, now: u64) -> bool {
    match t.deadline {
        Some(d) => now >= d,
        None => false,
    }
}

/// The tables whose deadline has passed, in order.
pub open spec fn due_tables(tables: Seq<Table>, now: u64) -> Seq<Table>
    decreases tables.len(),
{
    if tables.len() == 0 {
        Seq::empty()
    } else if due(tables.last(), now) {
        due_tables(tables.drop_last(), now).push(tables.last())
    } else {
        due_tables(tables.drop_last(), now)
    }
}

/// Rows of `seq` in a chunk.
pub open spec fn rows_of(rows: Seq<RoutedRow>, seq: u64) -> nat
    decreases rows.len(),
{
    if rows.len() == 0 {
        0
    } else {
        rows_of(rows.drop_last(), seq) + if rows.last().seq == seq {
            1nat
        } else {
            0
        }
    }
}

/// Rows of one relation have routes with as many columns.
pub open spec fn same_shapes(rows: Seq<RoutedRow>) -> bool {
    forall|i: int, j: int|
        0 <= i < j < rows.len() && (#[trigger] rows[i]).rel.rel_name@ == (
        #[trigger] rows[j]).rel.rel_name@ ==> rows[i].route.mapping.columns@.len()
            == rows[j].route.mapping.columns@.len()
}

proof fn lemma_still_fits(pre: Batcher, post: Batcher, took: RoutedRow, next: RoutedRow)
    requires
        pre.wf(),
        post.wf(),
        others_kept(pre, post, took),
        pre.fits(next),
        took.rel.rel_name@ == next.rel.rel_name@ ==> took.route.mapping.columns@.len()
            == next.route.mapping.columns@.len(),
    ensures
        post.fits(next),
{
    let key = next.rel.rel_name@;
    lemma_slot(pre.tables@, key);
    lemma_slot(post.tables@, key);
    lemma_slot(pre.tables@, took.rel.rel_name@);
    let j = slot_of(post.tables@, key) as int;
    let i = slot_of(pre.tables@, took.rel.rel_name@) as int;
    if j < post.tables@.len() {
        if j < pre.tables@.len() {
            assert(post.tables@[j].key@ == pre.tables@[j].key@);
            let p = slot_of(pre.tables@, key) as int;
            if p < j {
                assert(post.tables@[p].key@ == pre.tables@[p].key@);
            } else if j < p {
                assert(pre.tables@[j].key@ != key);
            }
            assert(p == j);
        } else {
            assert(j == i);
        }
    }
}

pub proof fn lemma_shipped_concat(a: Seq<InsertBatch>, b: Seq<InsertBatch>, seq: u64)
    ensures
        shipped(a + b, seq) == shipped(a, seq) + shipped(b, seq),
    decreases b.len(),
{
    if b.len() == 0 {
        assert(a + b =~= a);
    } else {
        assert((a + b).drop_last() =~= a + b.drop_last());
        lemma_shipped_concat(a, b.drop_last(), seq);
    }
}

proof fn lemma_none_held(tables: Seq<Table>, seq: u64)
    requires
        forall|i: int| 0 <= i < tables.len() ==> (#[trigger] tables[i]).seq_counts@.len() == 0,
    ensures
        held(tables, seq) == 0,
    decreases tables.len(),
{
    if tables.len() > 0 {
        assert(tables[tables.len() - 1].seq_counts@.len() == 0);
        assert forall|i: int| 0 <= i < tables.drop_last().len() implies (
        #[trigger] tables.drop_last()[i]).seq_counts@.len() == 0 by {
            assert(tables[i].seq_counts@.len() == 0);
        }
        lemma_none_held(tables.drop_last(), seq);
    }
}

/// What holds of the budgets after a row of relation `key`: its table is
/// below the row budget, and the open tables below the shared byte budget,
/// unless they are empty.
pub open spec fn within_budgets(b: Batcher, cfg: BatcherConfig, key: RelKey) -> bool {
    &&& forall|i: int|
        0 <= i < b.tables@.len() && (#[trigger] b.tables@[i]).key@ == key ==> b.tables@[i].enc.rows
            == 0 || b.tables@[i].enc.rows < cfg.row_budget
    &&& (b.partial_bytes < cfg.byte_budget && b.partial_bytes < b.pool) || forall|i: int|
        0 <= i < b.tables@.len() ==> (#[trigger] b.tables@[i]).enc.rows == 0
}

/// Tables of other relations keep their rows or were sealed; every table
/// keeps its plan.
pub open spec fn others_kept(pre: Batcher, post: Batcher, row: RoutedRow) -> bool {
    let i = slot_of(pre.tables@, row.rel.rel_name@);
    &&& post.tables@.len() == (if i < pre.tables@.len() {
        pre.tables@.len()
    } else {
        pre.tables@.len() + 1
    })
    &&& forall|k: int|
        0 <= k < pre.tables@.len() ==> {
            &&& (#[trigger] post.tables@[k]).key@ == pre.tables@[k].key@
            &&& post.tables@[k].enc.plan == pre.tables@[k].enc.plan
            &&& k != i ==> post.tables@[k] == pre.tables@[k] || post.tables@[k].emptied_from(
                pre.tables@[k],
            )
        }
    &&& post.tables@[i as int].key@ == row.rel.rel_name@
    &&& post.tables@[i as int].enc.plan.columns@.len() == row.route.mapping.columns@.len()
}

proof fn lemma_opens_or_not(
    row: RoutedRow,
    t: Table,
    epoch: u64,
    limits: OracleLimits,
    text: Seq<char>,
)
    requires
        open_refused(row, text),
    ensures
        !opens(row, t, epoch, limits),
{
    let m = row.route.mapping;
    let types = row.route.types@;
    if !opens(row, t, epoch, limits) {
    } else if exists|e: ErrorView| #[trigger] plan_refused(*row.rel, m, types, e) && text == e.text() {
        let e = choose|e: ErrorView| #[trigger]
            plan_refused(*row.rel, m, types, e) && text == e.text();
        let i = choose|i: int|
            0 <= i < m.columns@.len() && #[trigger] planned_at(*row.rel, m, types, i) == Err::<
                ColumnPlanView,
                ErrorView,
            >(e);
        assert(planned_at(*row.rel, m, types, i) == Ok::<_, ErrorView>(t.enc.plan@.columns[i]));
    } else {
        let p = choose|p: TablePlan|
            #[trigger] shapeless(p.columns@) && plan_built(
                *row.rel,
                m,
                types,
                row.route.system@,
                p@,
            );
        lemma_one_plan(row, p@, t.enc.plan@);
        let i = choose|i: int|
            0 <= i < p.columns@.len() && (#[trigger] p.columns@[i]).encoding is Local && shape_of(
                p.columns@[i]@.shape,
            ) is None;
        assert(p@.columns[i] == p.columns@[i]@);
        assert(t.enc.plan@.columns[i] == t.enc.plan.columns@[i]@);
        assert(t.enc.plan.columns@[i].encoding is Local);
        assert(shapeless(t.enc.plan.columns@));
    }
}

/// If the row's table refuses it, no choice of table takes it.
proof fn lemma_only_one_table(b: Batcher, row: RoutedRow, t: Table, text: Seq<char>)
    requires
        b.goes_to(row, t),
        t.wf(),
        rejects(t, row, text),
        row.route.mapping.columns@.len() == t.enc.plan.columns@.len(),
    ensures
        !b.accepts(row),
{
    assert forall|u: Table| #[trigger] b.goes_to(row, u) implies !admits(u, row) by {
        lemma_rejects_or_admits(t, row, text);
        if slot_of(b.tables@, row.rel.rel_name@) >= b.tables@.len() {
            lemma_one_plan(row, t.enc.plan@, u.enc.plan@);
            empty_blocks_judge_alike(t.enc, u.enc, row.committed, row.route.mapping);
        }
    }
}

proof fn lemma_opened(pre: Batcher, b: Batcher, i: int, row: RoutedRow)
    requires
        pre.wf(),
        i == slot_of(pre.tables@, row.rel.rel_name@),
        b == (Batcher { tables: b.tables, ..pre }),
        i < pre.tables@.len() ==> b.tables@ == pre.tables@,
        i == pre.tables@.len() ==> {
            &&& b.tables@.len() == pre.tables@.len() + 1
            &&& b.tables@.drop_last() == pre.tables@
            &&& opens(row, b.tables@.last(), pre.epoch, pre.limits)
        },
    ensures
        b.wf(),
{
    lemma_slot(pre.tables@, row.rel.rel_name@);
    if i == pre.tables@.len() {
        assert forall|k: int| 0 <= k < pre.tables@.len() implies b.tables@[k]
            == pre.tables@[k] by {
            assert(b.tables@.drop_last()[k] == b.tables@[k]);
        }
        assert forall|k: int, j: int| 0 <= k < j < b.tables@.len() implies (
        #[trigger] b.tables@[k]).key@ != (#[trigger] b.tables@[j]).key@ by {
            assert(b.tables@[k] == pre.tables@[k]);
            if j < pre.tables@.len() {
                assert(pre.tables@[k].key@ != pre.tables@[j].key@);
            }
        }
        assert forall|k: int| 0 <= k < b.tables@.len() implies (#[trigger] b.tables@[k]).wf()
            && b.tables@[k].enc.limits == b.limits && b.tables@[k].enc.rows < usize::MAX by {
            if k < pre.tables@.len() {
                assert(b.tables@[k] == pre.tables@[k]);
                assert(pre.tables@[k].wf());
            }
        }
    }
}

/// Adding a row adds one row of its transaction, sealed rows included.
proof fn lemma_row_counted(
    start: Table,
    grown: Table,
    out: Seq<InsertBatch>,
    row: RoutedRow,
    op: i8,
    slice_permit: Option<u64>,
    s: u64,
)
    requires
        start.wf(),
        start.enc.rows < usize::MAX,
        (out.len() == 0 && grown.seq_counts@ == counted_row(start.seq_counts@, row.seq)) || (
        out.len() == 1 && out[0].per_seq@ == start.seq_counts@ && grown.seq_counts@ == counted_row(
            Seq::empty(),
            row.seq,
        )),
    ensures
        seq_rows(grown.seq_counts@, s) + shipped(out, s) == seq_rows(start.seq_counts@, s) + (
        if s == row.seq {
            1nat
        } else {
            0
        }),
{
    if out.len() == 0 {
        lemma_counted_row(start.seq_counts@, row.seq);
    } else {
        lemma_counted_row(Seq::empty(), row.seq);
        assert(out =~= Seq::<InsertBatch>::empty().push(out[0]));
        lemma_shipped_push(Seq::empty(), out[0], s);
    }
}

proof fn lemma_left_as_it_was(pre: Batcher, row: RoutedRow)
    ensures
        pre.left_with(row, pre),
{
}

proof fn lemma_left_with(pre: Batcher, row: RoutedRow, start: Table, post: Batcher)
    requires
        pre.goes_to(row, start),
        post == (Batcher { tables: post.tables, ..pre }),
        ({
            let i = slot_of(pre.tables@, row.rel.rel_name@);
            &&& i < post.tables@.len()
            &&& post.tables@ == tables_with(pre.tables@, i, post.tables@[i as int])
            &&& abandoned(start, row, post.tables@[i as int])
        }),
    ensures
        pre.left_with(row, post),
{
}

} // verus!

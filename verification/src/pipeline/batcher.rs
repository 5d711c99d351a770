//! Batcher: coalesces routed rows into one insert per table, and says which
//! transactions' rows each insert carries.
use std::sync::Arc;
use vstd::prelude::*;
use vstd::string::*;

use crate::columns::ColumnBuf;
use crate::encoder::{appended, Append, TableEncoder, Verdict, OP_DELETE, OP_INSERT, OP_UPDATE};
use crate::plan::{ColumnPlan, ColumnPlanView, TablePlan, TablePlanView};
use crate::route::RouteSnapshot;
use crate::schema::{HeapOp, RelDescriptor, RelName};
use crate::tuples::CommittedTuple;

verus! {

/// Partial-batch deadline in milliseconds when the operator left it at zero:
/// without one a cold table's rows would pin the watermark.
pub const DEFAULT_PIPELINE_FLUSH_MS: u64 = 100;

/// One decoded row routed to its destination. Permits are known by number.
#[derive(Debug)]
pub struct RoutedRow {
    pub seq: u64,
    pub rel: Arc<RelDescriptor>,
    pub route: Arc<RouteSnapshot>,
    pub committed: CommittedTuple,
    /// Covers this row's reassembled values up to its insert's ack.
    pub value_permit: Option<u64>,
}

/// One slice's rows under the admission permit that covers them.
#[derive(Debug)]
pub struct RowChunk {
    pub rows: Vec<RoutedRow>,
    pub permit: Option<u64>,
}

/// A column's name and type.
#[derive(Debug)]
pub struct ColMeta {
    pub name: String,
    pub type_repr: String,
}

impl View for ColMeta {
    type V = (Seq<char>, Seq<char>);

    open spec fn view(&self) -> (Seq<char>, Seq<char>) {
        (self.name@, self.type_repr@)
    }
}

/// Block shape of one table, shared by its batches until a barrier.
#[derive(Debug)]
pub struct BatchMeta {
    pub table_key: RelName,
    pub insert_sql: String,
    /// Mapped columns, then the appended ones.
    pub columns: Vec<ColMeta>,
    pub schema_epoch: u64,
}

/// Name and type of every column of a plan's block.
pub open spec fn meta_columns(p: TablePlanView) -> Seq<(Seq<char>, Seq<char>)> {
    let mapped = p.columns.map_values(|c: ColumnPlanView| (c.name, c.type_repr));
    let appended = seq![
        (p.system.lsn, "UInt64"@),
        (p.system.xid, "UInt32"@),
        (p.system.commit_ts, "DateTime64(6, 'UTC')"@),
    ];
    mapped + (match p.system.is_deleted {
        Some(d) => appended.push((d, "Bool"@)),
        None => appended,
    })
}

pub open spec fn meta_views(v: Seq<ColMeta>) -> Seq<(Seq<char>, Seq<char>)> {
    v.map_values(|c: ColMeta| c@)
}

fn push_meta(out: &mut Vec<ColMeta>, name: &str, type_repr: &str)
    ensures
        meta_views(final(out)@) == meta_views(old(out)@).push((name@, type_repr@)),
{
    out.push(
        ColMeta { name: String::from_str(name), type_repr: String::from_str(type_repr) },
    );
    proof {
        assert(meta_views(out@) =~= meta_views(old(out)@).push((name@, type_repr@)));
    }
}

impl BatchMeta {
    pub fn from_plan(plan: &TablePlan, table_key: RelName, schema_epoch: u64) -> (r: Self)
        ensures
            r.table_key == table_key,
            r.schema_epoch == schema_epoch,
            r.insert_sql@ == plan@.insert_sql,
            meta_views(r.columns@) == meta_columns(plan@),
    {
        let mut columns: Vec<ColMeta> = Vec::new();
        let mut i: usize = 0;
        let ghost mapped = plan@.columns.map_values(|c: ColumnPlanView| (c.name, c.type_repr));
        proof {
            assert(meta_views(columns@) =~= mapped.subrange(0, 0));
        }
        while i < plan.columns.len()
            invariant
                i <= plan.columns@.len(),
                mapped == plan@.columns.map_values(|c: ColumnPlanView| (c.name, c.type_repr)),
                meta_views(columns@) == mapped.subrange(0, i as int),
            decreases plan.columns@.len() - i,
        {
            let c: &ColumnPlan = &plan.columns[i];
            push_meta(&mut columns, c.name.as_str(), c.type_repr.as_str());
            proof {
                assert(mapped[i as int] == (c.name@, c.type_repr@));
                assert(mapped.subrange(0, i as int + 1) =~= mapped.subrange(0, i as int).push(
                    mapped[i as int],
                ));
            }
            i = i + 1;
        }
        push_meta(&mut columns, plan.system.lsn.as_str(), "UInt64");
        push_meta(&mut columns, plan.system.xid.as_str(), "UInt32");
        push_meta(&mut columns, plan.system.commit_ts.as_str(), "DateTime64(6, 'UTC')");
        if let Some(d) = &plan.system.is_deleted {
            push_meta(&mut columns, d.as_str(), "Bool");
        }
        proof {
            assert(mapped.subrange(0, i as int) =~= mapped);
            assert(meta_views(columns@) =~= meta_columns(plan@));
        }
        BatchMeta { table_key, insert_sql: plan.insert_sql.clone(), columns, schema_epoch }
    }
}

/// One independently durable insert's worth of rows.
pub struct InsertBatch {
    pub meta: Arc<BatchMeta>,
    pub buffers: Vec<ColumnBuf>,
    pub n_rows: usize,
    /// `(seq, rows)` of the transactions whose rows the batch carries.
    pub per_seq: Vec<(u64, u64)>,
    /// Permits that cover the rows, released after the insert's ack.
    pub permits: Vec<u64>,
}

#[derive(Debug, Clone, Copy, PartialEq, Eq, Structural)]
pub struct BatcherConfig {
    pub row_budget: usize,
    pub byte_budget: usize,
    pub inserters: usize,
    /// Partial-batch deadline in milliseconds.
    pub flush_timeout: u64,
}

/// The batch knobs of a live configuration.
#[derive(Debug, Clone, Copy, PartialEq, Eq, Structural)]
pub struct LiveBatchKnobs {
    pub row_budget: usize,
    pub byte_budget: usize,
    pub flush_timeout: u64,
}

/// The knobs that live ones make of those at boot.
pub open spec fn in_force(boot: BatcherConfig, resolved: Option<LiveBatchKnobs>) -> BatcherConfig {
    match resolved {
        None => boot,
        Some(live) => BatcherConfig {
            row_budget: live.row_budget,
            byte_budget: live.byte_budget,
            inserters: boot.inserters,
            flush_timeout: if live.flush_timeout == 0 {
                DEFAULT_PIPELINE_FLUSH_MS
            } else {
                live.flush_timeout
            },
        },
    }
}

/// The knobs in force: the live configuration's when there is one, else the
/// boot ones. A zero live deadline takes the pipeline's default.
pub fn effective_cfg(boot: &BatcherConfig, resolved: Option<&LiveBatchKnobs>) -> (r: BatcherConfig)
    ensures
        r == in_force(*boot, match resolved {
            Some(live) => Some(*live),
            None => None,
        }),
{
    match resolved {
        None => *boot,
        Some(live) => BatcherConfig {
            row_budget: live.row_budget,
            byte_budget: live.byte_budget,
            inserters: boot.inserters,
            flush_timeout: if live.flush_timeout == 0 {
                DEFAULT_PIPELINE_FLUSH_MS
            } else {
                live.flush_timeout
            },
        },
    }
}

/// Rows of `seq` in a list of counts.
pub open spec fn seq_rows(counts: Seq<(u64, u64)>, seq: u64) -> nat
    decreases counts.len(),
{
    if counts.len() == 0 {
        0
    } else {
        seq_rows(counts.drop_last(), seq) + if counts.last().0 == seq {
            counts.last().1 as nat
        } else {
            0
        }
    }
}

/// Rows in a list of counts.
pub open spec fn all_rows(counts: Seq<(u64, u64)>) -> nat
    decreases counts.len(),
{
    if counts.len() == 0 {
        0
    } else {
        all_rows(counts.drop_last()) + counts.last().1 as nat
    }
}

/// One more row of `seq`: the last count grows if it is of `seq`.
pub open spec fn counted_row(counts: Seq<(u64, u64)>, seq: u64) -> Seq<(u64, u64)> {
    if counts.len() > 0 && counts.last().0 == seq {
        counts.drop_last().push((seq, (counts.last().1 + 1) as u64))
    } else {
        counts.push((seq, 1))
    }
}

/// Counting a row adds it to its transaction and to no other.
pub proof fn lemma_counted_row(counts: Seq<(u64, u64)>, seq: u64)
    requires
        all_rows(counts) < u64::MAX,
    ensures
        all_rows(counted_row(counts, seq)) == all_rows(counts) + 1,
        forall|s: u64|
            #[trigger] seq_rows(counted_row(counts, seq), s) == seq_rows(counts, s) + (if s == seq {
                1nat
            } else {
                0
            }),
{
    let next = counted_row(counts, seq);
    if counts.len() > 0 && counts.last().0 == seq {
        assert(next.drop_last() =~= counts.drop_last());
    } else {
        assert(next.drop_last() =~= counts);
    }
}

fn count_row(counts: &mut Vec<(u64, u64)>, seq: u64)
    requires
        all_rows(old(counts)@) < u64::MAX,
    ensures
        final(counts)@ == counted_row(old(counts)@, seq),
{
    let n: usize = counts.len();
    if n > 0 && counts[n - 1].0 == seq {
        let c: u64 = counts[n - 1].1;
        counts.pop();
        counts.push((seq, c + 1));
    } else {
        counts.push((seq, 1));
    }
}

/// Rows that a table has gathered and not sealed.
pub struct Table {
    pub key: RelName,
    pub enc: TableEncoder,
    pub allocated_bytes: usize,
    pub meta: Arc<BatchMeta>,
    pub seq_counts: Vec<(u64, u64)>,
    pub slice_permits: Vec<u64>,
    pub value_permits: Vec<u64>,
    pub deadline: Option<u64>,
}

/// The wire code of an operation; a truncate has none.
pub open spec fn op_code(op: HeapOp) -> Option<i8> {
    match op {
        HeapOp::Insert => Some(OP_INSERT),
        HeapOp::Update => Some(OP_UPDATE),
        HeapOp::HotUpdate => Some(OP_UPDATE),
        HeapOp::Delete => Some(OP_DELETE),
        HeapOp::Truncate => None,
    }
}

pub fn wire_op(op: HeapOp) -> (r: Option<i8>)
    ensures
        r == op_code(op),
{
    match op {
        HeapOp::Insert => Some(OP_INSERT),
        HeapOp::Update => Some(OP_UPDATE),
        HeapOp::HotUpdate => Some(OP_UPDATE),
        HeapOp::Delete => Some(OP_DELETE),
        HeapOp::Truncate => None,
    }
}

impl Table {
    /// The counts cover the buffered rows, and a table with rows has a
    /// deadline.
    pub open spec fn wf(&self) -> bool {
        &&& self.enc.wf()
        &&& all_rows(self.seq_counts@) == self.enc.rows
        &&& self.deadline is Some <==> self.enc.rows > 0
    }

    /// `b` carries exactly the rows that the table has gathered.
    pub open spec fn sealed_as(&self, b: InsertBatch) -> bool {
        &&& b.meta == self.meta
        &&& b.buffers@ == self.enc.buffers@
        &&& b.n_rows == self.enc.rows
        &&& b.per_seq@ == self.seq_counts@
        &&& b.permits@ == self.slice_permits@ + self.value_permits@
    }

    /// The table holds nothing, and is otherwise as before.
    pub open spec fn emptied_from(&self, before: Table) -> bool {
        &&& self.key == before.key
        &&& self.meta == before.meta
        &&& self.enc.plan == before.enc.plan
        &&& self.enc.limits == before.enc.limits
        &&& self.enc.oracle_overhead == before.enc.oracle_overhead
        &&& self.enc.rows == 0
        &&& self.allocated_bytes == 0
        &&& self.seq_counts@.len() == 0
        &&& self.slice_permits@.len() == 0
        &&& self.value_permits@.len() == 0
        &&& self.deadline is None
    }

    /// Seal the gathered rows into a batch; nothing when there are none.
    pub fn emit_batch(&mut self) -> (r: Option<InsertBatch>)
        requires
            old(self).wf(),
        ensures
            final(self).wf(),
            final(self).emptied_from(*old(self)),
            match r {
                None => old(self).enc.rows == 0,
                Some(b) => old(self).enc.rows > 0 && old(self).sealed_as(b),
            },
    {
        self.allocated_bytes = 0;
        let (buffers, n_rows): (Vec<ColumnBuf>, usize) = match self.enc.take_block() {
            Ok(x) => x,
            Err(_) => {
                return None;
            },
        };
        self.deadline = None;
        let mut per_seq: Vec<(u64, u64)> = Vec::new();
        std::mem::swap(&mut per_seq, &mut self.seq_counts);
        let mut permits: Vec<u64> = Vec::new();
        std::mem::swap(&mut permits, &mut self.slice_permits);
        permits.append(&mut self.value_permits);
        if n_rows == 0 {
            return None;
        }
        Some(InsertBatch { meta: self.meta.clone(), buffers, n_rows, per_seq, permits })
    }

    /// Append one row, sealing first when the block is full. Returns the
    /// batch that had to be sealed.
    pub fn add_row(
        &mut self,
        row: &RoutedRow,
        op: i8,
        slice_permit: Option<u64>,
        deadline: u64,
    ) -> (r: Result<Option<InsertBatch>, String>)
        requires
            old(self).wf(),
            old(self).enc.rows < usize::MAX,
            row.route.mapping.columns@.len() == old(self).enc.plan.columns@.len(),
        ensures
            ({
                let t = row.committed;
                let m = row.route.mapping;
                let pre = *old(self);
                let post = *final(self);
                match r {
                    Ok(None) => {
                        &&& pre.enc.verdict(t, m) is Done
                        &&& post.wf()
                        &&& post.allocated_bytes == pre.allocated_bytes
                        &&& post.took_row(pre, *row, op, slice_permit, deadline)
                    },
                    Ok(Some(b)) => {
                        &&& pre.enc.verdict(t, m) is Full
                        &&& pre.enc.rows > 0
                        &&& pre.sealed_as(b)
                        &&& post.wf()
                        &&& post.allocated_bytes == 0
                        &&& exists|mid: Table| #[trigger]
                            mid.emptied_from(pre) && mid.wf() && mid.enc.verdict(t, m) is Done
                                && post.took_row(mid, *row, op, slice_permit, deadline)
                    },
                    Err(text) => match pre.enc.verdict(t, m) {
                        Verdict::Done => false,
                        Verdict::Refused(e) => text@ == e.text() && post.left_by(pre, *row),
                        Verdict::Torn(_, e) => text@ == e.text() && post.left_by(pre, *row),
                        Verdict::Full => exists|mid: Table| #[trigger]
                            mid.emptied_from(pre) && mid.wf() && post.left_by(mid, *row)
                                && match mid.enc.verdict(t, m) {
                                Verdict::Refused(e) => text@ == e.text(),
                                Verdict::Torn(_, e) => text@ == e.text(),
                                _ => false,
                            },
                    },
                }
            }),
    {
        let mut sealed: Option<InsertBatch> = None;
        let ghost pre = *self;
        let ghost mut mid = *self;
        match self.enc.append_row(&row.committed, &row.route.mapping, op) {
            Err(e) => {
                proof {
                    lemma_left_by(pre, *row, *self);
                }
                return Err(e.to_text());
            },
            Ok(Append::Done) => {},
            Ok(Append::Full) => {
                sealed = self.emit_batch();
                proof {
                    mid = *self;
                    assert(mid.emptied_from(pre));
                }
                match self.enc.append_row(&row.committed, &row.route.mapping, op) {
                    Err(e) => {
                        proof {
                            lemma_left_by(mid, *row, *self);
                        }
                        return Err(e.to_text());
                    },
                    Ok(_) => {},
                }
            },
        }
        proof {
            lemma_counted_row(mid.seq_counts@, row.seq);
        }
        if let Some(p) = slice_permit {
            hold_slice(&mut self.slice_permits, p);
        }
        if let Some(p) = row.value_permit {
            self.value_permits.push(p);
        }
        count_row(&mut self.seq_counts, row.seq);
        if self.deadline.is_none() {
            self.deadline = Some(deadline);
        }
        proof {
            assert(self.took_row(mid, *row, op, slice_permit, deadline));
        }
        Ok(sealed)
    }

    /// What a row that could not be appended leaves of `before`: the columns
    /// ahead of the one that failed hold its cells, and nothing else changed.
    #[verifier::opaque]
    pub open spec fn left_by(&self, before: Table, row: RoutedRow) -> bool {
        match before.enc.verdict(row.committed, row.route.mapping) {
            Verdict::Torn(k, _) => {
                &&& *self == (Table { enc: self.enc, ..before })
                &&& before.enc.torn_at(self.enc, row.committed, row.route.mapping, k)
            },
            _ => *self == before,
        }
    }

    /// The table took `row` over from `before`.
    pub open spec fn took_row(
        &self,
        before: Table,
        row: RoutedRow,
        op: i8,
        slice_permit: Option<u64>,
        deadline: u64,
    ) -> bool {
        &&& self.key == before.key
        &&& self.meta == before.meta
        &&& before.enc.grew_to(self.enc, row.committed, row.route.mapping, op)
        &&& self.seq_counts@ == counted_row(before.seq_counts@, row.seq)
        &&& self.slice_permits@ == (match slice_permit {
            Some(p) => with_slice(before.slice_permits@, p),
            None => before.slice_permits@,
        })
        &&& self.value_permits@ == (match row.value_permit {
            Some(p) => before.value_permits@.push(p),
            None => before.value_permits@,
        })
        &&& self.deadline == (match before.deadline {
            Some(d) => Some(d),
            None => Some(deadline),
        })
    }
}

/// Every row of a chunk shares one permit, so the last entry settles whether
/// it is held already.
pub open spec fn with_slice(held: Seq<u64>, p: u64) -> Seq<u64> {
    if held.len() > 0 && held.last() == p {
        held
    } else {
        held.push(p)
    }
}

fn hold_slice(held: &mut Vec<u64>, p: u64)
    ensures
        final(held)@ == with_slice(old(held)@, p),
{
    let n: usize = held.len();
    if n == 0 || held[n - 1] != p {
        held.push(p);
    }
}

proof fn lemma_left_by(before: Table, row: RoutedRow, post: Table)
    requires
        post == (Table { enc: post.enc, ..before }),
        match before.enc.verdict(row.committed, row.route.mapping) {
            Verdict::Torn(k, _) => before.enc.torn_at(
                post.enc,
                row.committed,
                row.route.mapping,
                k,
            ),
            _ => post.enc == before.enc,
        },
    ensures
        post.left_by(before, row),
{
    reveal(Table::left_by);
}

} // verus!

//! Per-table accumulator: one block buffer per ClickHouse column.
use vstd::prelude::*;
use vstd::string::*;

use crate::columns::{shape_of, CellView, ColumnBuf, Shape};
use crate::errors::{EmitterError, ErrorView};
use crate::mapping::{ColumnMapping, TableMapping};
use crate::oracle::{clamp, OracleCell, OracleCellView, OracleColumnBuf};
use crate::plan::{overhead_of, ColumnEncoding, ColumnPlan, ColumnPlanView, TablePlan};
use crate::text::{dec, push_dec};
use crate::tuples::{CommittedTuple, DecodedHeap};
use crate::values::{
    encode_value, encoded, foreign_cell, int_bytes, oracle_cell, push_fixed, push_int, unix_micros, unix_us,
    ColumnValue,
};
use crate::wire::{le_bytes, lemma_le_bytes_len, lemma_pow256_small, push_le};

verus! {

/// Row operations on the wire.
pub const OP_INSERT: i8 = 1;

pub const OP_UPDATE: i8 = 2;

pub const OP_DELETE: i8 = 3;

#[derive(Clone, Copy, Debug, PartialEq, Eq, Structural)]
pub enum Append {
    Done,
    /// Row not appended: seal the block and retry it.
    Full,
}

/// Limits of one request to the source database.
#[derive(Clone, Copy, Debug, PartialEq, Eq, Structural)]
pub struct OracleLimits {
    /// A block that would grow its request beyond this is sealed first.
    pub seal_bytes: usize,
    /// No request may be larger, not even for a single row.
    pub max_request_bytes: usize,
    /// Bytes per cell besides the payload.
    pub cell_header: usize,
    /// Size of a request without columns.
    pub request_frame: usize,
}

pub struct TableEncoder {
    pub plan: TablePlan,
    pub limits: OracleLimits,
    pub rows: usize,
    pub approx_bytes: usize,
    /// Size of the pending request.
    pub oracle_bytes: usize,
    /// Size of a request without cells.
    pub oracle_overhead: usize,
    /// One buffer per planned column, then the appended columns.
    pub buffers: Vec<ColumnBuf>,
}

/// `b` is a buffer for the planned column `c`.
pub open spec fn buf_fits(c: ColumnPlanView, b: ColumnBuf, header: usize) -> bool {
    &&& b.wf()
    &&& match c.encoding {
        ColumnEncoding::Oracle { source_type_oid, source_typmod } => match b {
            ColumnBuf::Oracle(o) => {
                &&& o.source() == (source_type_oid, source_typmod)
                &&& o.type_repr() == c.type_repr
                &&& o.header() == header
            },
            _ => false,
        },
        ColumnEncoding::Local => !(b is Oracle) && Some(b.shape()) == shape_of(c.shape),
    }
}

/// How many columns a block has besides the mapped ones.
pub open spec fn appended(p: TablePlan) -> nat {
    if p.system.is_deleted is Some {
        4
    } else {
        3
    }
}

/// Widths of the appended columns.
pub open spec fn appended_width(i: int) -> nat {
    if i == 0 {
        8
    } else if i == 1 {
        4
    } else if i == 2 {
        8
    } else {
        1
    }
}

/// `bufs` are the buffers of plan `p`.
pub open spec fn layout(p: TablePlan, header: usize, bufs: Seq<ColumnBuf>) -> bool {
    let n = p.columns@.len();
    &&& bufs.len() == n + appended(p)
    &&& forall|i: int| 0 <= i < n ==> buf_fits(p.columns@[i]@, #[trigger] bufs[i], header)
    &&& forall|i: int|
        n <= i < bufs.len() ==> (#[trigger] bufs[i]).wf() && bufs[i].shape() == Shape::Fixed(
            appended_width(i - n),
        )
}

/// The first planned column that has no buffer shape.
pub open spec fn shapeless(columns: Seq<ColumnPlan>) -> bool {
    exists|i: int|
        0 <= i < columns.len() && (#[trigger] columns[i]).encoding is Local && shape_of(
            columns[i]@.shape,
        ) is None
}

fn fixed(width: usize) -> (b: ColumnBuf)
    requires
        width > 0,
    ensures
        b.wf(),
        b.shape() == Shape::Fixed(width as nat),
        b.rows().len() == 0,
{
    let b = ColumnBuf::Fixed { width, bytes: Vec::new() };
    proof {
        assert(0nat % (width as nat) == 0 && 0nat / (width as nat) == 0) by (nonlinear_arith)
            requires
                width > 0,
        ;
    }
    b
}

/// Empty buffers for a plan: the mapped columns, then the appended ones.
pub fn fresh_buffers(plan: &TablePlan, limits: OracleLimits) -> (r: Result<
    Vec<ColumnBuf>,
    EmitterError,
>)
    ensures
        match r {
            Ok(b) => !shapeless(plan.columns@) && layout(*plan, limits.cell_header, b@) && forall|
                i: int,
            |
                0 <= i < b@.len() ==> (#[trigger] b@[i]).rows().len() == 0,
            Err(e) => shapeless(plan.columns@) && e@ == ErrorView::Type(
                "Nullable type with no child"@,
            ),
        },
{
    let mut out: Vec<ColumnBuf> = Vec::new();
    let mut i: usize = 0;
    while i < plan.columns.len()
        invariant
            i <= plan.columns@.len(),
            out@.len() == i,
            forall|k: int|
                0 <= k < i ==> buf_fits(plan.columns@[k]@, #[trigger] out@[k], limits.cell_header)
                    && out@[k].rows().len() == 0,
            forall|k: int|
                0 <= k < i && (#[trigger] plan.columns@[k]).encoding is Local ==> shape_of(
                    plan.columns@[k]@.shape,
                ) is Some,
        decreases plan.columns@.len() - i,
    {
        let c: &ColumnPlan = &plan.columns[i];
        let b = match c.encoding {
            ColumnEncoding::Local => match ColumnBuf::new_for_ast(&c.ast) {
                Ok(b) => b,
                Err(e) => {
                    proof {
                        assert(plan.columns@[i as int].encoding is Local);
                    }
                    return Err(e);
                },
            },
            ColumnEncoding::Oracle { source_type_oid, source_typmod } => ColumnBuf::Oracle(
                OracleColumnBuf::new(
                    source_type_oid,
                    source_typmod,
                    c.type_repr.as_str(),
                    limits.cell_header,
                ),
            ),
        };
        out.push(b);
        i = i + 1;
    }
    out.push(fixed(8));
    out.push(fixed(4));
    out.push(fixed(8));
    if plan.system.is_deleted.is_some() {
        out.push(fixed(1));
    }
    Ok(out)
}

/// An error about a value names the column.
pub open spec fn named(e: ErrorView, target: Seq<char>) -> ErrorView {
    match e {
        ErrorView::UnsupportedValue(_, kind) => ErrorView::UnsupportedValue(target, kind),
        other => other,
    }
}

pub fn name_column(e: EmitterError, target: &str) -> (r: EmitterError)
    ensures
        r@ == named(e@, target@),
{
    match e {
        EmitterError::UnsupportedValue { target_column: _, kind } => EmitterError::UnsupportedValue {
            target_column: String::from_str(target),
            kind,
        },
        other => other,
    }
}

/// The request cell of column `i`.
pub open spec fn foreign_at(
    bufs: Seq<ColumnBuf>,
    heap: DecodedHeap,
    cols: Seq<ColumnMapping>,
    i: int,
) -> Result<OracleCellView, ErrorView> {
    foreign_cell(heap.value(cols[i].src_attnum), bufs[i]->Oracle_0.source().0)
}

/// Column `i` of the row has to be sent to the source database.
pub open spec fn sent(
    bufs: Seq<ColumnBuf>,
    heap: DecodedHeap,
    cols: Seq<ColumnMapping>,
    i: int,
) -> bool {
    bufs[i] is Oracle && match foreign_at(bufs, heap, cols, i) {
        Ok(c) => !(bufs[i]->Oracle_0.local() && c.rendered()),
        Err(_) => false,
    }
}

/// What the first `n` columns of the row add to the request.
pub open spec fn row_bytes(
    bufs: Seq<ColumnBuf>,
    heap: DecodedHeap,
    cols: Seq<ColumnMapping>,
    n: nat,
) -> nat
    decreases n,
{
    if n == 0 {
        0
    } else {
        row_bytes(bufs, heap, cols, (n - 1) as nat) + if sent(bufs, heap, cols, n - 1) {
            foreign_at(bufs, heap, cols, n - 1)->Ok_0.wire_bytes(bufs[n - 1]->Oracle_0.header())
        } else {
            0
        }
    }
}

/// What cells that cost nothing so far start to cost because of the row.
pub open spec fn strand_bytes(
    bufs: Seq<ColumnBuf>,
    heap: DecodedHeap,
    cols: Seq<ColumnMapping>,
    n: nat,
) -> nat
    decreases n,
{
    if n == 0 {
        0
    } else {
        strand_bytes(bufs, heap, cols, (n - 1) as nat) + if sent(bufs, heap, cols, n - 1) {
            bufs[n - 1]->Oracle_0.stranded()
        } else {
            0
        }
    }
}

/// The first refusal of a request cell from column `i` on.
pub open spec fn foreign_fault(
    bufs: Seq<ColumnBuf>,
    heap: DecodedHeap,
    cols: Seq<ColumnMapping>,
    i: int,
) -> Option<ErrorView>
    decreases cols.len() - i,
{
    if i >= cols.len() {
        None
    } else {
        match (bufs[i], foreign_at(bufs, heap, cols, i)) {
            (ColumnBuf::Oracle(_), Err(e)) => Some(named(e, cols[i].target_name@)),
            _ => foreign_fault(bufs, heap, cols, i + 1),
        }
    }
}

/// The row of column `i`: a missing value takes NULL or the type's default.
pub open spec fn cell_at(
    plans: Seq<ColumnPlan>,
    bufs: Seq<ColumnBuf>,
    heap: DecodedHeap,
    cols: Seq<ColumnMapping>,
    i: int,
) -> Result<CellView, ErrorView> {
    if bufs[i] is Oracle {
        match foreign_at(bufs, heap, cols, i) {
            Ok(c) => Ok(CellView::Foreign(c)),
            Err(e) => Err(e),
        }
    } else {
        match heap.value(cols[i].src_attnum) {
            None => Ok(bufs[i].shape().default_cell()),
            Some(ColumnValue::Null) => Ok(bufs[i].shape().default_cell()),
            Some(v) => bufs[i].shape().takes(encoded(v, plans[i].decimal)),
        }
    }
}

/// The first column from `i` on whose value its buffer refuses.
pub open spec fn local_fault(
    plans: Seq<ColumnPlan>,
    bufs: Seq<ColumnBuf>,
    heap: DecodedHeap,
    cols: Seq<ColumnMapping>,
    i: int,
) -> Option<(int, ErrorView)>
    decreases cols.len() - i,
{
    if i >= cols.len() {
        None
    } else {
        match cell_at(plans, bufs, heap, cols, i) {
            Err(e) => Some((i, named(e, cols[i].target_name@))),
            Ok(_) => local_fault(plans, bufs, heap, cols, i + 1),
        }
    }
}

/// The appended cells of a row: position, transaction, commit time in Unix
/// microseconds, delete marker.
pub open spec fn appended_cell(t: CommittedTuple, op_code: i8, i: int) -> CellView {
    CellView::Bytes(
        if i == 0 {
            le_bytes(t.decoded.source_lsn as int, 8)
        } else if i == 1 {
            le_bytes(t.decoded.xid as int, 4)
        } else if i == 2 {
            int_bytes(unix_micros(t.commit_ts), 8)
        } else {
            seq![
                if op_code == OP_DELETE {
                    1u8
                } else {
                    0u8
                },
            ]
        },
    )
}

/// What the buffers take on the wire.
pub open spec fn total_size(bufs: Seq<ColumnBuf>) -> nat
    decreases bufs.len(),
{
    if bufs.len() == 0 {
        0
    } else {
        total_size(bufs.drop_last()) + bufs.last().size()
    }
}

pub open spec fn too_large(need: nat, max: usize) -> ErrorView {
    ErrorView::Type(
        "row needs "@ + dec(clamp(need) as nat) + " oracle bytes, one request carries "@ + dec(
            max as nat,
        ),
    )
}

/// `cell` is the request cell of column `k`, absent for a column that the
/// daemon encodes.
pub open spec fn cell_matches(
    cell: Option<OracleCell>,
    bufs: Seq<ColumnBuf>,
    heap: DecodedHeap,
    cols: Seq<ColumnMapping>,
    k: int,
) -> bool {
    match cell {
        Some(c) => bufs[k] is Oracle && foreign_at(bufs, heap, cols, k) == Ok::<_, ErrorView>(c@),
        None => !(bufs[k] is Oracle),
    }
}

pub open spec fn cells_match(
    cells: Seq<Option<OracleCell>>,
    bufs: Seq<ColumnBuf>,
    heap: DecodedHeap,
    cols: Seq<ColumnMapping>,
    from: int,
) -> bool {
    cells.len() == cols.len() && forall|k: int|
        from <= k < cols.len() ==> cell_matches(#[trigger] cells[k], bufs, heap, cols, k)
}

/// `b` is column `k`'s buffer with the row's cell appended.
pub open spec fn filled(
    plans: Seq<ColumnPlan>,
    bufs: Seq<ColumnBuf>,
    heap: DecodedHeap,
    cols: Seq<ColumnMapping>,
    k: int,
    b: ColumnBuf,
    header: usize,
) -> bool {
    &&& buf_fits(plans[k]@, b, header)
    &&& cell_at(plans, bufs, heap, cols, k) is Ok
    &&& b.rows() == bufs[k].rows().push(cell_at(plans, bufs, heap, cols, k)->Ok_0)
}

/// Empty columns strand nothing.
proof fn lemma_nothing_stranded(
    bufs: Seq<ColumnBuf>,
    heap: DecodedHeap,
    cols: Seq<ColumnMapping>,
    n: nat,
)
    requires
        n <= bufs.len(),
        forall|i: int| 0 <= i < bufs.len() ==> (#[trigger] bufs[i]).rows().len() == 0,
    ensures
        strand_bytes(bufs, heap, cols, n) == 0,
    decreases n,
{
    if n > 0 {
        lemma_nothing_stranded(bufs, heap, cols, (n - 1) as nat);
        assert(bufs[n - 1].rows().len() == 0);
    }
}

fn push_foreign(buf: &mut ColumnBuf, c: OracleCell)
    requires
        *old(buf) is Oracle,
        old(buf).wf(),
    ensures
        *final(buf) is Oracle,
        final(buf).wf(),
        final(buf).rows() == old(buf).rows().push(CellView::Foreign(c@)),
        final(buf)->Oracle_0.source() == old(buf)->Oracle_0.source(),
        final(buf)->Oracle_0.type_repr() == old(buf)->Oracle_0.type_repr(),
        final(buf)->Oracle_0.header() == old(buf)->Oracle_0.header(),
{
    let ghost before = *buf;
    if let ColumnBuf::Oracle(o) = buf {
        o.push(c);
    }
    proof {
        assert(buf.rows() =~= before.rows().push(CellView::Foreign(c@)));
    }
}

fn append_fixed(buf: &mut ColumnBuf, le: &Vec<u8>)
    requires
        old(buf).wf(),
        old(buf).shape() == Shape::Fixed(le@.len()),
    ensures
        final(buf).wf(),
        final(buf).shape() == old(buf).shape(),
        final(buf).rows() == old(buf).rows().push(CellView::Bytes(le@)),
{
    let fits: Result<(), EmitterError> = push_fixed(buf, le.as_slice());
}

fn total_approx(bufs: &Vec<ColumnBuf>) -> (r: usize)
    requires
        forall|i: int| 0 <= i < bufs@.len() ==> (#[trigger] bufs@[i]).wf(),
    ensures
        r == clamp(total_size(bufs@)),
{
    let mut sum: usize = 0;
    let mut i: usize = 0;
    while i < bufs.len()
        invariant
            i <= bufs@.len(),
            forall|k: int| 0 <= k < bufs@.len() ==> (#[trigger] bufs@[k]).wf(),
            sum == clamp(total_size(bufs@.subrange(0, i as int))),
        decreases bufs@.len() - i,
    {
        let ghost next = bufs@.subrange(0, i as int + 1);
        proof {
            assert(next.drop_last() =~= bufs@.subrange(0, i as int));
            assert(next.last() == bufs@[i as int]);
        }
        sum = sum.saturating_add(bufs[i].approx_size());
        i = i + 1;
    }
    proof {
        assert(bufs@.subrange(0, i as int) =~= bufs@);
    }
    sum
}

/// What appending a row comes to.
pub enum Verdict {
    Done,
    /// The block has to be sealed first.
    Full,
    /// Refused before any buffer changed.
    Refused(ErrorView),
    /// The buffer of this column refused its value; earlier ones have theirs.
    Torn(int, ErrorView),
}

impl TableEncoder {
    pub open spec fn verdict(&self, t: CommittedTuple, m: TableMapping) -> Verdict {
        let bufs = self.buffers@;
        let heap = t.decoded;
        let cols = m.columns@;
        let need = row_bytes(bufs, heap, cols, cols.len());
        let strand = strand_bytes(bufs, heap, cols, cols.len());
        match foreign_fault(bufs, heap, cols, 0) {
            Some(e) => Verdict::Refused(e),
            None => if self.rows > 0 && self.oracle_bytes + need + strand
                > self.limits.seal_bytes {
                Verdict::Full
            } else if self.oracle_overhead + need > self.limits.max_request_bytes {
                Verdict::Refused(too_large(need, self.limits.max_request_bytes))
            } else {
                match local_fault(self.plan.columns@, bufs, heap, cols, 0) {
                    Some((k, e)) => Verdict::Torn(k, e),
                    None => Verdict::Done,
                }
            },
        }
    }

    /// `post` has the row's cells in the columns before `k` and is otherwise
    /// as before.
    pub open spec fn torn_at(
        &self,
        post: TableEncoder,
        t: CommittedTuple,
        m: TableMapping,
        k: int,
    ) -> bool {
        let bufs = self.buffers@;
        &&& post == (TableEncoder { buffers: post.buffers, ..*self })
        &&& post.buffers@.len() == bufs.len()
        &&& forall|i: int|
            0 <= i < k ==> filled(
                self.plan.columns@,
                bufs,
                t.decoded,
                m.columns@,
                i,
                #[trigger] post.buffers@[i],
                self.limits.cell_header,
            )
        &&& forall|i: int| k <= i < bufs.len() ==> #[trigger] post.buffers@[i] == bufs[i]
    }

    /// `post` has one row more: each mapped column its cell, each appended
    /// column the row's own.
    pub open spec fn grew_to(
        &self,
        post: TableEncoder,
        t: CommittedTuple,
        m: TableMapping,
        op_code: i8,
    ) -> bool {
        let bufs = self.buffers@;
        let n = m.columns@.len();
        &&& post == (TableEncoder {
            buffers: post.buffers,
            rows: (self.rows + 1) as usize,
            oracle_bytes: post.oracle_bytes,
            approx_bytes: clamp(total_size(post.buffers@)),
            ..*self
        })
        &&& post.oracle_bytes == self.oracle_bytes + row_bytes(bufs, t.decoded, m.columns@, n)
            + strand_bytes(bufs, t.decoded, m.columns@, n)
        &&& post.buffers@.len() == bufs.len()
        &&& forall|i: int|
            0 <= i < n ==> filled(
                self.plan.columns@,
                bufs,
                t.decoded,
                m.columns@,
                i,
                #[trigger] post.buffers@[i],
                self.limits.cell_header,
            )
        &&& forall|i: int|
            n <= i < bufs.len() ==> (#[trigger] post.buffers@[i]).rows() == bufs[i].rows().push(
                appended_cell(t, op_code, i - n),
            )
    }

    pub open spec fn wf(&self) -> bool {
        &&& layout(self.plan, self.limits.cell_header, self.buffers@)
        &&& !shapeless(self.plan.columns@)
        &&& forall|i: int|
            0 <= i < self.buffers@.len() ==> (#[trigger] self.buffers@[i]).rows().len()
                == self.rows
        &&& self.oracle_overhead == overhead_of(self.plan@, self.limits.request_frame)
        &&& self.rows == 0 ==> self.oracle_bytes == self.oracle_overhead
        &&& self.limits.seal_bytes < usize::MAX
        &&& self.limits.max_request_bytes < usize::MAX
    }

    /// An empty accumulator.
    pub fn new(plan: TablePlan, limits: OracleLimits) -> (r: Result<Self, EmitterError>)
        requires
            limits.seal_bytes < usize::MAX,
            limits.max_request_bytes < usize::MAX,
        ensures
            match r {
                Ok(e) => {
                    &&& e.wf()
                    &&& e.plan == plan
                    &&& e.limits == limits
                    &&& e.oracle_overhead == overhead_of(plan@, limits.request_frame)
                    &&& e.rows == 0
                    &&& e.approx_bytes == 0
                },
                Err(e) => shapeless(plan.columns@) && e@ == ErrorView::Type(
                    "Nullable type with no child"@,
                ),
            },
    {
        let oracle_overhead: usize = plan.request_overhead(limits.request_frame);
        match fresh_buffers(&plan, limits) {
            Err(e) => Err(e),
            Ok(buffers) => Ok(
                TableEncoder {
                    plan,
                    limits,
                    rows: 0,
                    approx_bytes: 0,
                    oracle_bytes: oracle_overhead,
                    oracle_overhead,
                    buffers,
                },
            ),
        }
    }

    /// Swap the accumulated buffers out for fresh ones and return them with
    /// the row count.
    pub fn take_block(&mut self) -> (r: Result<(Vec<ColumnBuf>, usize), EmitterError>)
        requires
            old(self).wf(),
        ensures
            r is Ok,
            r->Ok_0.0@ == old(self).buffers@,
            r->Ok_0.1 == old(self).rows,
            final(self).wf(),
            final(self).plan == old(self).plan,
            final(self).limits == old(self).limits,
            final(self).oracle_overhead == old(self).oracle_overhead,
            final(self).rows == 0,
            final(self).approx_bytes == 0,
    {
        let mut block: Vec<ColumnBuf> = match fresh_buffers(&self.plan, self.limits) {
            Ok(b) => b,
            Err(e) => {
                return Err(e);
            },
        };
        std::mem::swap(&mut block, &mut self.buffers);
        let rows: usize = self.rows;
        self.rows = 0;
        self.approx_bytes = 0;
        self.oracle_bytes = self.oracle_overhead;
        Ok((block, rows))
    }

    /// Append one row. [`Append::Full`] leaves everything as it was.
    pub fn append_row(
        &mut self,
        committed: &CommittedTuple,
        mapping: &TableMapping,
        op_code: i8,
    ) -> (r: Result<Append, EmitterError>)
        requires
            old(self).wf(),
            old(self).rows < usize::MAX,
            mapping.columns@.len() == old(self).plan.columns@.len(),
        ensures
            match old(self).verdict(*committed, *mapping) {
                Verdict::Refused(e) => r is Err && r->Err_0@ == e && *final(self) == *old(self),
                Verdict::Full => r == Ok::<_, EmitterError>(Append::Full) && *final(self) == *old(
                    self,
                ),
                Verdict::Torn(k, e) => r is Err && r->Err_0@ == e && old(self).torn_at(
                    *final(self),
                    *committed,
                    *mapping,
                    k,
                ),
                Verdict::Done => r == Ok::<_, EmitterError>(Append::Done) && final(self).wf()
                    && old(self).grew_to(*final(self), *committed, *mapping, op_code),
            },
    {
        let ghost pre = *self;
        let ghost bufs = self.buffers@;
        let ghost heap = committed.decoded;
        let ghost cols = mapping.columns@;
        let n: usize = mapping.columns.len();
        // Size the request cells before any buffer changes.
        let (cells, need, strand): (Vec<Option<OracleCell>>, usize, usize) = match self.size_row(
            &committed.decoded,
            mapping,
        ) {
            Ok(x) => x,
            Err(e) => {
                return Err(e);
            },
        };
        if self.rows > 0 && self.oracle_bytes.saturating_add(need).saturating_add(strand)
            > self.limits.seal_bytes {
            return Ok(Append::Full);
        }
        // The hard cap holds even for a first row.
        if self.oracle_overhead.saturating_add(need) > self.limits.max_request_bytes {
            let mut m: String = String::from_str("row needs ");
            push_dec(&mut m, need as u64);
            m.append(" oracle bytes, one request carries ");
            push_dec(&mut m, self.limits.max_request_bytes as u64);
            return Err(EmitterError::Type(m));
        }
        proof {
            if pre.rows == 0 {
                lemma_nothing_stranded(bufs, heap, cols, n as nat);
            }
        }
        match self.fill_columns(&committed.decoded, mapping, cells) {
            Ok(()) => {},
            Err(e) => {
                return Err(e);
            },
        }
        self.fill_system(committed, op_code, Ghost(bufs));
        self.oracle_bytes = self.oracle_bytes.saturating_add(need).saturating_add(strand);
        self.rows = self.rows + 1;
        self.approx_bytes = total_approx(&self.buffers);
        Ok(Append::Done)
    }

    /// The request cells of a row, one slot per column, and what they cost.
    fn size_row(&self, decoded: &DecodedHeap, mapping: &TableMapping) -> (r: Result<
        (Vec<Option<OracleCell>>, usize, usize),
        EmitterError,
    >)
        requires
            self.wf(),
            mapping.columns@.len() == self.plan.columns@.len(),
        ensures
            ({
                let bufs = self.buffers@;
                let cols = mapping.columns@;
                match r {
                    Err(e) => foreign_fault(bufs, *decoded, cols, 0) == Some(e@),
                    Ok((cells, need, strand)) => {
                        &&& foreign_fault(bufs, *decoded, cols, 0) is None
                        &&& need == clamp(row_bytes(bufs, *decoded, cols, cols.len()))
                        &&& strand == clamp(strand_bytes(bufs, *decoded, cols, cols.len()))
                        &&& cells_match(cells@, bufs, *decoded, cols, 0)
                    },
                }
            }),
    {
        let ghost bufs = self.buffers@;
        let ghost cols = mapping.columns@;
        let ghost plans = self.plan.columns@;
        let n: usize = mapping.columns.len();
        let mut cells: Vec<Option<OracleCell>> = Vec::new();
        let mut need: usize = 0;
        let mut strand: usize = 0;
        let mut i: usize = 0;
        while i < n
            invariant
                i <= n == cols.len(),
                self.wf(),
                bufs == self.buffers@,
                plans == self.plan.columns@,
                plans.len() == n,
                cols == mapping.columns@,
                cells@.len() == i,
                foreign_fault(bufs, *decoded, cols, 0) == foreign_fault(
                    bufs,
                    *decoded,
                    cols,
                    i as int,
                ),
                need == clamp(row_bytes(bufs, *decoded, cols, i as nat)),
                strand == clamp(strand_bytes(bufs, *decoded, cols, i as nat)),
                forall|k: int|
                    0 <= k < i ==> cell_matches(#[trigger] cells@[k], bufs, *decoded, cols, k),
            decreases n - i,
        {
            proof {
                assert(buf_fits(plans[i as int]@, bufs[i as int], self.limits.cell_header));
            }
            let col: &ColumnMapping = &mapping.columns[i];
            let found: Option<OracleCell> = match &self.buffers[i] {
                ColumnBuf::Oracle(o) => {
                    match oracle_cell(decoded.value_of(col.src_attnum), o.source_type_oid()) {
                        Err(e) => {
                            return Err(name_column(e, col.target_name.as_str()));
                        },
                        Ok(cell) => {
                            if !o.resolves_locally(&cell) {
                                need = need.saturating_add(
                                    cell.wire_bytes(self.limits.cell_header),
                                );
                                strand = strand.saturating_add(o.stranded_bytes());
                            }
                            Some(cell)
                        },
                    }
                },
                _ => None,
            };
            cells.push(found);
            i = i + 1;
        }
        Ok((cells, need, strand))
    }

    /// Append the mapped columns' cells of a row.
    fn fill_columns(
        &mut self,
        decoded: &DecodedHeap,
        mapping: &TableMapping,
        cells: Vec<Option<OracleCell>>,
    ) -> (r: Result<(), EmitterError>)
        requires
            old(self).wf(),
            mapping.columns@.len() == old(self).plan.columns@.len(),
            cells_match(cells@, old(self).buffers@, *decoded, mapping.columns@, 0),
        ensures
            ({
                let bufs = old(self).buffers@;
                let plans = old(self).plan.columns@;
                let cols = mapping.columns@;
                let fault = local_fault(plans, bufs, *decoded, cols, 0);
                let k = match fault {
                    Some((k, _)) => k,
                    None => cols.len() as int,
                };
                &&& match r {
                    Ok(()) => fault is None,
                    Err(e) => fault == Some((k, e@)),
                }
                &&& *final(self) == (TableEncoder { buffers: final(self).buffers, ..*old(self) })
                &&& final(self).buffers@.len() == bufs.len()
                &&& 0 <= k <= cols.len()
                &&& forall|i: int|
                    0 <= i < k ==> filled(
                        plans,
                        bufs,
                        *decoded,
                        cols,
                        i,
                        #[trigger] final(self).buffers@[i],
                        old(self).limits.cell_header,
                    )
                &&& forall|i: int|
                    k <= i < bufs.len() ==> #[trigger] final(self).buffers@[i] == bufs[i]
            }),
    {
        let ghost pre = *self;
        let ghost bufs = self.buffers@;
        let ghost cols = mapping.columns@;
        let ghost plans = self.plan.columns@;
        let n: usize = mapping.columns.len();
        let mut slots: Vec<Option<OracleCell>> = cells;
        let mut j: usize = 0;
        while j < n
            invariant
                j <= n == cols.len(),
                pre == *old(self),
                *self == (TableEncoder { buffers: self.buffers, ..pre }),
                pre.wf(),
                bufs == pre.buffers@,
                plans == pre.plan.columns@,
                plans.len() == n,
                cols == mapping.columns@,
                cells_match(slots@, bufs, *decoded, cols, j as int),
                self.buffers@.len() == bufs.len(),
                local_fault(plans, bufs, *decoded, cols, 0) == local_fault(
                    plans,
                    bufs,
                    *decoded,
                    cols,
                    j as int,
                ),
                forall|k: int|
                    0 <= k < j ==> filled(
                        plans,
                        bufs,
                        *decoded,
                        cols,
                        k,
                        #[trigger] self.buffers@[k],
                        pre.limits.cell_header,
                    ),
                forall|k: int| j <= k < bufs.len() ==> #[trigger] self.buffers@[k] == bufs[k],
            decreases n - j,
        {
            proof {
                assert(buf_fits(plans[j as int]@, bufs[j as int], pre.limits.cell_header));
                assert(self.buffers@[j as int] == bufs[j as int]);
                assert(cell_matches(slots@[j as int], bufs, *decoded, cols, j as int));
            }
            let col: &ColumnMapping = &mapping.columns[j];
            let cell: Option<OracleCell> = slots[j].take();
            match cell {
                Some(c) => {
                    push_foreign(&mut self.buffers[j], c);
                },
                None => {
                    match decoded.value_of(col.src_attnum) {
                        None => self.buffers[j].append_default(),
                        Some(ColumnValue::Null) => self.buffers[j].append_default(),
                        Some(v) => {
                            let decimal = self.plan.columns[j].decimal;
                            match encode_value(&mut self.buffers[j], v, decimal) {
                                Ok(()) => {},
                                Err(e) => {
                                    return Err(name_column(e, col.target_name.as_str()));
                                },
                            }
                        },
                    }
                },
            }
            j = j + 1;
        }
        Ok(())
    }

    /// Append the system columns' cells of a row.
    fn fill_system(
        &mut self,
        committed: &CommittedTuple,
        op_code: i8,
        Ghost(bufs): Ghost<Seq<ColumnBuf>>,
    )
        requires
            layout(old(self).plan, old(self).limits.cell_header, bufs),
            old(self).buffers@.len() == bufs.len(),
            forall|i: int|
                old(self).plan.columns@.len() <= i < bufs.len() ==> #[trigger] old(
                    self,
                ).buffers@[i] == bufs[i],
        ensures
            *final(self) == (TableEncoder { buffers: final(self).buffers, ..*old(self) }),
            final(self).buffers@.len() == bufs.len(),
            forall|i: int|
                0 <= i < old(self).plan.columns@.len() ==> #[trigger] final(self).buffers@[i]
                    == old(self).buffers@[i],
            forall|i: int|
                old(self).plan.columns@.len() <= i < bufs.len() ==> {
                    let b = #[trigger] final(self).buffers@[i];
                    &&& b.wf()
                    &&& b.shape() == bufs[i].shape()
                    &&& b.rows() == bufs[i].rows().push(
                        appended_cell(*committed, op_code, i - old(self).plan.columns@.len()),
                    )
                },
    {
        let n: usize = self.plan.columns.len();
        let total: usize = self.buffers.len();
        let decoded: &DecodedHeap = &committed.decoded;
        proof {
            lemma_pow256_small();
            lemma_le_bytes_len(decoded.source_lsn as int, 8);
            lemma_le_bytes_len(decoded.xid as int, 4);
            lemma_le_bytes_len(
                crate::decimal::twos_complement(unix_micros(committed.commit_ts), 8),
                8,
            );
        }
        let mut lsn: Vec<u8> = Vec::new();
        push_le(&mut lsn, decoded.source_lsn, 8);
        let mut xid: Vec<u8> = Vec::new();
        push_le(&mut xid, decoded.xid as u64, 4);
        let mut ts: Vec<u8> = Vec::new();
        push_int(&mut ts, unix_us(committed.commit_ts), 8);
        let mut marker: Vec<u8> = Vec::new();
        marker.push(
            if op_code == OP_DELETE {
                1u8
            } else {
                0u8
            },
        );
        proof {
            assert(lsn@ =~= appended_cell(*committed, op_code, 0)->Bytes_0);
            assert(xid@ =~= appended_cell(*committed, op_code, 1)->Bytes_0);
            assert(ts@ =~= appended_cell(*committed, op_code, 2)->Bytes_0);
            assert(marker@ =~= appended_cell(*committed, op_code, 3)->Bytes_0);
        }
        append_fixed(&mut self.buffers[n], &lsn);
        append_fixed(&mut self.buffers[n + 1], &xid);
        append_fixed(&mut self.buffers[n + 2], &ts);
        if self.plan.system.is_deleted.is_some() {
            append_fixed(&mut self.buffers[n + 3], &marker);
        }
    }
}

/// Two empty blocks of one plan treat a row alike.
pub proof fn empty_blocks_judge_alike(
    a: TableEncoder,
    b: TableEncoder,
    t: CommittedTuple,
    m: TableMapping,
)
    requires
        a.wf(),
        b.wf(),
        a.rows == 0,
        b.rows == 0,
        a.plan@ == b.plan@,
        a.limits == b.limits,
        m.columns@.len() == a.plan.columns@.len(),
    ensures
        a.verdict(t, m) == b.verdict(t, m),
        !(a.verdict(t, m) is Full),
{
    let x = a.buffers@;
    let y = b.buffers@;
    let heap = t.decoded;
    let cols = m.columns@;
    let pa = a.plan.columns@;
    let pb = b.plan.columns@;
    assert(a.plan@.columns.len() == pa.len());
    assert(b.plan@.columns.len() == pb.len());
    assert forall|i: int| 0 <= i < cols.len() implies #[trigger] alike(x[i], y[i]) && pa[i].decimal
        == pb[i].decimal by {
        assert(a.plan@.columns[i] == pa[i]@);
        assert(b.plan@.columns[i] == pb[i]@);
        assert(buf_fits(pa[i]@, x[i], a.limits.cell_header));
        assert(buf_fits(pb[i]@, y[i], b.limits.cell_header));
        assert(x[i].rows().len() == 0);
        assert(y[i].rows().len() == 0);
        if x[i] is Oracle {
            assert(x[i]->Oracle_0.cells().len() == 0);
            assert(y[i]->Oracle_0.cells().len() == 0);
        }
    }
    lemma_alike_sums(x, y, heap, cols, cols.len());
    lemma_alike_faults(pa, pb, x, y, heap, cols, 0);
    lemma_nothing_stranded(x, heap, cols, cols.len());
    lemma_nothing_stranded(y, heap, cols, cols.len());
}

/// Two empty columns that no row tells apart.
spec fn alike(a: ColumnBuf, b: ColumnBuf) -> bool {
    match (a, b) {
        (ColumnBuf::Oracle(x), ColumnBuf::Oracle(y)) => x.source() == y.source() && x.local()
            == y.local() && x.header() == y.header(),
        _ => !(a is Oracle) && !(b is Oracle) && a.shape() == b.shape(),
    }
}

proof fn lemma_alike_sums(
    x: Seq<ColumnBuf>,
    y: Seq<ColumnBuf>,
    heap: DecodedHeap,
    cols: Seq<ColumnMapping>,
    n: nat,
)
    requires
        n <= cols.len(),
        forall|i: int| 0 <= i < cols.len() ==> #[trigger] alike(x[i], y[i]),
    ensures
        row_bytes(x, heap, cols, n) == row_bytes(y, heap, cols, n),
    decreases n,
{
    if n > 0 {
        lemma_alike_sums(x, y, heap, cols, (n - 1) as nat);
        assert(alike(x[n - 1], y[n - 1]));
    }
}

proof fn lemma_alike_faults(
    pa: Seq<ColumnPlan>,
    pb: Seq<ColumnPlan>,
    x: Seq<ColumnBuf>,
    y: Seq<ColumnBuf>,
    heap: DecodedHeap,
    cols: Seq<ColumnMapping>,
    i: int,
)
    requires
        0 <= i,
        forall|k: int|
            0 <= k < cols.len() ==> #[trigger] alike(x[k], y[k]) && pa[k].decimal == pb[k].decimal,
    ensures
        foreign_fault(x, heap, cols, i) == foreign_fault(y, heap, cols, i),
        local_fault(pa, x, heap, cols, i) == local_fault(pb, y, heap, cols, i),
    decreases cols.len() - i,
{
    if i < cols.len() {
        assert(alike(x[i], y[i]));
        lemma_alike_faults(pa, pb, x, y, heap, cols, i + 1);
    }
}

} // verus!

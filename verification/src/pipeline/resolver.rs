//! Columns that the source database has to render, and those that it need not.
use vstd::prelude::*;
use vstd::string::*;

use crate::columns::{literal_column, literal_row, literal_shape, ColumnBuf};
use crate::errors::{EmitterError, ErrorView};
use crate::oracle::OracleCellView;
use crate::pipeline::batcher::InsertBatch;
use crate::schema::RelKey;

verus! {

/// Every cell of the column is rendered already.
pub open spec fn resolves(b: ColumnBuf, n_rows: usize) -> bool {
    match b {
        ColumnBuf::Oracle(o) => o.local() && o.cells().len() == n_rows,
        _ => false,
    }
}

/// `after` is the column's own buffer in place of the gathered cells.
pub open spec fn resolved_as(before: ColumnBuf, type_repr: Seq<char>, after: ColumnBuf) -> bool {
    let shape = literal_shape(type_repr);
    &&& after.wf()
    &&& after.shape() == shape
    &&& after.rows() == before->Oracle_0.cells().map_values(
        |c: OracleCellView| literal_row(shape, c),
    )
}

/// How many of the first `n` columns need no request.
pub open spec fn resolvable(bufs: Seq<ColumnBuf>, n_rows: usize, n: nat) -> nat
    decreases n,
{
    if n == 0 {
        0
    } else {
        resolvable(bufs, n_rows, (n - 1) as nat) + if resolves(bufs[n - 1], n_rows) {
            1nat
        } else {
            0
        }
    }
}

/// Build the columns whose cells are all rendered from the cells themselves;
/// how many there were.
pub fn resolve_local_columns(batch: &mut InsertBatch) -> (n: u64)
    requires
        old(batch).buffers@.len() == old(batch).meta.columns@.len(),
        forall|i: int| 0 <= i < old(batch).buffers@.len() ==> (#[trigger] old(batch).buffers@[i]).wf(),
    ensures
        *final(batch) == (InsertBatch { buffers: final(batch).buffers, ..*old(batch) }),
        final(batch).buffers@.len() == old(batch).buffers@.len(),
        n == resolvable(old(batch).buffers@, old(batch).n_rows, old(batch).buffers@.len()),
        forall|i: int|
            0 <= i < old(batch).buffers@.len() ==> if resolves(
                old(batch).buffers@[i],
                old(batch).n_rows,
            ) {
                resolved_as(
                    old(batch).buffers@[i],
                    old(batch).meta.columns@[i].type_repr@,
                    #[trigger] final(batch).buffers@[i],
                )
            } else {
                final(batch).buffers@[i] == old(batch).buffers@[i]
            },
{
    let ghost pre = *batch;
    let mut n: u64 = 0;
    let mut i: usize = 0;
    let total: usize = batch.buffers.len();
    while i < total
        invariant
            i <= total == pre.buffers@.len(),
            pre == *old(batch),
            *batch == (InsertBatch { buffers: batch.buffers, ..pre }),
            batch.buffers@.len() == total,
            pre.buffers@.len() == pre.meta.columns@.len(),
            n <= i,
            n == resolvable(pre.buffers@, pre.n_rows, i as nat),
            forall|k: int| 0 <= k < total ==> (#[trigger] pre.buffers@[k]).wf(),
            forall|k: int| i <= k < total ==> #[trigger] batch.buffers@[k] == pre.buffers@[k],
            forall|k: int|
                0 <= k < i ==> if resolves(pre.buffers@[k], pre.n_rows) {
                    resolved_as(
                        pre.buffers@[k],
                        pre.meta.columns@[k].type_repr@,
                        #[trigger] batch.buffers@[k],
                    )
                } else {
                    batch.buffers@[k] == pre.buffers@[k]
                },
        decreases total - i,
    {
        proof {
            assert(batch.buffers@[i as int] == pre.buffers@[i as int]);
            assert(pre.buffers@[i as int].wf());
        }
        let local: Option<ColumnBuf> = match &batch.buffers[i] {
            ColumnBuf::Oracle(o) => literal_column(
                o,
                batch.meta.columns[i].type_repr.as_str(),
                batch.n_rows,
            ),
            _ => None,
        };
        if let Some(b) = local {
            batch.buffers[i] = b;
            n = n + 1;
        }
        i = i + 1;
    }
    n
}

/// The ordinals of the columns that have to be rendered, ascending.
pub open spec fn request_ordinals(bufs: Seq<ColumnBuf>) -> Seq<u32>
    decreases bufs.len(),
{
    if bufs.len() == 0 {
        Seq::empty()
    } else if bufs.last() is Oracle {
        request_ordinals(bufs.drop_last()).push((bufs.len() - 1) as u32)
    } else {
        request_ordinals(bufs.drop_last())
    }
}

pub open spec fn absent_text(key: RelKey) -> Seq<char> {
    key.text() + " needs the shadow oracle, which this pipeline has none of"@
}

/// The columns to request for a batch: none for a batch that needs none, and
/// an error for one that needs some where nothing can render them.
pub fn request_columns(batch: &InsertBatch, has_oracle: bool) -> (r: Result<Vec<u32>, String>)
    requires
        batch.buffers@.len() <= u32::MAX,
    ensures
        ({
            let want = request_ordinals(batch.buffers@);
            match r {
                Ok(v) => v@ == want && (want.len() > 0 ==> has_oracle),
                Err(m) => want.len() > 0 && !has_oracle && m@ == absent_text(
                    batch.meta.table_key@,
                ),
            }
        }),
{
    let mut out: Vec<u32> = Vec::new();
    let mut i: usize = 0;
    proof {
        assert(batch.buffers@.subrange(0, 0) =~= Seq::empty());
    }
    while i < batch.buffers.len()
        invariant
            i <= batch.buffers@.len() <= u32::MAX,
            out@ == request_ordinals(batch.buffers@.subrange(0, i as int)),
        decreases batch.buffers@.len() - i,
    {
        proof {
            let part = batch.buffers@.subrange(0, i as int + 1);
            assert(part.drop_last() =~= batch.buffers@.subrange(0, i as int));
            assert(part.last() == batch.buffers@[i as int]);
        }
        if let ColumnBuf::Oracle(_) = &batch.buffers[i] {
            out.push(i as u32);
        }
        i = i + 1;
    }
    proof {
        assert(batch.buffers@.subrange(0, i as int) =~= batch.buffers@);
    }
    if out.len() > 0 && !has_oracle {
        let mut m: String = batch.meta.table_key.to_text();
        m.append(" needs the shadow oracle, which this pipeline has none of");
        return Err(m);
    }
    Ok(out)
}

/// How a batch that could not be rendered stops the pipeline; its rows stay
/// unacknowledged, so a restart replays them.
pub fn resolve_fault(cause: String) -> (m: String)
    ensures
        m@ == "oracle resolve: "@ + ErrorView::Type(cause@).text(),
{
    let mut m: String = String::from_str("oracle resolve: ");
    m.append(EmitterError::Type(cause).to_text().as_str());
    m
}

} // verus!

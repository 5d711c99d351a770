//! Row placement: one planned slice becomes row chunks for the batcher.
use std::sync::Arc;
use vstd::prelude::*;

use crate::pipeline::batcher::{RoutedRow, RowChunk};
use crate::route::RouteSnapshot;
use crate::schema::{HeapOp, RelDescriptor};
use crate::tuples::{CommittedTuple, DecodedHeap};

verus! {

/// Byte half of the chunk trigger. It bounds a chunk of fat rows that would
/// pin many megabytes before the row cap fires.
pub const DECODE_CHUNK_BYTES: usize = 0x40_0000;

/// A planned heap: its row, where it goes, and what it weighs.
#[derive(Debug)]
pub struct PlannedHeap {
    pub rel: Arc<RelDescriptor>,
    pub route: Option<Arc<RouteSnapshot>>,
    pub decoded: DecodedHeap,
    pub approx_bytes: usize,
}

/// The slice that the rows are placed for.
#[derive(Debug, Clone, Copy, PartialEq, Eq, Structural)]
pub struct Slice {
    pub seq: u64,
    pub commit_ts: i64,
    pub commit_lsn: u64,
    pub permit: Option<u64>,
}

/// A delete that has nowhere to land: without a delete marker it would appear
/// as an insert of the old image.
pub open spec fn discarded(h: PlannedHeap, snowflake: bool) -> bool {
    h.route is Some && !snowflake && h.route->0.drops_deletes && h.decoded.op == HeapOp::Delete
}

/// The heap is placed: it is routed and not discarded.
pub open spec fn kept(h: PlannedHeap, snowflake: bool) -> bool {
    h.route is Some && !discarded(h, snowflake)
}

/// The row that a kept heap becomes.
pub open spec fn row_of(h: PlannedHeap, s: Slice, r: RoutedRow) -> bool {
    &&& r.seq == s.seq
    &&& r.rel == h.rel
    &&& h.route == Some(r.route)
    &&& r.committed.decoded == h.decoded
    &&& r.committed.commit_ts == s.commit_ts
    &&& r.committed.commit_lsn == s.commit_lsn
    &&& r.value_permit is None
}

/// The kept heaps, in order.
pub open spec fn kept_heaps(heaps: Seq<PlannedHeap>, snowflake: bool) -> Seq<PlannedHeap>
    decreases heaps.len(),
{
    if heaps.len() == 0 {
        Seq::empty()
    } else if kept(heaps.last(), snowflake) {
        kept_heaps(heaps.drop_last(), snowflake).push(heaps.last())
    } else {
        kept_heaps(heaps.drop_last(), snowflake)
    }
}

/// How many deletes were discarded.
pub open spec fn discards(heaps: Seq<PlannedHeap>, snowflake: bool) -> nat
    decreases heaps.len(),
{
    if heaps.len() == 0 {
        0
    } else {
        discards(heaps.drop_last(), snowflake) + if discarded(heaps.last(), snowflake) {
            1nat
        } else {
            0
        }
    }
}

pub open spec fn weight(heaps: Seq<PlannedHeap>) -> nat
    decreases heaps.len(),
{
    if heaps.len() == 0 {
        0
    } else {
        weight(heaps.drop_last()) + heaps.last().approx_bytes as nat
    }
}

/// A chunk of these heaps is full.
pub open spec fn full(heaps: Seq<PlannedHeap>, chunk_rows: usize) -> bool {
    heaps.len() >= chunk_rows || weight(heaps) >= DECODE_CHUNK_BYTES
}

/// Cut a list of kept heaps into chunks: each is cut as soon as it is full.
/// The last element is what is left over.
pub open spec fn cuts(heaps: Seq<PlannedHeap>, chunk_rows: usize) -> (
    Seq<Seq<PlannedHeap>>,
    Seq<PlannedHeap>,
)
    decreases heaps.len(),
{
    if heaps.len() == 0 {
        (Seq::empty(), Seq::empty())
    } else {
        let (done, open) = cuts(heaps.drop_last(), chunk_rows);
        let more = open.push(heaps.last());
        if full(more, chunk_rows) {
            (done.push(more), Seq::empty())
        } else {
            (done, more)
        }
    }
}

/// The chunks of a slice: the full ones, then what is left over.
pub open spec fn chunked(heaps: Seq<PlannedHeap>, chunk_rows: usize) -> Seq<Seq<PlannedHeap>> {
    let (done, open) = cuts(heaps, chunk_rows);
    if open.len() == 0 {
        done
    } else {
        done.push(open)
    }
}

/// `c` carries the rows of `heaps`, in order, under the slice's permit.
pub open spec fn chunk_of(heaps: Seq<PlannedHeap>, s: Slice, c: RowChunk) -> bool {
    &&& c.rows@.len() == heaps.len()
    &&& c.permit == s.permit
    &&& forall|i: int| 0 <= i < heaps.len() ==> row_of(heaps[i], s, #[trigger] c.rows@[i])
}

/// What a slice became.
pub struct Placed {
    pub chunks: Vec<RowChunk>,
    /// Rows placed; the collector waits for as many acks.
    pub rows: u64,
    pub deletes_discarded: u64,
}

/// Place every routed heap of one slice. Unmapped rows, counted at planning,
/// are discarded here; so are deletes that have nowhere to land. A Snowflake
/// destination keeps its deletes.
pub fn place_rows(heaps: Vec<PlannedHeap>, chunk_rows: usize, snowflake: bool, slice: Slice) -> (r:
    Placed)
    ensures
        ({
            let keep = kept_heaps(heaps@, snowflake);
            let want = chunked(keep, chunk_rows);
            &&& r.rows == keep.len()
            &&& r.deletes_discarded == discards(heaps@, snowflake)
            &&& r.chunks@.len() == want.len()
            &&& forall|i: int|
                0 <= i < want.len() ==> chunk_of(want[i], slice, #[trigger] r.chunks@[i])
        }),
{
    let mut chunks: Vec<RowChunk> = Vec::new();
    let mut buf: Vec<RoutedRow> = Vec::new();
    let mut bytes: usize = 0;
    let mut rows: u64 = 0;
    let mut gone: u64 = 0;
    let ghost all = heaps@;
    let n: usize = heaps.len();
    let mut i: usize = 0;
    for h in iter: heaps
        invariant
            iter.seq() == all,
            i == iter.index(),
            i <= n == all.len(),
            rows == kept_heaps(all.subrange(0, i as int), snowflake).len(),
            rows <= i,
            gone == discards(all.subrange(0, i as int), snowflake),
            gone <= i,
            ({
                let keep = kept_heaps(all.subrange(0, i as int), snowflake);
                let (done, open) = cuts(keep, chunk_rows);
                &&& chunks@.len() == done.len()
                &&& forall|k: int|
                    0 <= k < done.len() ==> chunk_of(done[k], slice, #[trigger] chunks@[k])
                &&& buf@.len() == open.len()
                &&& forall|k: int|
                    0 <= k < open.len() ==> row_of(open[k], slice, #[trigger] buf@[k])
                &&& bytes == crate::oracle::clamp(weight(open))
            }),
    {
        let ghost part = all.subrange(0, i as int + 1);
        let ghost before = kept_heaps(all.subrange(0, i as int), snowflake);
        let ghost open0 = cuts(before, chunk_rows).1;
        proof {
            assert(part.drop_last() =~= all.subrange(0, i as int));
            assert(part.last() == all[i as int]);
            assert(h == all[i as int]);
        }
        i = i + 1;
        match h.route {
            None => {},
            Some(route) => {
                let is_delete: bool = match h.decoded.op {
                    HeapOp::Delete => true,
                    _ => false,
                };
                if !snowflake && route.drops_deletes && is_delete {
                    gone = gone + 1;
                } else {
                    let ghost more = open0.push(all[i - 1]);
                    proof {
                        assert(kept_heaps(part, snowflake) == before.push(all[i - 1]));
                        assert(before.push(all[i - 1]).drop_last() =~= before);
                        assert(more.drop_last() =~= open0);
                    }
                    bytes = bytes.saturating_add(h.approx_bytes);
                    buf.push(
                        RoutedRow {
                            seq: slice.seq,
                            rel: h.rel,
                            route,
                            committed: CommittedTuple {
                                decoded: h.decoded,
                                commit_ts: slice.commit_ts,
                                commit_lsn: slice.commit_lsn,
                            },
                            value_permit: None,
                        },
                    );
                    rows = rows + 1;
                    if buf.len() >= chunk_rows || bytes >= DECODE_CHUNK_BYTES {
                        let mut out: Vec<RoutedRow> = Vec::new();
                        std::mem::swap(&mut out, &mut buf);
                        chunks.push(RowChunk { rows: out, permit: slice.permit });
                        bytes = 0;
                    }
                }
            },
        }
    }
    proof {
        assert(all.subrange(0, i as int) =~= all);
    }
    if buf.len() > 0 {
        chunks.push(RowChunk { rows: buf, permit: slice.permit });
    }
    Placed { chunks, rows, deletes_discarded: gone }
}

/// Lists one after the other.
pub open spec fn strung(parts: Seq<Seq<PlannedHeap>>) -> Seq<PlannedHeap>
    decreases parts.len(),
{
    if parts.len() == 0 {
        Seq::empty()
    } else {
        strung(parts.drop_last()) + parts.last()
    }
}

/// Chunking loses no row, repeats none and keeps their order; every chunk but
/// the last is full, and none is empty.
pub proof fn chunks_hold_every_row_once(heaps: Seq<PlannedHeap>, chunk_rows: usize)
    ensures
        strung(chunked(heaps, chunk_rows)) == heaps,
        forall|i: int|
            0 <= i < chunked(heaps, chunk_rows).len() ==> (#[trigger] chunked(
                heaps,
                chunk_rows,
            )[i]).len() > 0,
        forall|i: int|
            0 <= i < chunked(heaps, chunk_rows).len() - 1 ==> full(
                #[trigger] chunked(heaps, chunk_rows)[i],
                chunk_rows,
            ),
{
    let (done, open) = cuts(heaps, chunk_rows);
    lemma_cuts(heaps, chunk_rows);
    if open.len() > 0 {
        assert(done.push(open).drop_last() =~= done);
    } else {
        assert(strung(done) + open =~= strung(done));
    }
}

proof fn lemma_cuts(heaps: Seq<PlannedHeap>, chunk_rows: usize)
    ensures
        ({
            let (done, open) = cuts(heaps, chunk_rows);
            &&& strung(done) + open == heaps
            &&& forall|i: int|
                0 <= i < done.len() ==> (#[trigger] done[i]).len() > 0 && full(
                    done[i],
                    chunk_rows,
                )
        }),
    decreases heaps.len(),
{
    if heaps.len() == 0 {
        assert(strung(Seq::empty()) + Seq::empty() =~= heaps);
    } else {
        lemma_cuts(heaps.drop_last(), chunk_rows);
        let (done, open) = cuts(heaps.drop_last(), chunk_rows);
        let more = open.push(heaps.last());
        assert(strung(done) + more =~= (strung(done) + open).push(heaps.last()));
        assert(heaps.drop_last().push(heaps.last()) =~= heaps);
        if full(more, chunk_rows) {
            assert(done.push(more).drop_last() =~= done);
            assert(strung(done.push(more)) + Seq::empty() =~= heaps);
        }
    }
}

} // verus!

//! What becomes of decoded rows on their way to the destination.
use vstd::prelude::*;

use crate::columns::ColumnBuf;
use crate::pipeline::batcher::{
    in_force, seq_rows, BatchMeta, BatcherConfig, InsertBatch, LiveBatchKnobs, RowChunk,
};
use crate::pipeline::decode::{
    chunk_of, chunked, cuts, discarded, discards, full, kept, kept_heaps, row_of, weight,
    PlannedHeap, Slice,
};
use crate::pipeline::inserter::{
    missing_column, parsed_epoch, BatchStart, Inserter, LiveInsertKnobs,
};
use crate::pipeline::resolver::request_ordinals;
use crate::pipeline::standup::{budget_fault, planned, ChunkStore, PipelineConfig, TailStart};
use crate::pipeline::table_worker::{AfterStart, Cause, Phase, TableWorker, WorkerStep};
use crate::pipeline::tail::{
    added, delivery_text, encoding_of, finish_fault, flush_fault, is_due, lineage_of, proof_fault,
    tail_sizes_of, DeliveryOutcome, ProofOutcome, SnowflakeBatch, SnowflakeEncoding, SnowflakeRow,
};
use crate::schema::{HeapOp, RelName};

verus! {

/// A row of a routed relation is placed unless it is a delete that its table
/// has no column for; a Snowflake table has one. Rows of other relations are
/// not placed, and do not count as discarded.
pub proof fn routed_rows_are_placed(h: PlannedHeap, snowflake: bool)
    ensures
        h.route is None ==> !kept(h, snowflake) && !discarded(h, snowflake),
        h.route is Some && h.decoded.op != HeapOp::Delete ==> kept(h, snowflake),
        h.route is Some && snowflake ==> kept(h, snowflake),
        h.route is Some && !h.route->0.drops_deletes ==> kept(h, snowflake),
        h.route is Some && h.decoded.op == HeapOp::Delete && h.route->0.drops_deletes && !snowflake
            ==> discarded(h, snowflake),
        !(kept(h, snowflake) && discarded(h, snowflake)),
{
}

/// The rows placed are the slice's own, in its order; the deletes left out are
/// all counted.
pub proof fn placed_rows_keep_their_order(heaps: Seq<PlannedHeap>, snowflake: bool)
    ensures
        kept_heaps(heaps, snowflake) == heaps.filter(|h: PlannedHeap| kept(h, snowflake)),
        discards(heaps, snowflake) == heaps.filter(
            |h: PlannedHeap| discarded(h, snowflake),
        ).len(),
    decreases heaps.len(),
{
    reveal(Seq::filter);
    if heaps.len() > 0 {
        placed_rows_keep_their_order(heaps.drop_last(), snowflake);
    }
}

proof fn lemma_cuts(heaps: Seq<PlannedHeap>, chunk_rows: usize)
    requires
        chunk_rows > 0,
    ensures
        !full(cuts(heaps, chunk_rows).1, chunk_rows),
        forall|i: int|
            0 <= i < cuts(heaps, chunk_rows).0.len() ==> {
                let c = #[trigger] cuts(heaps, chunk_rows).0[i];
                c.len() > 0 && full(c, chunk_rows) && !full(c.drop_last(), chunk_rows)
            },
    decreases heaps.len(),
{
    if heaps.len() == 0 {
        assert(weight(cuts(heaps, chunk_rows).1) == 0);
    } else {
        lemma_cuts(heaps.drop_last(), chunk_rows);
        let open = cuts(heaps.drop_last(), chunk_rows).1;
        let more = open.push(heaps.last());
        assert(more.drop_last() == open);
        assert(weight(Seq::<PlannedHeap>::empty()) == 0);
    }
}

/// A chunk ends with the row that fills it, by number or at four mebibytes, and
/// only the last may be smaller.
pub proof fn chunks_end_when_they_are_full(heaps: Seq<PlannedHeap>, chunk_rows: usize, i: int)
    requires
        chunk_rows > 0,
        0 <= i < chunked(heaps, chunk_rows).len(),
    ensures
        ({
            let c = chunked(heaps, chunk_rows)[i];
            &&& 0 < c.len() <= chunk_rows
            &&& weight(c.drop_last()) < 4 * 1024 * 1024
            &&& i + 1 < chunked(heaps, chunk_rows).len() ==> c.len() == chunk_rows || weight(c) >= 4
                * 1024 * 1024
        }),
{
    lemma_cuts(heaps, chunk_rows);
    let (done, open) = cuts(heaps, chunk_rows);
    let c = chunked(heaps, chunk_rows)[i];
    if i < done.len() {
        assert(c == done[i]);
        assert(c.drop_last().len() == c.len() - 1);
    } else {
        assert(c == open);
        assert(weight(open) == weight(open.drop_last()) + open.last().approx_bytes as nat);
    }
}

/// Every row of a chunk is one heap of the slice: it goes by the slice's seq,
/// is written as of its commit, and holds that heap and its route.
pub proof fn placed_rows_carry_their_commit(
    heaps: Seq<PlannedHeap>,
    s: Slice,
    c: RowChunk,
    i: int,
)
    requires
        chunk_of(heaps, s, c),
        0 <= i < heaps.len(),
    ensures
        c.rows@.len() == heaps.len(),
        c.permit == s.permit,
        c.rows@[i].seq == s.seq,
        c.rows@[i].committed.commit_lsn == s.commit_lsn,
        c.rows@[i].committed.commit_ts == s.commit_ts,
        c.rows@[i].committed.decoded == heaps[i].decoded,
        c.rows@[i].rel == heaps[i].rel,
        heaps[i].route == Some(c.rows@[i].route),
        c.rows@[i].value_permit is None,
{
    assert(row_of(heaps[i], s, c.rows@[i]));
}

/// Live knobs are taken as they are, a zero deadline apart, which is a tenth of
/// a second; the number of inserters stays that of the boot. Without live knobs
/// nothing changes.
pub proof fn live_knobs_are_taken(boot: BatcherConfig, live: LiveBatchKnobs)
    ensures
        in_force(boot, None) == boot,
        in_force(boot, Some(live)).row_budget == live.row_budget,
        in_force(boot, Some(live)).byte_budget == live.byte_budget,
        in_force(boot, Some(live)).inserters == boot.inserters,
        live.flush_timeout > 0 ==> in_force(boot, Some(live)).flush_timeout == live.flush_timeout,
        live.flush_timeout == 0 ==> in_force(boot, Some(live)).flush_timeout == 100,
{
}

/// Every pool of a tail has a worker and every queue a place: one for each
/// inserter behind the resolvers, two before them and four at least. A zero
/// deadline is a tenth of a second.
pub proof fn tails_have_room_for_their_workers(
    inserter_pool: usize,
    oracle_width: Option<usize>,
    flush_timeout: u64,
)
    requires
        inserter_pool <= usize::MAX / 2,
    ensures
        ({
            let s = tail_sizes_of(inserter_pool, oracle_width, flush_timeout);
            &&& s.inserters >= 1 && s.resolvers >= 1
            &&& inserter_pool >= 1 ==> s.inserters == inserter_pool
            &&& s.resolved_queue == s.inserters
            &&& s.sealed_queue >= 4 && s.sealed_queue >= 2 * s.inserters
            &&& s.sealed_queue == 4 || s.sealed_queue == 2 * s.inserters
            &&& oracle_width is None ==> s.resolvers == 1
            &&& oracle_width is Some && oracle_width->0 >= 1 ==> s.resolvers == oracle_width->0
            &&& s.flush_timeout > 0
            &&& flush_timeout > 0 ==> s.flush_timeout == flush_timeout
            &&& flush_timeout == 0 ==> s.flush_timeout == 100
        }),
{
}

/// A flush is proven durable when nothing went wrong, and only then; a cause
/// that is known is what the failure reports.
pub proof fn only_durable_flushes_pass(cause: Option<Seq<char>>, o: ProofOutcome)
    ensures
        proof_fault(cause, o) is None <==> o is Durable,
        cause is Some && (o is SendFailed || o is FatalDuringFlush || o is FatalDuringDrain)
            ==> proof_fault(cause, o) == cause,
{
}

/// A tail ends well when its rows are proven and no cause came up.
pub proof fn proven_tails_do_not_hide_a_cause(cause: Option<Seq<char>>, proven: Result<(), String>)
    ensures
        finish_fault(cause, proven) is None <==> proven is Ok && cause is None,
        proven is Err ==> finish_fault(cause, proven) == Some(proven->Err_0@),
        proven is Ok ==> finish_fault(cause, proven) == cause,
{
}

/// A delivery counts when it finished without an error; the error of one that
/// finished is passed on as it is.
pub proof fn only_finished_deliveries_count(d: DeliveryOutcome)
    ensures
        delivery_text(d) is None <==> (d is Finished && d->Finished_0 is Ok),
        d matches DeliveryOutcome::Finished(Err(m)) ==> delivery_text(d) == Some(m@),
{
}

/// A flush of all workers passes when each took it and each answered.
pub proof fn flushes_pass_when_every_worker_answered(sent: Seq<bool>, answered: Seq<bool>)
    ensures
        flush_fault(sent, answered) is None <==> (forall|i: int|
            0 <= i < sent.len() ==> #[trigger] sent[i]) && (forall|i: int|
            0 <= i < answered.len() ==> #[trigger] answered[i]),
{
}

/// A delete is the only row that is marked deleted, an update the only one with
/// two images; a truncate has no row.
pub proof fn operations_have_their_rows(op: HeapOp)
    ensures
        encoding_of(op) is None <==> op == HeapOp::Truncate,
        encoding_of(op) == Some(SnowflakeEncoding::Update) <==> op == HeapOp::Update || op
            == HeapOp::HotUpdate,
        encoding_of(op) == Some(SnowflakeEncoding::One { deleted: true }) <==> op == HeapOp::Delete,
        encoding_of(op) == Some(SnowflakeEncoding::One { deleted: false }) <==> op
            == HeapOp::Insert,
{
}

/// A row goes to its table's own incarnation; one of a snapshot goes by the
/// snapshot's generation, and is refused where the snapshot has none for it.
pub proof fn rows_go_by_their_generation(incarnation: u64, generation: u64, snapshot: Option<u64>)
    ensures
        lineage_of((incarnation, generation), None) == Some((incarnation, generation)),
        match lineage_of((incarnation, generation), Some(snapshot)) {
            Some((i, g)) => i == incarnation && snapshot == Some(g),
            None => snapshot is None,
        },
{
}

/// A row goes behind the batch's other rows and is counted once under its seq.
/// The batch keeps what it held, permits and deadline with it.
pub proof fn batches_keep_what_they_hold<R>(
    held: Option<SnowflakeBatch<R>>,
    row: SnowflakeRow<R>,
    deadline: u64,
    b: SnowflakeBatch<R>,
)
    requires
        added(held, row, deadline, b),
    ensures
        b.schema == row.schema,
        b.rows@.len() == (match held {
            Some(h) => h.rows@.len(),
            None => 0,
        }) + row.encoded@.len(),
        held matches Some(h) ==> h.rows@.is_prefix_of(b.rows@) && h.permits@.is_prefix_of(b.permits@)
            && b.deadline == h.deadline && b.bytes >= h.bytes,
        held is None ==> b.deadline == deadline && b.bytes == row.bytes,
        row.value_permit matches Some(p) ==> b.permits@.contains(p),
        row.chunk_permit matches Some(p) ==> b.permits@.contains(p),
        seq_rows(b.per_seq@, row.seq) == (match held {
            Some(h) => seq_rows(h.per_seq@, row.seq),
            None => 0,
        }) + 1,
{
    let held_permits = match held {
        Some(h) => h.permits@,
        None => Seq::empty(),
    };
    let x = match row.value_permit {
        Some(p) => held_permits.push(p),
        None => held_permits,
    };
    if let Some(p) = row.value_permit {
        assert(b.permits@[held_permits.len() as int] == p);
    }
    if let Some(p) = row.chunk_permit {
        assert(b.permits@[x.len() as int] == p);
    }
}

/// A batch is due at either budget; one that is due stays so as it grows, and
/// no batch is not due.
pub proof fn full_batches_are_due<R>(
    batch: SnowflakeBatch<R>,
    row_budget: usize,
    byte_budget: usize,
)
    ensures
        !is_due(None::<SnowflakeBatch<R>>, row_budget, byte_budget),
        batch.rows@.len() >= row_budget ==> is_due(Some(batch), row_budget, byte_budget),
        batch.bytes >= byte_budget ==> is_due(Some(batch), row_budget, byte_budget),
        batch.rows@.len() < row_budget && batch.bytes < byte_budget ==> !is_due(
            Some(batch),
            row_budget,
            byte_budget,
        ),
{
}

/// The open batch of a table is delivered or, while as many deliveries run as
/// may, kept; it is delivered alone and once.
pub proof fn open_batches_are_not_lost<R>(
    pre: TableWorker<R>,
    cause: Cause,
    post: TableWorker<R>,
    step: WorkerStep<R>,
    b: SnowflakeBatch<R>,
)
    requires
        TableWorker::started(pre, cause, post, step),
        pre.batch == Some(b),
    ensures
        pre.running < pre.max_parallel ==> step is Deliver && step->batch == b && post.batch is None
            && post.running == pre.running + 1,
        pre.running >= pre.max_parallel ==> step is AwaitDelivery && post.batch == Some(b)
            && post.running == pre.running && post.phase == Phase::Crowded(cause),
        step is Deliver && (cause is Flush || cause is Close) ==> step->next
            == AfterStart::AwaitDelivery && post.phase == Phase::Draining(cause),
        step is Deliver && (cause is Budget || cause is Deadline) ==> step->next
            == AfterStart::Listen && post.phase == Phase::Open,
{
}

/// A flush is answered, and a closed worker ended, when nothing is open and
/// nothing runs; otherwise the deliveries that run are waited for.
pub proof fn idle_workers_answer_at_once<R>(
    pre: TableWorker<R>,
    cause: Cause,
    post: TableWorker<R>,
    step: WorkerStep<R>,
)
    requires
        TableWorker::started(pre, cause, post, step),
        pre.batch is None,
    ensures
        step is Reply <==> cause is Flush && pre.running == 0,
        step is Stop <==> cause is Close && pre.running == 0,
        step is Stop ==> step->Stop_0 is None && post.phase == Phase::Stopped,
        step is Reply ==> post.phase == Phase::Open,
        step is AwaitDelivery <==> (cause is Flush || cause is Close) && pre.running > 0,
        !(step is Deliver),
        post.batch is None && post.running == pre.running,
{
}

/// A delivery that fails is blamed on what the worker waits for, and on the
/// budget while it waits for nothing.
pub proof fn failures_are_blamed_on_what_waits<R>(w: TableWorker<R>, cause: Cause)
    ensures
        w.phase == Phase::Crowded(cause) ==> w.blamed() == cause,
        w.phase == Phase::Draining(cause) ==> w.blamed() == cause,
        w.phase == Phase::Open ==> w.blamed() == Cause::Budget,
{
}

/// A batch reconnects when the live knobs name another server, user or codec,
/// and only then; it then goes by the live knobs.
pub proof fn connections_follow_the_live_knobs(
    pre: Inserter,
    live: LiveInsertKnobs,
    meta: BatchMeta,
    post: Inserter,
    r: BatchStart,
)
    ensures
        pre.begun(None, meta, post, r) ==> !r.reconnect && post.conn@ == pre.conn@
            && post.compression == pre.compression && post.retry_max_attempts
            == pre.retry_max_attempts,
        pre.begun(Some(&live), meta, post, r) ==> post.conn@ == live.conn@ && post.compression
            == live.compression && post.retry_max_attempts == live.retry_max_attempts,
        pre.begun(Some(&live), meta, post, r) && live.conn@ != pre.conn@ ==> r.reconnect,
        pre.begun(Some(&live), meta, post, r) && live.compression != pre.compression
            ==> r.reconnect,
        pre.begun(Some(&live), meta, post, r) && live.conn@ == pre.conn@ && live.compression
            == pre.compression ==> !r.reconnect,
{
}

/// A table's column types are parsed once an epoch: not again in the one they
/// were last parsed in, and again in any other.
pub proof fn types_are_parsed_once_an_epoch(
    pre: Inserter,
    live: Option<&LiveInsertKnobs>,
    meta: BatchMeta,
    post: Inserter,
    r: BatchStart,
    earlier: Seq<(RelName, u64)>,
    table: RelName,
    epoch: u64,
)
    requires
        pre.begun(live, meta, post, r),
        pre.parsed@ == earlier.push((table, epoch)),
    ensures
        meta.table_key@ == table@ ==> r.parse_types == (meta.schema_epoch != epoch),
        meta.table_key@ != table@ && parsed_epoch(earlier, meta.table_key@) is None
            ==> r.parse_types,
        post.parsed@ == pre.parsed@,
{
    assert(pre.parsed@.drop_last() == earlier);
}

/// A block can be built when every column that the source database renders has
/// been rendered; otherwise a column that is missing is named.
pub proof fn blocks_need_every_rendered_column(batch: InsertBatch, rendered: Seq<u32>, i: int)
    requires
        0 <= i,
    ensures
        missing_column(batch, rendered, i) is None <==> (forall|k: int|
            i <= k < batch.buffers@.len() && #[trigger] batch.buffers@[k] is Oracle
                ==> rendered.contains(k as u32)),
        missing_column(batch, rendered, i) matches Some(name) ==> exists|k: int|
            i <= k < batch.buffers@.len() && #[trigger] batch.buffers@[k] is Oracle
                && !rendered.contains(k as u32) && name == batch.meta.columns@[k].name@,
    decreases batch.buffers@.len() - i,
{
    if i < batch.buffers@.len() {
        blocks_need_every_rendered_column(batch, rendered, i + 1);
    }
}

/// The source database is asked for exactly the columns that it renders, each
/// once and in their order.
pub proof fn rendered_columns_are_asked_for(bufs: Seq<ColumnBuf>)
    requires
        bufs.len() <= u32::MAX,
    ensures
        forall|k: int|
            0 <= k < bufs.len() ==> (#[trigger] bufs[k] is Oracle <==> request_ordinals(
                bufs,
            ).contains(k as u32)),
        forall|a: int, b: int|
            0 <= a < b < request_ordinals(bufs).len() ==> #[trigger] request_ordinals(bufs)[a]
                < #[trigger] request_ordinals(bufs)[b],
        forall|a: int|
            0 <= a < request_ordinals(bufs).len() ==> #[trigger] request_ordinals(bufs)[a]
                < bufs.len(),
    decreases bufs.len(),
{
    if bufs.len() > 0 {
        let front = bufs.drop_last();
        rendered_columns_are_asked_for(front);
        let r = request_ordinals(bufs);
        let f = request_ordinals(front);
        assert forall|k: int| 0 <= k < bufs.len() implies (#[trigger] bufs[k] is Oracle
            <==> r.contains(k as u32)) by {
            if k < front.len() {
                assert(front[k] == bufs[k]);
                if f.contains(k as u32) {
                    let a = choose|a: int| 0 <= a < f.len() && f[a] == k as u32;
                    assert(r[a] == k as u32);
                }
                if r.contains(k as u32) {
                    let a = choose|a: int| 0 <= a < r.len() && r[a] == k as u32;
                    if a < f.len() {
                        assert(f[a] == k as u32);
                    }
                }
            } else {
                if bufs[k] is Oracle {
                    assert(r[f.len() as int] == k as u32);
                } else if r.contains(k as u32) {
                    let a = choose|a: int| 0 <= a < r.len() && r[a] == k as u32;
                    assert(f[a] < front.len());
                }
            }
        }
    }
}

/// A run without a destination has neither a chunk store nor a tail that
/// inserts; one with Snowflake tables inserts nothing, and any other inserts.
pub proof fn destinations_decide_the_tail(c: PipelineConfig)
    ensures
        c.tail is Null <==> planned(c).tail is Null,
        c.tail is Null <==> planned(c).store is Absent,
        c.tail is ClickHouse ==> planned(c).store == ChunkStore::Kept(c.toast),
        planned(c).tail is Snowflake <==> c.tail is ClickHouse && c.snowflake,
        planned(c).tail is Inserts <==> c.tail is ClickHouse && !c.snowflake,
        planned(c).tail matches TailStart::Inserts(s) ==> (c.inserter_pool_size > 0 ==> s.inserters
            == c.inserter_pool_size) && (c.knobs.flush_timeout > 0 ==> s.flush_timeout
            == c.knobs.flush_timeout),
{
}

/// There is a decoder at least, four jobs wait for each and eight in all, and
/// chunks have the rows that are asked for.
pub proof fn decoders_have_jobs_waiting(c: PipelineConfig)
    requires
        c.decoder_pool_size <= usize::MAX / 4,
    ensures
        planned(c).decoders >= 1,
        c.decoder_pool_size >= 1 ==> planned(c).decoders == c.decoder_pool_size,
        planned(c).job_queue >= 8 && planned(c).job_queue >= 4 * planned(c).decoders,
        planned(c).job_queue == 8 || planned(c).job_queue == 4 * planned(c).decoders,
        planned(c).chunk_rows == c.knobs.decode_chunk_rows,
{
}

/// A shared pool is taken as it is. One of the pipeline's own has all the bytes
/// that are allowed, of which each decoder has its reserve; it is accepted only
/// when the reserves are no more than half of it, and the rest holds what a
/// drain keeps and two of its batches.
pub proof fn pools_leave_room_for_a_drain(c: PipelineConfig, drain_retained: usize)
    ensures
        c.budget matches Some(b) ==> planned(c).budget == b && budget_fault(c, drain_retained)
            is None,
        c.budget is None ==> planned(c).budget.total == c.knobs.resident_payload_max,
        c.budget is None && planned(c).decoders * c.knobs.value_reserve <= usize::MAX ==> planned(
            c,
        ).budget.leaf_reserve == planned(c).decoders * c.knobs.value_reserve,
        c.budget is None ==> (budget_fault(c, drain_retained) is None <==> 2
            * planned(c).budget.leaf_reserve <= planned(c).budget.total && planned(c).budget.total
            - planned(c).budget.leaf_reserve >= drain_retained + 2 * c.knobs.drain_batch_bytes),
{
    let m = planned(c).decoders;
    assert(m >= 1);
    assert(crate::pipeline::budget::at_least_one(m) == m);
}

} // verus!

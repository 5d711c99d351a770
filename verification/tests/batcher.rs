//! Coalescing of rows into inserts, and what surrounds an insert.
use std::sync::Arc;
use walshadow::columns::ColumnBuf;
use walshadow::conn::{CompressionChoice, ConnParams};
use walshadow::encoder::OracleLimits;
use walshadow::errors::EmitterError;
use walshadow::mapping::{ColumnMapping, SystemColumns, TableMapping, TableTarget};
use walshadow::pipeline::batch_hub::{seal_decision, Batcher};
use walshadow::pipeline::batcher::{
    effective_cfg, wire_op, BatcherConfig, InsertBatch, LiveBatchKnobs, RoutedRow, RowChunk,
    DEFAULT_PIPELINE_FLUSH_MS,
};
use walshadow::pipeline::decode::{place_rows, PlannedHeap, Slice, DECODE_CHUNK_BYTES};
use walshadow::pipeline::inserter::{
    column_sources, BatchOutcome, BatchStart, ColumnSource, InsertRun, InsertStage, Inserter,
    LiveInsertKnobs,
};
use walshadow::pipeline::resolver::{request_columns, resolve_fault, resolve_local_columns};
use walshadow::plan::ColumnTypes;
use walshadow::route::RouteSnapshot;
use walshadow::schema::{HeapOp, RelAttr, RelDescriptor, RelFileNode, RelName, ReplIdent};
use walshadow::tuples::{CommittedTuple, DecodedHeap, DecodedTuple};
use walshadow::types::{LeafType, TypeAst, TypeKind};
use walshadow::values::ColumnValue;

const HOUR: u64 = 3_600_000;
const GEOM_OID: u32 = 17_000;
const RFN: RelFileNode = RelFileNode { spc_node: 1663, db_node: 5, rel_node: 16385 };

fn limits() -> OracleLimits {
    OracleLimits { seal_bytes: 1 << 24, max_request_bytes: 1 << 26, cell_header: 5, request_frame: 64 }
}

fn rel_with(table: &str, type_oid: u32) -> Arc<RelDescriptor> {
    Arc::new(RelDescriptor {
        rfn: RFN,
        oid: 16385,
        toast_oid: 0,
        rel_name: RelName::new("public", table),
        kind: 'r',
        replident: ReplIdent::Default { pk_attnums: None },
        attributes: vec![RelAttr {
            attnum: 1,
            name: "id".into(),
            type_oid,
            typmod: -1,
            not_null: true,
            dropped: false,
            type_len: if type_oid == 23 { 4 } else { -1 },
            missing_default: None,
        }],
    })
}

fn ast(name: &str) -> TypeAst {
    let nullable = name == "Nullable(String)";
    let (kind, elem_size) = match name {
        "Int32" => (TypeKind::Int32, 4),
        "UInt32" => (TypeKind::Other, 4),
        "String" | "Nullable(String)" => (TypeKind::Other, 0),
        other => panic!("no fixture for {other}"),
    };
    TypeAst {
        nullable,
        leaf: Some(LeafType { kind, elem_size, decimal_scale: 0 }),
        name: Some(name.to_string()),
    }
}

fn route_with(
    table: &str,
    target_type: &str,
    over: Option<&str>,
    covered: bool,
    system: SystemColumns,
) -> Arc<RouteSnapshot> {
    let drops_deletes = system.is_deleted.is_none();
    Arc::new(RouteSnapshot {
        mapping: TableMapping {
            target: TableTarget::new("default", table),
            columns: vec![ColumnMapping {
                src_attnum: 1,
                target_name: "id".into(),
                target_type: target_type.into(),
            }],
        },
        types: vec![ColumnTypes {
            declared: Ok(ast(target_type)),
            over: over.map(|t| (t.to_string(), Ok(ast(t)))),
            covered,
            request_bytes: 0,
            over_request_bytes: 0,
        }],
        system,
        drops_deletes,
    })
}

fn row(seq: u64, id: i32) -> RoutedRow {
    row_for("t", seq, id)
}

fn row_for(table: &str, seq: u64, id: i32) -> RoutedRow {
    RoutedRow {
        seq,
        rel: rel_with(table, 23),
        route: route_with(table, "Int32", None, true, SystemColumns::default()),
        committed: CommittedTuple {
            decoded: DecodedHeap {
                rfn: RFN,
                xid: 7,
                source_lsn: 0x1000 + id as u64,
                op: HeapOp::Insert,
                new: Some(DecodedTuple {
                    columns: vec![Some(ColumnValue::Int4(id))],
                    partial: false,
                }),
                old: None,
            },
            commit_ts: 0,
            commit_lsn: (seq + 1) * 100,
        },
        value_permit: None,
    }
}

fn cfg(row_budget: usize, byte_budget: usize, inserters: usize, flush_timeout: u64) -> BatcherConfig {
    BatcherConfig { row_budget, byte_budget, inserters, flush_timeout }
}

fn partial_block_cfg(flush_timeout: u64) -> BatcherConfig {
    cfg(1_000, 1 << 30, 1, flush_timeout)
}

/// Rows of a run: what one row after the other sealed, then what was left.
fn run(b: &mut Batcher, c: &BatcherConfig, rows: &[RoutedRow]) -> Vec<InsertBatch> {
    let mut out = vec![];
    for r in rows {
        assert!(b.row_fits(r));
        out.extend(b.handle_row(c, 0, r, None).expect("row"));
    }
    out.extend(b.flush_all());
    out
}

fn per_seq(batches: &[InsertBatch], seq: u64) -> u64 {
    batches
        .iter()
        .flat_map(|b| b.per_seq.iter())
        .filter(|(s, _)| *s == seq)
        .map(|(_, n)| n)
        .sum()
}

/// Rows from two transactions coalesce into budget-sized batches; the counts
/// per seq reconcile across the split.
#[test]
fn coalesces_and_tracks_per_seq_counts() {
    let c = cfg(2, 1 << 30, 1, HOUR);
    let mut b = Batcher::new(&c, limits());
    let rows: Vec<_> = (0..3).map(|i| row(0, i)).chain((0..2).map(|i| row(1, i))).collect();
    let batches = run(&mut b, &c, &rows);
    assert_eq!(batches.iter().map(|b| b.n_rows).sum::<usize>(), 5, "all rows sealed exactly once");
    assert_eq!(per_seq(&batches, 0), 3, "seq 0 rows");
    assert_eq!(per_seq(&batches, 1), 2, "seq 1 rows");
    assert_eq!(batches.len(), 3);
}

#[test]
fn rows_chunk_trips_budget_and_tracks_per_seq() {
    let c = cfg(2, 1 << 30, 1, HOUR);
    let mut b = Batcher::new(&c, limits());
    let chunk = RowChunk {
        rows: vec![row(0, 0), row(0, 1), row(0, 2), row(1, 0), row(1, 1)],
        permit: Some(9),
    };
    let mut batches = b.handle_rows(&c, 0, &chunk).expect("chunk");
    batches.extend(b.flush_all());
    assert_eq!(batches.iter().map(|b| b.n_rows).sum::<usize>(), 5, "all rows sealed exactly once");
    assert_eq!(per_seq(&batches, 0), 3, "seq 0 rows");
    assert_eq!(per_seq(&batches, 1), 2, "seq 1 rows");
    // Every batch holds the slice's permit, once
    assert!(batches.iter().all(|b| b.permits == [9]));
}

/// An override that the route carries reaches the encoder's plan.
#[test]
fn route_override_snapshot_reaches_plan() {
    let c = cfg(1, 1 << 30, 1, HOUR);
    let mut b = Batcher::new(&c, limits());
    // Int32 to UInt32 keeps the width and is admissible
    let mut r = row(0, 1);
    r.route = route_with("t", "Int32", Some("UInt32"), true, SystemColumns::default());
    let batches = b.handle_row(&c, 0, &r, None).unwrap();
    let batch = &batches[0];
    assert_eq!(batch.meta.columns[0].name, "id");
    assert_eq!(
        batch.meta.columns[0].type_repr, "UInt32",
        "override rode the route snapshot into the plan"
    );
    assert_eq!(batch.meta.columns[1].name, "_lsn");
    assert_eq!(batch.meta.columns[4].type_repr, "Bool");
}

/// A barrier's flush seals everything that came before it, whatever the
/// budgets, and opens a new epoch.
#[test]
fn flush_all_seals_rows_enqueued_before_it() {
    let c = partial_block_cfg(HOUR);
    let mut b = Batcher::new(&c, limits());
    assert!(b.handle_row(&c, 0, &row(0, 1), None).unwrap().is_empty());
    let batches = b.flush_all();
    assert_eq!(batches.len(), 1);
    assert_eq!(batches[0].n_rows, 1);
    assert_eq!(batches[0].per_seq, [(0, 1)]);
    assert_eq!(batches[0].meta.schema_epoch, 0);
    b.handle_row(&c, 0, &row(1, 1), None).unwrap();
    assert_eq!(b.flush_all()[0].meta.schema_epoch, 1);
}

/// The deadline is one timeout after the first row, not a period's tick.
#[test]
fn deadline_bounds_flush_at_one_timeout() {
    let c = partial_block_cfg(1_000);
    let mut b = Batcher::new(&c, limits());
    b.handle_row(&c, 600, &row(0, 1), None).unwrap();
    assert_eq!(b.next_deadline(), Some(1_600));
    assert!(b.flush_due(1_599).is_empty());
    let out = b.flush_due(1_600);
    assert_eq!(out.len(), 1);
    assert_eq!(out[0].n_rows, 1);
    assert_eq!(b.next_deadline(), None);
}

#[test]
fn tables_flush_at_independent_deadlines() {
    let c = partial_block_cfg(1_000);
    let mut b = Batcher::new(&c, limits());
    b.handle_row(&c, 0, &row_for("a", 0, 1), None).unwrap();
    b.handle_row(&c, 400, &row_for("b", 0, 2), None).unwrap();
    let first = b.flush_due(1_000);
    assert_eq!(first.len(), 1);
    assert!(first[0].meta.table_key.same(&RelName::new("public", "a")));
    assert_eq!(b.next_deadline(), Some(1_400));
    let second = b.flush_due(1_400);
    assert!(second[0].meta.table_key.same(&RelName::new("public", "b")));
}

#[test]
fn extra_rows_do_not_extend_deadline() {
    let c = partial_block_cfg(1_000);
    let mut b = Batcher::new(&c, limits());
    b.handle_row(&c, 0, &row(0, 1), None).unwrap();
    b.handle_row(&c, 500, &row(0, 2), None).unwrap();
    assert_eq!(b.next_deadline(), Some(1_000), "deadline stayed on the first row");
    let out = b.flush_due(1_000);
    assert_eq!(out[0].n_rows, 2, "both rows in one block");
}

#[test]
fn partial_tables_share_byte_limit() {
    let c = cfg(1_000, 1024, 1, 60_000);
    let mut b = Batcher::new(&c, limits());
    let mut early = 0;
    let mut seqs = vec![];
    for i in 0..40 {
        let out = b.handle_row(&c, 0, &row_for(&format!("t{i}"), i, 1), None).unwrap();
        early += out.len();
        seqs.extend(out.iter().flat_map(|b| b.per_seq.clone()));
    }
    assert!(early > 0, "the shared limit seals before the end");
    seqs.extend(b.flush_all().iter().flat_map(|b| b.per_seq.clone()));
    seqs.sort_unstable();
    assert_eq!(seqs, (0..40).map(|i| (i, 1)).collect::<Vec<_>>());
}

/// A table is counted anew with every row, at what its buffers hold; sealing
/// it gives the bytes back.
#[test]
fn open_tables_are_counted_at_what_their_buffers_hold() {
    let c = partial_block_cfg(HOUR);
    let mut b = Batcher::new(&c, limits());
    for i in 0..3 {
        b.handle_row(&c, 0, &row(0, i), None).expect("row");
        let t = &b.tables[0];
        let held: usize = t.enc.buffers.iter().map(|b| b.allocated_bytes()).sum();
        let used: usize = t.enc.buffers.iter().map(|b| b.approx_size()).sum();
        assert!(used > 0);
        assert!(t.allocated_bytes >= used);
        assert_eq!(t.allocated_bytes, held);
        assert_eq!(b.partial_bytes, held as u128);
    }
    b.flush_all();
    assert_eq!(b.partial_bytes, 0);
}

#[test]
fn oversized_string_batches_make_progress_without_losing_rows() {
    let c = cfg(1000, 1024, 2, 60_000);
    let mut b = Batcher::new(&c, limits());
    for i in 0..2 {
        let mut r = row(i, 1);
        r.rel = rel_with("t", 25);
        r.route = route_with("t", "String", None, true, SystemColumns::default());
        r.committed.decoded.new.as_mut().unwrap().columns =
            vec![Some(ColumnValue::Text("x".repeat(64 << 10)))];
        let out = b.handle_row(&c, 0, &r, None).unwrap();
        assert_eq!(out.len(), 1);
        assert!(out[0].buffers.iter().map(|b| b.allocated_bytes()).sum::<usize>() >= 64 << 10);
        assert_eq!(out[0].per_seq, vec![(i, 1)]);
    }
    assert!(b.flush_all().is_empty());
}

#[test]
fn byte_budget_flushes_before_deadline() {
    let c = cfg(1_000, 1, 1, 1_000);
    let mut b = Batcher::new(&c, limits());
    let out = b.handle_row(&c, 0, &row(0, 1), None).unwrap();
    assert_eq!(out[0].n_rows, 1);
}

#[test]
fn idle_batcher_arms_no_timer() {
    let mut b = Batcher::new(&partial_block_cfg(100), limits());
    assert_eq!(b.next_deadline(), None);
    assert!(b.flush_due(60_000).is_empty(), "no rows, no batches");
    assert!(b.flush_all().is_empty());
}

/// An open block keeps the deadline it armed; a shorter one of another table
/// is due first.
#[test]
fn config_change_keeps_open_deadline_and_rearms_earlier() {
    let boot = partial_block_cfg(1_000);
    let mut b = Batcher::new(&boot, limits());
    b.handle_row(&boot, 0, &row_for("a", 0, 1), None).unwrap();
    let live = LiveBatchKnobs { row_budget: 1_000, byte_budget: 1 << 30, flush_timeout: 200 };
    let now = effective_cfg(&boot, Some(&live));
    b.handle_row(&now, 100, &row_for("b", 0, 2), None).unwrap();
    assert_eq!(b.next_deadline(), Some(300), "shorter new deadline flushes first");
    assert!(b.flush_due(300)[0].meta.table_key.same(&RelName::new("public", "b")));
    assert_eq!(b.next_deadline(), Some(1_000));
}

/// A zero live deadline takes the pipeline's default, so a cold table can
/// never pin the watermark.
#[test]
fn zero_live_timeout_takes_pipeline_fallback() {
    let boot = partial_block_cfg(5_000);
    let resolved = LiveBatchKnobs { row_budget: 1, byte_budget: 1, flush_timeout: 0 };
    assert_eq!(
        effective_cfg(&boot, Some(&resolved)).flush_timeout,
        DEFAULT_PIPELINE_FLUSH_MS
    );
    assert_eq!(effective_cfg(&boot, None).flush_timeout, boot.flush_timeout);
}

#[test]
fn budgets_decide_what_is_sealed() {
    let c = cfg(10, 100, 1, 0);
    assert_eq!(seal_decision(&c, 100, 100, 9, 99, 99), (false, false));
    assert_eq!(seal_decision(&c, 100, 100, 10, 1, 99), (true, false));
    assert_eq!(seal_decision(&c, 50, 100, 1, 50, 60), (true, false));
    assert_eq!(seal_decision(&c, 100, 100, 1, 1, 100), (false, true));
    // What the sealed table held no longer counts
    assert_eq!(seal_decision(&c, 100, 100, 10, 40, 100), (true, false));
}

#[test]
fn truncate_never_reaches_the_batcher() {
    let c = partial_block_cfg(HOUR);
    let mut b = Batcher::new(&c, limits());
    let mut r = row(0, 1);
    r.committed.decoded.op = HeapOp::Truncate;
    assert_eq!(b.handle_row(&c, 0, &r, None).err().as_deref(), Some("TRUNCATE routed to batcher"));
    assert_eq!(wire_op(HeapOp::Truncate), None);
    assert_eq!(wire_op(HeapOp::HotUpdate), wire_op(HeapOp::Update));
    assert_ne!(wire_op(HeapOp::Delete), wire_op(HeapOp::Insert));
}

#[test]
fn value_permits_ride_with_their_batch() {
    let c = partial_block_cfg(HOUR);
    let mut b = Batcher::new(&c, limits());
    let mut r = row(0, 1);
    r.value_permit = Some(4);
    b.handle_row(&c, 0, &r, Some(3)).unwrap();
    b.handle_row(&c, 0, &row(0, 2), Some(3)).unwrap();
    assert_eq!(b.flush_all()[0].permits, [3, 4]);
}

fn planned(op: HeapOp, route: Option<Arc<RouteSnapshot>>, approx_bytes: usize) -> PlannedHeap {
    let tuple = || Some(DecodedTuple { columns: vec![Some(ColumnValue::Int4(1))], partial: false });
    let (new, old) = match op {
        HeapOp::Delete => (None, tuple()),
        _ => (tuple(), None),
    };
    PlannedHeap {
        rel: rel_with("t", 23),
        route,
        decoded: DecodedHeap { rfn: RFN, xid: 7, source_lsn: 0x1000, op, new, old },
        approx_bytes,
    }
}

fn slice(seq: u64) -> Slice {
    Slice { seq, commit_ts: 0, commit_lsn: 0x2000, permit: None }
}

/// Without a delete marker a delete has nowhere to land: it is dropped before
/// the count that the collector reconciles.
#[test]
fn deletes_drop_when_marker_disabled() {
    let bare = SystemColumns { is_deleted: None, ..SystemColumns::default() };
    let no_marker = route_with("t", "Int32", None, true, bare);
    let placed = place_rows(
        vec![
            planned(HeapOp::Insert, Some(no_marker.clone()), 8),
            planned(HeapOp::Delete, Some(no_marker), 8),
        ],
        8,
        false,
        slice(0),
    );
    assert_eq!(placed.rows, 1, "insert routed, delete dropped");
    assert_eq!(placed.deletes_discarded, 1);
    assert_eq!(placed.chunks.len(), 1);
    assert_eq!(placed.chunks[0].rows.len(), 1);

    // The default keeps the marker, so the delete rides through
    let marked = route_with("t", "Int32", None, true, SystemColumns::default());
    let placed = place_rows(vec![planned(HeapOp::Delete, Some(marked), 8)], 8, false, slice(1));
    assert_eq!(placed.rows, 1);
    assert_eq!(placed.deletes_discarded, 0);
}

#[test]
fn snowflake_preserves_delete_and_pending_geometry() {
    let bare = SystemColumns { is_deleted: None, ..SystemColumns::default() };
    let no_marker = route_with("t", "Int32", None, true, bare);
    let mut heap = planned(HeapOp::Delete, Some(no_marker), 8);
    heap.decoded.old.as_mut().unwrap().columns[0] =
        Some(ColumnValue::PgPending { type_oid: 23, raw: vec![0; 24] });
    let placed = place_rows(vec![heap], 8, true, slice(0));
    assert_eq!(placed.rows, 1);
    assert!(matches!(
        placed.chunks[0].rows[0].committed.decoded.old.as_ref().unwrap().columns[0],
        Some(ColumnValue::PgPending { .. })
    ));
}

#[test]
fn chunks_close_at_rows_and_bytes() {
    let route = || Some(route_with("t", "Int32", None, true, SystemColumns::default()));
    let heaps = |sizes: &[usize]| -> Vec<PlannedHeap> {
        sizes.iter().map(|n| planned(HeapOp::Insert, route(), *n)).collect()
    };
    let lens = |sizes: &[usize], chunk_rows: usize| -> Vec<usize> {
        place_rows(heaps(sizes), chunk_rows, false, slice(0))
            .chunks
            .iter()
            .map(|c| c.rows.len())
            .collect()
    };
    assert_eq!(lens(&[1, 1, 1, 1, 1], 2), [2, 2, 1]);
    assert_eq!(lens(&[DECODE_CHUNK_BYTES, 1, 1], 8), [1, 2]);
    let placed = place_rows(vec![planned(HeapOp::Insert, None, 8)], 8, false, slice(0));
    assert_eq!((placed.rows, placed.chunks.len()), (0, 0), "unmapped heaps place nothing");
}

fn wkt_row(seq: u64, value: Option<ColumnValue>) -> RoutedRow {
    let mut r = row_for("g", seq, 0);
    r.rel = rel_with("g", GEOM_OID);
    r.route = route_with("g", "Nullable(String)", None, false, SystemColumns::default());
    r.committed.decoded.new.as_mut().unwrap().columns = vec![value];
    r
}

fn text(s: &str) -> Option<ColumnValue> {
    Some(ColumnValue::Text(s.into()))
}

fn seal(rows: &[RoutedRow]) -> InsertBatch {
    let c = partial_block_cfg(HOUR);
    let mut batches = run(&mut Batcher::new(&c, limits()), &c, rows);
    assert_eq!(batches.len(), 1);
    batches.remove(0)
}

/// Cells rendered against a string target never reach the source database.
#[test]
fn rendered_cells_against_a_string_target_stay_local() {
    let mut batch = seal(&[
        wkt_row(0, text("POINT(1 2)")),
        wkt_row(0, None),
        wkt_row(0, text("")),
        wkt_row(0, text("POINT(3 4)")),
    ]);
    assert!(
        matches!(batch.buffers[0], ColumnBuf::Oracle(_)),
        "premise: an uncovered source type routes to the oracle",
    );
    assert!(request_columns(&batch, false).is_err());
    assert_eq!(resolve_local_columns(&mut batch), 1);
    let ColumnBuf::NullableString { offsets, data, null_map, .. } = &batch.buffers[0] else {
        panic!("column not built locally");
    };
    assert_eq!(data, b"POINT(1 2)POINT(3 4)");
    assert_eq!(offsets, &[10, 10, 10, 20]);
    assert_eq!(null_map, &[0, 1, 0, 0]);

    assert!(request_columns(&batch, false).expect("no request to make").is_empty());
    assert_eq!(resolve_local_columns(&mut batch), 0);
}

/// A cell that has to be converted keeps the whole column in the request.
#[test]
fn one_unrendered_cell_keeps_the_column_remote() {
    let raw = Some(ColumnValue::Unsupported { type_oid: GEOM_OID, raw: vec![1, 2, 3] });
    let mut batch = seal(&[wkt_row(0, text("POINT(1 2)")), wkt_row(0, raw)]);
    assert_eq!(resolve_local_columns(&mut batch), 0);
    assert!(matches!(batch.buffers[0], ColumnBuf::Oracle(_)));
    assert_eq!(
        request_columns(&batch, false).err().as_deref(),
        Some("public.g needs the shadow oracle, which this pipeline has none of")
    );
    assert_eq!(request_columns(&batch, true).unwrap(), [0]);
    // The block takes the rendered column in the place of the request's
    let sources = column_sources(&batch, &vec![0]).unwrap();
    assert_eq!(sources[0], ColumnSource::Rendered(0));
    assert!(sources[1..].iter().all(|s| *s == ColumnSource::Local));
    match column_sources(&batch, &vec![]) {
        Err(EmitterError::Type(m)) => assert_eq!(m, "oracle answered no column for id"),
        other => panic!("{other:?}"),
    }
}

fn conn(host: &str) -> ConnParams {
    ConnParams {
        host: host.into(),
        port: 9000,
        database: "default".into(),
        user: "default".into(),
        password: String::new(),
        secure: false,
    }
}

#[test]
fn inserter_takes_live_knobs_at_batch_boundaries() {
    let batch = seal(&[row(0, 1)]);
    let mut i = Inserter::new(conn("a"), CompressionChoice::Off, 1);
    let start = i.begin_batch(None, &batch.meta);
    assert!(!start.reconnect && start.parse_types);
    i.types_parsed(&batch.meta);
    assert!(!i.begin_batch(None, &batch.meta).parse_types);
    let live = LiveInsertKnobs {
        retry_max_attempts: 7,
        compression: CompressionChoice::Lz4,
        conn: conn("b"),
    };
    let start = i.begin_batch(Some(&live), &batch.meta);
    assert!(start.reconnect && !start.parse_types);
    assert_eq!((i.retry_max_attempts, i.conn.host.as_str()), (7, "b"));
    assert!(!i.begin_batch(Some(&live), &batch.meta).reconnect);
}

/// Drive an insert whose stage `failing` fails; the stages it passed.
fn insert(start: BatchStart, failing: Option<InsertStage>) -> (Vec<InsertStage>, BatchOutcome) {
    let mut run = InsertRun::begin(seal(&[row(0, 1)]), start);
    let mut stages = vec![];
    while !matches!(run.stage, InsertStage::Durable | InsertStage::Failed) {
        stages.push(run.stage);
        let failed = Some(run.stage) == failing;
        run.advance(if failed { Err(EmitterError::Timeout) } else { Ok(()) });
    }
    let mut i = Inserter::new(conn("a"), CompressionChoice::Off, 1);
    let outcome = i.end_batch(run);
    assert_eq!(i.stopped, failing.is_some());
    (stages, outcome)
}

#[test]
fn insert_passes_its_stages_in_order() {
    let all = BatchStart { reconnect: true, parse_types: true };
    let (stages, outcome) = insert(all, None);
    assert_eq!(
        stages,
        [InsertStage::Reconnect, InsertStage::ParseTypes, InsertStage::Build, InsertStage::Send]
    );
    match outcome {
        BatchOutcome::Durable { per_seq, rows } => assert_eq!((per_seq, rows), (vec![(0, 1)], 1)),
        BatchOutcome::Fatal(m) => panic!("{m}"),
    }
    let none = BatchStart { reconnect: false, parse_types: false };
    assert_eq!(insert(none, None).0, [InsertStage::Build, InsertStage::Send]);
    for (stage, text) in [
        (InsertStage::Reconnect, "inserter live-config reconnect: timeout"),
        (InsertStage::ParseTypes, "inserter type parse: timeout"),
        (InsertStage::Build, "inserter: timeout"),
        (InsertStage::Send, "inserter: timeout"),
    ] {
        match insert(all, Some(stage)).1 {
            BatchOutcome::Fatal(m) => assert_eq!(m, text),
            BatchOutcome::Durable { .. } => panic!("not durable"),
        }
    }
}

#[test]
fn unrendered_batch_stops_the_pipeline() {
    assert_eq!(resolve_fault("bridge gone".into()), "oracle resolve: type: bridge gone");
}

fn fixed(b: &InsertBatch, column: usize) -> Vec<u8> {
    match &b.buffers[column] {
        ColumnBuf::Fixed { bytes, .. } => bytes.clone(),
        other => panic!("expected fixed cells, got {other:?}"),
    }
}

#[test]
fn batches_hold_their_rows_in_order() {
    let c = partial_block_cfg(HOUR);
    let mut b = Batcher::new(&c, limits());
    let out = run(&mut b, &c, &[row(4, 30), row_for("u", 4, 1), row(4, 10), row(5, 20)]);
    let t: Vec<&InsertBatch> = out.iter().filter(|b| b.meta.table_key.name == "t").collect();
    assert_eq!(t.len(), 1);
    let ids: Vec<u8> = [30i32, 10, 20].iter().flat_map(|i| i.to_le_bytes()).collect();
    assert_eq!(fixed(t[0], 0), ids);
    let lsns: Vec<u8> =
        [30u64, 10, 20].iter().flat_map(|i| (0x1000 + i).to_le_bytes()).collect();
    assert_eq!(fixed(t[0], 1), lsns);
    assert_eq!(fixed(t[0], 4), [0, 0, 0], "no deletes");
    assert_eq!(t[0].per_seq, [(4, 2), (5, 1)]);
    assert_eq!(per_seq(&out, 4), 3, "every row once");
    assert!(b.flush_all().is_empty(), "nothing is left behind");
}

/// Take the batch and end it, well or not; what is acked, if anything.
fn insert_one(i: &mut Inserter, seq: u64, ok: bool) -> Option<Vec<(u64, u64)>> {
    let mut run = i.take_batch(None, seal(&[row(seq, 1)]))?;
    while !matches!(run.stage, InsertStage::Durable | InsertStage::Failed) {
        let fails = run.stage == InsertStage::Send && !ok;
        run.advance(if fails { Err(EmitterError::Timeout) } else { Ok(()) });
    }
    match i.end_batch(run) {
        BatchOutcome::Durable { per_seq, .. } => Some(per_seq),
        BatchOutcome::Fatal(_) => None,
    }
}

/// Once a batch has failed its inserter takes no other.
#[test]
fn failed_batch_stops_its_inserter() {
    let mut i = Inserter::new(conn("a"), CompressionChoice::Off, 1);
    assert_eq!(insert_one(&mut i, 0, true), Some(vec![(0, 1)]));
    assert_eq!(insert_one(&mut i, 1, true), Some(vec![(1, 1)]));
    assert!(!i.stopped);
    assert_eq!(insert_one(&mut i, 2, false), None);
    assert!(i.stopped);
    assert!(i.take_batch(None, seal(&[row(3, 1)])).is_none());
    assert_eq!(insert_one(&mut i, 4, true), None);
}

/// A table's types are remembered once, in their newest epoch.
#[test]
fn parsed_types_are_kept_once_per_table() {
    let mut i = Inserter::new(conn("a"), CompressionChoice::Off, 1);
    let (a, b) = (seal(&[row(0, 1)]), seal(&[row_for("u", 0, 1)]));
    for meta in [&a.meta, &b.meta, &a.meta, &b.meta, &b.meta] {
        i.types_parsed(meta);
    }
    assert_eq!(i.parsed.len(), 2);
}

/// Any run of rows is in the batches or in the tables.
#[test]
fn rows_are_in_batches_or_in_tables() {
    let c = cfg(2, 1 << 30, 1, HOUR);
    let mut b = Batcher::new(&c, limits());
    let mut sent = vec![];
    for (n, seq) in [0u64, 0, 1, 0, 1].into_iter().enumerate() {
        sent.extend(b.handle_row(&c, 0, &row(seq, n as i32), None).expect("row"));
        assert!(b.tables[0].enc.rows < 2);
        let open: u64 = b.tables.iter().flat_map(|t| t.seq_counts.iter()).map(|(_, n)| n).sum();
        assert_eq!(per_seq(&sent, 0) + per_seq(&sent, 1) + open, n as u64 + 1);
    }
    assert_eq!((per_seq(&sent, 0), per_seq(&sent, 1)), (3, 1));
}

/// A row that is refused counts nowhere, and leaves the other tables as they
/// were.
#[test]
fn refused_row_leaves_other_tables_alone() {
    let c = partial_block_cfg(HOUR);
    let mut b = Batcher::new(&c, limits());
    for r in [row_for("a", 0, 1), row_for("b", 1, 2)] {
        assert!(b.handle_row(&c, 0, &r, None).unwrap().is_empty());
    }
    let held = b.partial_bytes;
    let mut bad = row_for("a", 2, 3);
    bad.committed.decoded.op = HeapOp::Truncate;
    assert!(b.handle_row(&c, 0, &bad, None).is_err());
    assert_eq!((b.tables.len(), b.partial_bytes, b.epoch), (2, held, 0));
    let out = b.flush_all();
    assert_eq!((per_seq(&out, 0), per_seq(&out, 1), per_seq(&out, 2)), (1, 1, 0));
}

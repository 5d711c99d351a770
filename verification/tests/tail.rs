//! Tails: sizes, proofs of durability, deliveries and their workers.
use std::sync::Arc;
use walshadow::mapping::{SystemColumns, TableMapping, TableTarget};
use walshadow::pipeline::ack::{AckEvent, AckState};
use walshadow::pipeline::batcher::RoutedRow;
use walshadow::pipeline::fatal::Fatal;
use walshadow::config::emitter::{BootFacts, Knobs, PendingCapture};
use walshadow::config::settings::ToastMode;
use walshadow::conn::CompressionChoice;
use walshadow::errors::EmitterError;
use walshadow::mapping::DropTableStrategy;
use walshadow::pipeline::budget::BudgetPlan;
use walshadow::pipeline::snowflake_tail::{worker_panicked, TableRouter};
use walshadow::pipeline::standup::{ChunkStore, PipelineConfig, TailStart};
use walshadow::pipeline::table_worker::{AfterStart, Phase, TableWorker, WorkerStep};
use walshadow::pipeline::tail::{
    acks_after_delivery, decode_sizes, delivery_due, fatal_or, finish_result, flush_outcome,
    lineage, lookup_holds, proof_result, snowflake_add, snowflake_delivery_result,
    snowflake_encoding, swallow, tail_sizes, DeliveryOutcome, ProofOutcome, SnowflakeBatch,
    SnowflakeEncoding, SnowflakeLookup, SnowflakeRow, TailKind,
};
use walshadow::route::RouteSnapshot;
use walshadow::schema::{HeapOp, RelDescriptor, RelFileNode, RelName, ReplIdent};
use walshadow::tuples::{CommittedTuple, DecodedHeap};

fn two_commits() -> AckState {
    let mut s = AckState::new(Fatal::new());
    for (seq, commit_lsn) in [(0, 100), (1, 200)] {
        s.apply(AckEvent::Register { seq, commit_lsn, publish: true });
        s.apply(AckEvent::Placed { seq, rows: 1 });
    }
    s
}

fn complete(s: &mut AckState, delivered: Result<(), String>, seq: u64) -> Result<(), String> {
    let counts = acks_after_delivery(delivered, vec![(seq, 1)])?;
    s.apply(AckEvent::Acked { counts });
    Ok(())
}

#[test]
fn snowflake_delivery_failure_does_not_advance_ack() {
    let mut s = two_commits();
    assert!(complete(&mut s, Err("warehouse rejected batch".into()), 0).is_err());
    complete(&mut s, Ok(()), 1).unwrap();
    assert!(!s.all_done());
    assert_eq!(s.emitter_ack(), 0);
    complete(&mut s, Ok(()), 0).unwrap();
    assert!(s.all_done());
    assert_eq!(s.emitter_ack(), 200);
}

#[test]
fn concurrent_snowflake_batches_ack_contiguously() {
    let mut s = two_commits();
    complete(&mut s, Ok(()), 1).unwrap();
    assert_eq!(s.emitter_ack(), 0, "later batch cannot cross the gap");
    complete(&mut s, Ok(()), 0).unwrap();
    assert_eq!(s.emitter_ack(), 200);
}

#[test]
fn stages_are_sized_from_their_pools() {
    let t = tail_sizes(3, Some(8), 250);
    assert_eq!((t.inserters, t.sealed_queue, t.resolved_queue, t.resolvers), (3, 6, 3, 8));
    assert_eq!(t.flush_timeout, 250);
    let t = tail_sizes(0, None, 0);
    assert_eq!((t.inserters, t.sealed_queue, t.resolved_queue, t.resolvers), (1, 4, 1, 1));
    assert_eq!(t.flush_timeout, 100);
    assert_eq!(decode_sizes(0), (1, 8));
    assert_eq!(decode_sizes(3), (3, 12));
}

fn row(seq: u64) -> RoutedRow {
    let rfn = RelFileNode { spc_node: 1663, db_node: 5, rel_node: 16400 };
    RoutedRow {
        seq,
        rel: Arc::new(RelDescriptor {
            rfn,
            oid: 16400,
            toast_oid: 0,
            rel_name: RelName::new("public", "t"),
            kind: 'r',
            replident: ReplIdent::Nothing,
            attributes: vec![],
        }),
        route: Arc::new(RouteSnapshot {
            mapping: TableMapping { target: TableTarget::new("db", "t"), columns: vec![] },
            types: vec![],
            system: SystemColumns::default(),
            drops_deletes: false,
        }),
        committed: CommittedTuple {
            decoded: DecodedHeap {
                rfn,
                xid: 1,
                source_lsn: 1,
                op: HeapOp::Insert,
                new: None,
                old: None,
            },
            commit_ts: 0,
            commit_lsn: 1,
        },
        value_permit: None,
    }
}

#[test]
fn null_tail_acks_what_it_swallows() {
    let mut counts = swallow(&vec![row(0), row(1), row(0)]);
    counts.sort_unstable();
    assert_eq!(counts, [(0, 2), (1, 1)]);
    assert!(swallow(&vec![]).is_empty());
}

#[test]
fn root_causes_go_before_what_was_seen_of_them() {
    let mut fatal = Fatal::new();
    assert_eq!(
        proof_result(&fatal, ProofOutcome::SendFailed).unwrap_err(),
        "tail closed before flush"
    );
    assert_eq!(
        proof_result(&fatal, ProofOutcome::DrainFailed("x".into())).unwrap_err(),
        "tail drain: x"
    );
    assert_eq!(
        proof_result(&fatal, ProofOutcome::AnswerDropped).unwrap_err(),
        "batcher dropped flush ack"
    );
    assert!(proof_result(&fatal, ProofOutcome::Durable).is_ok());
    assert!(finish_result(&fatal, Ok(())).is_ok());
    assert!(fatal.set("root".into()));
    assert!(!fatal.set("later".into()), "the first message stays");
    assert_eq!(fatal_or(&fatal, "default"), "root");
    for o in [
        ProofOutcome::SendFailed,
        ProofOutcome::FatalDuringFlush,
        ProofOutcome::FatalDuringDrain,
    ] {
        assert_eq!(proof_result(&fatal, o).unwrap_err(), "root");
    }
    assert_eq!(finish_result(&fatal, Ok(())).unwrap_err(), "root");
    assert_eq!(finish_result(&fatal, Err("own".into())).unwrap_err(), "own");
}

#[test]
fn deliveries_report_their_failures() {
    assert!(snowflake_delivery_result(DeliveryOutcome::Finished(Ok(()))).is_ok());
    assert_eq!(
        snowflake_delivery_result(DeliveryOutcome::TaskFailed("panic".into())).unwrap_err(),
        "delivery task failed: panic"
    );
    assert_eq!(
        snowflake_delivery_result(DeliveryOutcome::Disappeared).unwrap_err(),
        "delivery task disappeared"
    );
    assert!(flush_outcome(&vec![true], &vec![true]).is_ok());
    assert!(flush_outcome(&vec![true, false], &vec![]).unwrap_err().contains("closed before"));
    assert!(flush_outcome(&vec![true], &vec![false]).unwrap_err().contains("failed during"));
}

#[test]
fn rows_are_encoded_by_their_operation() {
    assert_eq!(
        snowflake_encoding(HeapOp::Delete).ok(),
        Some(SnowflakeEncoding::One { deleted: true })
    );
    assert_eq!(snowflake_encoding(HeapOp::HotUpdate).ok(), Some(SnowflakeEncoding::Update));
    assert_eq!(
        snowflake_encoding(HeapOp::Truncate).unwrap_err(),
        "TRUNCATE requires a Snowflake generation barrier"
    );
    let l = SnowflakeLookup { rel: 1, route: 2, schema: 3, incarnation: 4, generation: 5 };
    assert!(lookup_holds(Some(l), 1, 2));
    assert!(!lookup_holds(Some(l), 1, 3) && !lookup_holds(None, 1, 2));
    assert_eq!(lineage((4, 5), None), Ok((4, 5)));
    assert_eq!(lineage((4, 5), Some(Some(9))), Ok((4, 9)));
    assert_eq!(lineage((4, 5), Some(None)).unwrap_err(), "missing snapshot generation");
}

fn srow(seq: u64, schema: u64, bytes: usize) -> SnowflakeRow<u8> {
    SnowflakeRow {
        seq,
        schema,
        encoded: vec![1, 2],
        bytes,
        value_permit: Some(7),
        chunk_permit: None,
    }
}

#[test]
fn open_batch_has_one_schema() {
    let mut b: Option<SnowflakeBatch<u8>> = None;
    snowflake_add(&mut b, srow(0, 1, 10), 500).unwrap();
    snowflake_add(&mut b, srow(0, 1, 10), 900).unwrap();
    let held = b.as_ref().unwrap();
    assert_eq!((held.rows.len(), held.bytes, held.deadline), (4, 20, 500));
    assert_eq!((held.per_seq.as_slice(), held.permits.as_slice()), (&[(0, 2)][..], &[7, 7][..]));
    assert_eq!(
        snowflake_add(&mut b, srow(0, 2, 10), 900).unwrap_err(),
        "Snowflake schema changed inside open batch"
    );
    assert_eq!(b.as_ref().unwrap().rows.len(), 4, "the refused row leaves the batch");
    assert!(delivery_due(&b, 4, 1000) && delivery_due(&b, 100, 20));
    assert!(!delivery_due(&b, 100, 1000));
}

#[test]
fn worker_delivers_within_its_channels() {
    let mut w = TableWorker::<u8>::new(1);
    match w.on_row(srow(0, 1, 10), 500, 1, 1000) {
        WorkerStep::Deliver { batch, next: AfterStart::Listen } => assert_eq!(batch.rows.len(), 2),
        other => panic!("{other:?}"),
    }
    // The only channel is taken: the next delivery waits for it
    assert!(matches!(w.on_row(srow(1, 1, 10), 500, 1, 1000), WorkerStep::AwaitDelivery));
    assert!(matches!(w.phase, Phase::Crowded(_)));
    assert!(matches!(
        w.on_delivered(DeliveryOutcome::Finished(Ok(()))),
        WorkerStep::Deliver { .. }
    ));
    assert!(matches!(
        w.on_delivered(DeliveryOutcome::Finished(Ok(()))),
        WorkerStep::Listen
    ));
    assert_eq!((w.running, w.batch.is_none()), (0, true));
}

#[test]
fn flush_is_answered_once_nothing_runs() {
    let mut w = TableWorker::<u8>::new(2);
    assert!(matches!(w.on_flush(), WorkerStep::Reply), "nothing to wait for");
    assert!(matches!(w.on_row(srow(0, 1, 10), 500, 100, 1000), WorkerStep::Listen));
    assert!(matches!(
        w.on_flush(),
        WorkerStep::Deliver { next: AfterStart::AwaitDelivery, .. }
    ));
    assert!(matches!(
        w.on_delivered(DeliveryOutcome::Finished(Ok(()))),
        WorkerStep::Reply
    ));
    w.on_row(srow(1, 1, 10), 500, 100, 1000);
    assert!(matches!(w.on_deadline(), WorkerStep::Deliver { next: AfterStart::Listen, .. }));
    assert!(matches!(w.on_close(), WorkerStep::AwaitDelivery));
    assert!(matches!(
        w.on_delivered(DeliveryOutcome::Finished(Ok(()))),
        WorkerStep::Stop(None)
    ));
}

#[test]
fn failed_delivery_stops_the_worker() {
    let mut w = TableWorker::<u8>::new(2);
    w.on_row(srow(0, 1, 10), 500, 100, 1000);
    w.on_flush();
    match w.on_delivered(DeliveryOutcome::Finished(Err("rejected".into()))) {
        WorkerStep::Stop(Some(m)) => assert_eq!(m, "snowflake table flush: rejected"),
        other => panic!("{other:?}"),
    }
    let mut w = TableWorker::<u8>::new(2);
    w.on_row(srow(0, 1, 10), 500, 100, 1000);
    match w.on_row(srow(0, 2, 10), 500, 100, 1000) {
        WorkerStep::Stop(Some(m)) => {
            assert_eq!(m, "snowflake table: Snowflake schema changed inside open batch")
        }
        other => panic!("{other:?}"),
    }
}

#[test]
fn every_table_has_one_worker() {
    let mut r = TableRouter::new();
    let (a, b) = (RelName::new("public", "a"), RelName::new("public", "b"));
    let slots: Vec<(usize, bool)> = [&a, &b, &a, &b]
        .into_iter()
        .map(|rel| {
            let s = r.route(rel);
            (s.worker, s.start)
        })
        .collect();
    assert_eq!(slots, [(0, true), (1, true), (0, false), (1, false)]);
    assert_eq!(r.workers(), 2);
    assert!(r.routed(true).is_ok());
    assert_eq!(
        r.routed(false),
        Err("snowflake tail route: Snowflake table worker closed".to_string())
    );
    assert_eq!(worker_panicked("boom"), "snowflake table worker panicked: boom");
}

fn pipeline(tail: TailKind) -> PipelineConfig {
    let facts = BootFacts {
        host_memory: Some(4 << 30),
        vcpus: Some(4),
        max_bridge_workers: 8,
        compression: CompressionChoice::Off,
        drop_table_strategy: DropTableStrategy::Retain,
        pending_capture: PendingCapture { max_boundaries_per_xact: 1, max_hold_per_xact: 1 },
    };
    PipelineConfig {
        knobs: Knobs::defaults(&facts),
        toast: ToastMode::Shadow,
        decoder_pool_size: 3,
        inserter_pool_size: 2,
        tail,
        snowflake: false,
        oracle_width: Some(5),
        budget: None,
    }
}

#[test]
fn pipelines_start_from_their_configuration() {
    let p = pipeline(TailKind::ClickHouse).plan(64 << 20).unwrap();
    assert_eq!((p.decoders, p.job_queue), (3, 12));
    assert_eq!(p.budget, BudgetPlan { total: 2 << 30, leaf_reserve: 3 * (64 << 20) });
    assert_eq!(p.store, ChunkStore::Kept(ToastMode::Shadow));
    match p.tail {
        TailStart::Inserts(t) => assert_eq!((t.inserters, t.resolvers), (2, 5)),
        other => panic!("expected inserts, got {other:?}"),
    }
    let p = pipeline(TailKind::Null).plan(64 << 20).unwrap();
    assert_eq!((p.store, p.tail), (ChunkStore::Absent, TailStart::Null));
    let snow = PipelineConfig { snowflake: true, ..pipeline(TailKind::ClickHouse) };
    assert_eq!(snow.plan(64 << 20).unwrap().tail, TailStart::Snowflake);
    let wide = PipelineConfig { decoder_pool_size: 1000, ..pipeline(TailKind::ClickHouse) };
    assert!(matches!(wide.plan(64 << 20), Err(EmitterError::Config(_))));
    let shared = PipelineConfig {
        budget: Some(BudgetPlan { total: 7, leaf_reserve: 1 }),
        ..pipeline(TailKind::ClickHouse)
    };
    assert_eq!(shared.plan(64 << 20).unwrap().budget.total, 7);
}

/// A flush is done once every worker took it and answered it.
#[test]
fn flush_is_done_when_every_worker_answered() {
    for n in 0..4usize {
        assert!(flush_outcome(&vec![true; n], &vec![true; n]).is_ok());
        for k in 0..n {
            let mut one_off = vec![true; n];
            one_off[k] = false;
            let closed = flush_outcome(&one_off, &vec![true; n]).unwrap_err();
            assert_eq!(closed, "snowflake tail flush: table worker closed before flush");
            let failed = flush_outcome(&vec![true; n], &one_off).unwrap_err();
            assert_eq!(failed, "snowflake tail flush: table worker failed during flush");
        }
    }
}

//! Initial loads: seqs, deferred values and the memory they account for.
use walshadow::config::settings::{
    default_resident_payload_max, DEFAULT_DRAIN_BATCH_BYTES, DEFAULT_VALUE_RESERVE,
};
use walshadow::mapping::{ColumnMapping, TableMapping, TableTarget};
use walshadow::pipeline::bootstrap::{
    apply_fetched, mapped_pointers, round_has_room, row_from_columns, tuple_action, undeferrable,
    Deferral, DeferredFootprint, DeferredGauges, FetchedCell, ReplaySeq, RowBuf, TupleAction,
    TupleFacts, DRAIN_CHUNK_ROWS, REPLAY_BATCH_ROWS, REPLAY_FETCH_BYTES,
};
use walshadow::pipeline::bootstrap_drain::{after_walk, AfterWalk, ChunkGather, Drain, DrainStep};
use walshadow::pipeline::bootstrap_fetch::{
    make_key, plan_fetches, FetchGroup, FetchedValue, FetchedValues, SiteRef,
};
use walshadow::pipeline::bootstrap_replay::{fill_columns, ReplayRound};
use walshadow::pipeline::budget::{build_budget, leaf_reserve_for};
use walshadow::pipeline::decode::DECODE_CHUNK_BYTES;
use walshadow::schema::{RelFileNode, RelName};
use walshadow::values::{ColumnValue, ToastPointer};

use std::collections::BTreeMap;

/// What a drain retains while it admits slices.
const RETAINED: usize = 64 << 20;

fn rfn(rel_node: u32) -> RelFileNode {
    RelFileNode { spc_node: 1663, db_node: 5, rel_node }
}

/// Drain tuples of `(relation, routed)`; rows by seq, reports, next seq.
fn drain(tuples: &[(u32, bool)]) -> (Vec<u64>, Vec<(u64, u64)>, u64, u64) {
    let mut d = Drain::<u32>::new();
    let mut steps = vec![];
    for (i, (rel, routed)) in tuples.iter().enumerate() {
        steps.extend(d.arrive(rfn(*rel), 0x1000));
        if *routed {
            steps.extend(d.route(i as u32, 8));
        }
    }
    steps.extend(d.finish());
    let (mut seqs, mut placed) = (vec![], vec![]);
    for s in steps {
        match s {
            DrainStep::Send(rows) => seqs.extend(rows.iter().map(|(seq, _)| *seq)),
            DrainStep::Placed { seq, rows } => placed.push((seq, rows)),
            DrainStep::Register { lsn, .. } => assert_eq!(lsn, 0x1000),
        }
    }
    (seqs, placed, d.next_seq(), d.rows_routed())
}

#[test]
fn seq_per_rfn_places_exact_counts() {
    let t = |rel: u32| (rel, true);
    let (seqs, placed, next_seq, rows_routed) =
        drain(&[t(16400), t(16400), t(16400), t(16401), t(16401)]);
    assert_eq!(next_seq, 2, "one seq per rfn");
    assert_eq!(rows_routed, 5);
    assert_eq!(seqs, [0, 0, 0, 1, 1]);
    assert_eq!(placed, [(0, 3), (1, 2)]);
}

/// A relation that comes back gets a seq of its own per run; an unmapped one
/// routes nothing and still takes a seq.
#[test]
fn reappearing_and_unmapped_rfns() {
    let (seqs, placed, next_seq, rows_routed) =
        drain(&[(16400, true), (16401, false), (16400, true)]);
    assert_eq!(next_seq, 3, "three distinct rfn runs");
    assert_eq!(rows_routed, 2, "unmapped rel routed nothing");
    assert_eq!(seqs, [0, 2], "seq 1 (unmapped) routed no rows");
    assert_eq!(placed, [(0, 1), (1, 0), (2, 1)]);
}

/// Rows go out before the report that counts them.
#[test]
fn reports_follow_their_rows() {
    let mut d = Drain::<u8>::new();
    assert!(matches!(
        d.arrive(rfn(1), 5).as_slice(),
        [DrainStep::Register { seq: 0, lsn: 5 }]
    ));
    assert!(d.route(1, 8).is_empty());
    assert!(matches!(
        d.arrive(rfn(2), 6).as_slice(),
        [
            DrainStep::Send(_),
            DrainStep::Placed { seq: 0, rows: 1 },
            DrainStep::Register { seq: 1, lsn: 6 }
        ]
    ));
    assert!(matches!(d.finish().as_slice(), [DrainStep::Placed { seq: 1, rows: 0 }]));
}

#[test]
fn row_buffer_hands_over_at_its_bounds() {
    let mut b = RowBuf::new();
    for i in 0..DRAIN_CHUNK_ROWS - 1 {
        assert!(b.push(i, 1).is_none());
    }
    assert_eq!(b.push(0, 1).map(|v| v.len()), Some(DRAIN_CHUNK_ROWS));
    assert_eq!(b.push(0, DECODE_CHUNK_BYTES).map(|v| v.len()), Some(1));
    assert!(b.flush().is_none());
}

fn facts() -> TupleFacts {
    TupleFacts { known: true, skipped: false, toast: false, routed: true, external: false }
}

#[test]
fn detoasted_input_rejects_external_pointers() {
    let external = TupleFacts { external: true, ..facts() };
    assert_eq!(tuple_action(external, true, false), TupleAction::Refuse);
    assert_eq!(tuple_action(external, true, true), TupleAction::Defer);
    assert_eq!(tuple_action(external, false, false), TupleAction::ResolveAndRoute);
    let err = undeferrable(&RelName::new("public", "t16400"));
    assert!(err.contains("undeferrable external value"), "{err}");
    assert_eq!(err, "bootstrap: undeferrable external value in public.t16400");
}

#[test]
fn tuples_are_sorted_by_what_is_known_of_them() {
    let act = |f: TupleFacts| tuple_action(f, true, true);
    assert_eq!(act(facts()), TupleAction::Route);
    assert_eq!(act(TupleFacts { known: false, ..facts() }), TupleAction::Unsupported);
    assert_eq!(act(TupleFacts { skipped: true, ..facts() }), TupleAction::Skip);
    assert_eq!(act(TupleFacts { toast: true, ..facts() }), TupleAction::StoreChunk);
    assert_eq!(act(TupleFacts { routed: false, ..facts() }), TupleAction::Unsupported);
}

fn pointer(value_id: u32) -> ToastPointer {
    ToastPointer { va_rawsize: 9, va_extinfo: 5, va_valueid: value_id, va_toastrelid: 16500 }
}

fn rel() -> RelName {
    RelName::new("public", "t16400")
}

/// Without a store a value is filled; with one a missing value is a fault.
#[test]
fn disabled_resolver_fills_toast_with_null() {
    let p = pointer(7);
    let fetch = |f: FetchedCell| apply_fetched(f, &p, 5, &rel(), "body");
    assert!(matches!(fetch(FetchedCell::NoStore), Ok((ColumnValue::Null, 0))));
    let done = FetchedCell::Finished(Ok((ColumnValue::Text("hello".into()), 5)));
    assert!(matches!(fetch(done), Ok((ColumnValue::Text(t), 5)) if t == "hello"));
    assert_eq!(
        fetch(FetchedCell::Missing).unwrap_err(),
        "bootstrap: relation public.t16400 column body value_id=7 on toast relid=16500: \
         has no chunks in the store; remedy: fresher backup, or initial_load='copy'"
    );
    assert_eq!(
        fetch(FetchedCell::Mismatch { got: 3 }).unwrap_err(),
        "bootstrap: relation public.t16400 column body value_id=7 on toast relid=16500: \
         chunks sum to 3 bytes, pointer says 5; remedy: fresher backup, or initial_load='copy'"
    );
    assert!(fetch(FetchedCell::Finished(Err("inflate".into()))).is_err());
}

#[test]
fn only_mapped_pointers_are_fetched() {
    let mapping = TableMapping {
        target: TableTarget::new("db", "t"),
        columns: vec![
            ColumnMapping { src_attnum: 3, target_name: "c".into(), target_type: "String".into() },
            ColumnMapping { src_attnum: 1, target_name: "a".into(), target_type: "Int32".into() },
            ColumnMapping { src_attnum: 9, target_name: "z".into(), target_type: "Int32".into() },
        ],
    };
    let columns = vec![
        Some(ColumnValue::Int4(1)),
        Some(ColumnValue::ExternalToast(pointer(1))),
        Some(ColumnValue::ExternalToast(pointer(2))),
    ];
    let sites = mapped_pointers(&columns, &mapping);
    assert_eq!(sites.len(), 1);
    assert_eq!((sites[0].idx, sites[0].col, sites[0].p.va_valueid), (2, 0, 2));
}

#[test]
fn walked_chunks_rank_below_the_log() {
    let row = row_from_columns(Some((50, 0, b"hello".to_vec())), 16500, 3, 4).unwrap();
    assert_eq!((row.toast_relid, row.blkno, row.offnum), (16500, 3, 4));
    assert_eq!((row.chunk_id, row.chunk_seq, row.lsn), (50, 0, 0));
    assert_eq!(row.chunk_data, b"hello");
    assert!(row_from_columns(None, 16500, 3, 4).is_none());
}

/// The caller takes over the bytes that a handback leaves standing.
#[test]
fn handback_defers_resolution_to_the_caller() {
    match after_walk(Deferral::Handback("spool"), 1, 2, 0) {
        AfterWalk::Done(o) => {
            assert_eq!((o.next_seq, o.rows_routed), (2, 0), "handback routes no referrer");
            assert_eq!(o.deferred, Some("spool"), "referrer handed back");
        }
        other => panic!("{other:?}"),
    }
    match after_walk(Deferral::Local("spool"), 1, 2, 4) {
        AfterWalk::Resolve { spool: "spool", first_seq: 2, rows_routed: 4 } => {}
        other => panic!("{other:?}"),
    }
    assert!(matches!(
        after_walk(Deferral::Local("spool"), 0, 2, 4),
        AfterWalk::Done(o) if o.deferred.is_none()
    ));
    let mut gauges = DeferredGauges { resident: 0, spooled: 0 };
    let mut lane = DeferredFootprint::new();
    lane.publish(&mut gauges, 40, 0);
    lane.hand_off();
    assert_eq!(
        gauges.resident, 40,
        "handed-back bytes stay charged until the caller replays them"
    );
    DeferredFootprint::adopt(40, 0).release(&mut gauges);
    assert_eq!(gauges.resident, 0, "replay releases the bytes it adopted");
}

#[test]
fn lane_footprints_add_up_and_release_one_at_a_time() {
    let mut gauges = DeferredGauges { resident: 0, spooled: 0 };
    let (mut a, mut b) = (DeferredFootprint::new(), DeferredFootprint::new());
    a.publish(&mut gauges, 10, 1);
    b.publish(&mut gauges, 20, 2);
    assert_eq!((gauges.resident, gauges.spooled), (30, 3), "gauge sums the lanes");
    a.publish(&mut gauges, 4, 1);
    assert_eq!(gauges.resident, 24);
    a.release(&mut gauges);
    assert_eq!((gauges.resident, gauges.spooled), (20, 2), "replay releases only its own bytes");
    b.release(&mut gauges);
    assert_eq!((gauges.resident, gauges.spooled), (0, 0));
}

/// A replay's seq is registered with the first row that routes.
#[test]
fn deferred_replay_routes_referrer() {
    let mut r = ReplaySeq::new(2);
    assert_eq!(r.finish(), (None, 2));
    assert_eq!(r.on_row(), (2, true));
    assert_eq!(r.on_row(), (2, false));
    assert_eq!(r.finish(), (Some((2, 2)), 3));
    assert!(round_has_room(0, 0, 0));
    assert!(!round_has_room(REPLAY_BATCH_ROWS, 0, 0));
    assert!(!round_has_room(0, REPLAY_FETCH_BYTES - 1, 1));
}

#[test]
fn deferred_replay_fetches_once_per_mirror() {
    let site = |relid: u32, value_id: u32| SiteRef { relid, value_id, bound: 9, extsize: 5 };
    let sites = vec![site(16500, 1), site(16600, 2), site(16500, 1), site(16500, 3)];
    let plan = plan_fetches(&sites);
    assert_eq!(plan.groups.len(), 2, "one round trip per mirror, not per referrer");
    let fetched: usize = plan.groups.iter().map(|g| g.values.len()).sum();
    assert_eq!(fetched, 3, "distinct values fetched once each");
    let mut values = BTreeMap::new();
    for (k, _) in &plan.uses {
        values.insert(*k, FetchedValue::Assembled(b"hello".to_vec()));
    }
    let mut f = FetchedValues { values: Some(values), uses: plan.uses };
    for _ in 0..2 {
        assert!(
            matches!(f.take(16500, 1, 9), Some(FetchedValue::Assembled(b)) if b == b"hello"),
            "shared value resolved for both referrers"
        );
    }
    assert!(f.take(16500, 9, 9).is_none(), "nothing that was not asked for");
    let mut none = FetchedValues { values: None, uses: BTreeMap::new() };
    assert!(none.take(1, 1, 1).is_none());
}

/// Default values with a wide decode pool fail at startup.
#[test]
fn leaf_reserve_rejects_zero_admission_headroom() {
    let (pool, value) = (default_resident_payload_max(None), DEFAULT_VALUE_RESERVE);
    assert_eq!(leaf_reserve_for(pool, value, 1), Ok(value));
    assert_eq!(leaf_reserve_for(pool, value, 4), Ok(4 * value));
    // A reserve as large as the pool would leave nothing to admit
    assert!(leaf_reserve_for(pool, pool / 8, 8).is_err());
    assert!(leaf_reserve_for(pool, pool, 1).is_err());
    assert_eq!(
        leaf_reserve_for(100, 60, 1).unwrap_err(),
        "value_reserve needs 60 bytes for 1 decoders, more than half of resident_payload_max 100; \
         raise resident_payload_max or lower value_reserve or decoder_pool_size"
    );
}

/// The pool is not sized from the largest value.
#[test]
fn hard_value_cap_does_not_size_the_pool() {
    assert!(build_budget(512 << 20, DEFAULT_VALUE_RESERVE, RETAINED, DEFAULT_DRAIN_BATCH_BYTES, 4)
        .is_ok());
}

/// What is admitted must fit a drain's retained state and slice headroom.
#[test]
fn build_budget_rejects_admission_below_drain_floor() {
    let pool = default_resident_payload_max(None);
    let plan =
        build_budget(pool, DEFAULT_VALUE_RESERVE, RETAINED, DEFAULT_DRAIN_BATCH_BYTES, 4).unwrap();
    assert_eq!((plan.total, plan.leaf_reserve), (pool, 4 * DEFAULT_VALUE_RESERVE));
    assert!(build_budget(64 << 20, 1 << 20, RETAINED, DEFAULT_DRAIN_BATCH_BYTES, 1).is_err());
    assert_eq!(
        build_budget(100, 1, 50, 30, 1).unwrap_err(),
        "admission compartment 99 below drain floor 110 (body spool cap + index cap + 2x \
         drain_batch_bytes); raise resident_payload_max or lower drain_batch_bytes"
    );
}

#[test]
fn replay_round_closes_at_its_bounds() {
    let mut r = ReplayRound::new();
    r.push("a", REPLAY_FETCH_BYTES - 2, 1);
    assert!(r.has_room());
    r.push("b", 0, 1);
    assert!(!r.has_room());
    assert_eq!((r.rows.len(), r.need, r.resident), (2, REPLAY_FETCH_BYTES - 2, 2));
}

#[test]
fn store_resolver_reassembles_toast_from_chunk() {
    let mapping = TableMapping {
        target: TableTarget::new("db", "t"),
        columns: vec![
            ColumnMapping { src_attnum: 1, target_name: "id".into(), target_type: "Int32".into() },
            ColumnMapping { src_attnum: 2, target_name: "body".into(), target_type: "String".into() },
        ],
    };
    let columns =
        || vec![Some(ColumnValue::Int4(1)), Some(ColumnValue::ExternalToast(pointer(50)))];
    let sites = mapped_pointers(&columns(), &mapping);
    let fetched = |c: FetchedCell| vec![(c, 5u64)];
    let mut row = columns();
    let hello = FetchedCell::Finished(Ok((ColumnValue::Text("hello".into()), 5)));
    assert_eq!(fill_columns(&mut row, &sites, fetched(hello), &rel(), &mapping), Ok(5));
    assert!(matches!(&row[1], Some(ColumnValue::Text(t)) if t == "hello"));
    assert!(matches!(row[0], Some(ColumnValue::Int4(1))));
    let mut row = columns();
    assert_eq!(
        fill_columns(&mut row, &sites, fetched(FetchedCell::NoStore), &rel(), &mapping),
        Ok(0)
    );
    assert!(matches!(row[1], Some(ColumnValue::Null)), "unresolved toast NULL-filled");
    let err = fill_columns(&mut columns(), &sites, fetched(FetchedCell::Missing), &rel(), &mapping)
        .unwrap_err();
    assert!(err.contains("column body value_id=50"), "{err}");
}

#[test]
fn tuples_arrive_whatever_becomes_of_them() {
    let facts = TupleFacts { known: false, skipped: false, toast: false, routed: false, external: false };
    let mut d = Drain::<u32>::new();
    let (steps, action) = d.on_tuple(rfn(7), 0x10, facts, true, true);
    assert!(matches!(steps[..], [DrainStep::Register { seq: 0, lsn: 0x10 }]));
    assert_eq!(action, TupleAction::Unsupported);
    let stored = TupleFacts { known: true, toast: true, ..facts };
    let (steps, action) = d.on_tuple(rfn(7), 0x20, stored, true, true);
    assert!(steps.is_empty());
    assert_eq!(action, TupleAction::StoreChunk);
    let (steps, action) = d.on_tuple(rfn(8), 0x30, facts, true, true);
    assert!(matches!(
        steps[..],
        [DrainStep::Placed { seq: 0, rows: 0 }, DrainStep::Register { seq: 1, lsn: 0x30 }]
    ));
    assert_eq!(action, TupleAction::Unsupported);
}

#[test]
fn chunks_are_gathered_for_one_put() {
    let chunk = |seq: i32, n: usize| row_from_columns(Some((5, seq, vec![1; n])), 9, 0, 1).unwrap();
    let mut g = ChunkGather::new();
    assert!(g.take().is_none());
    assert_eq!(g.push(chunk(0, 3)), (1, 3));
    assert_eq!(g.push(chunk(1, 4)), (2, 7));
    let put = g.take().unwrap();
    assert_eq!(put.iter().map(|r| r.chunk_seq).collect::<Vec<_>>(), [0, 1]);
    assert!(g.take().is_none());
    assert_eq!(g.push(chunk(2, 2)), (1, 2));
}

/// Seqs are registered from zero up, and each is reported once, in that order.
#[test]
fn seqs_are_registered_and_reported_in_order() {
    let mut d = Drain::<u32>::new();
    let (mut registered, mut reported) = (vec![], vec![]);
    let mut note = |steps: Vec<DrainStep<u32>>| {
        for s in steps {
            match s {
                DrainStep::Register { seq, .. } => registered.push(seq),
                DrainStep::Placed { seq, .. } => reported.push(seq),
                DrainStep::Send(_) => {}
            }
        }
    };
    for (i, rel) in [7, 7, 8, 9, 8, 7, 7].into_iter().enumerate() {
        note(d.arrive(rfn(rel), 0x1000));
        if i % 2 == 0 {
            note(d.route(i as u32, 8));
        }
    }
    note(d.finish());
    assert_eq!(registered, [0, 1, 2, 3, 4]);
    assert_eq!(reported, registered);
}

/// Every value of a round trip is found under its own number.
#[test]
fn answers_are_kept_by_store_value_and_position() {
    let site = |value_id: u32| SiteRef { relid: 16500, value_id, bound: 9, extsize: 1 };
    let plan = plan_fetches(&vec![site(4), site(5), site(4)]);
    let mut values = FetchedValues::new(plan.uses);
    for g in &plan.groups {
        let got = g.values.iter().map(|(id, _)| FetchedValue::Assembled(vec![*id as u8]));
        values.arrived(g, got.collect());
    }
    for id in [4, 5, 4] {
        assert!(matches!(
            values.take(16500, id, 9),
            Some(FetchedValue::Assembled(b)) if b == [id as u8]
        ));
    }
    assert!(values.values.as_ref().is_some_and(|v| v.is_empty()), "the last referrer takes");
    // An answer that is too short or too long is kept as far as it was asked
    let g = FetchGroup { relid: 1, bound: 2, values: vec![(3, 1), (4, 1)] };
    let mut short = FetchedValues::new(BTreeMap::new());
    short.arrived(&g, vec![FetchedValue::Missing]);
    let held: Vec<u128> = short.values.unwrap().into_keys().collect();
    assert_eq!(held, [make_key(1, 3, 2)]);
    let mut long = FetchedValues::new(BTreeMap::new());
    long.arrived(&g, vec![FetchedValue::Missing, FetchedValue::Missing, FetchedValue::Missing]);
    assert_eq!(long.values.unwrap().len(), 2);
    assert!(FetchedValues::without_store(BTreeMap::new()).values.is_none());
    assert_ne!(make_key(1, 2, 3), make_key(2, 1, 3));
}

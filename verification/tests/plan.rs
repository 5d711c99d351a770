//! Planning a transaction, its spool, and the execution of a plan.
use walshadow::mapping::{RouteMap, TableMapping, TableTarget};
use walshadow::pipeline::commit::{
    boot_relation, bump_plan_failure, classify_record, config_action, event_followups,
    fence_result, truncate_mirror, ConfigAction, ConfigEvent, FenceOutcome, PlanFailures,
    RecordKind, XactPayload, RM_XACT, XLOG_XACT_ABORT, XLOG_XACT_ASSIGNMENT, XLOG_XACT_COMMIT,
    XLOG_XACT_COMMIT_PREPARED,
};
use walshadow::pipeline::commit_run::{
    abort_actions, idle_advances, AbortAction, CommitRun, CommitStage, PlanTotals, StageResult,
};
use walshadow::pipeline::execute::{PlanRun, PlanTurn};
use walshadow::pipeline::fatal::Fatal;
use walshadow::pipeline::housekeeping::{
    flush_due_retires, note_pending, settle_pending, settle_pending_boot, BootSettle, RetireStep,
    SettleStep,
};
use walshadow::pipeline::opt_in::{reload_start, Attempt, Desired, OptIns, ReloadStart, Selected};
use walshadow::pipeline::plan_replay::{check_heap_consumed, PlanItem, RoutedHeap};
use walshadow::pipeline::plan_spool::{
    PlanSpoolError, PlanWriter, SealedPlan, DEFAULT_PLAN_MEM_MAX,
};
use walshadow::pipeline::plan_stream::{
    BodyTurn, PlanPass, PlanStream, ReadyPlan, StreamTurn, FRAME_HEAD_BYTES, PLAN_HEADER_BYTES,
};
use walshadow::pipeline::planner::{
    drain_reason, FailClosedReason, PlanError, Planner, WalkHeap, XactBufferError,
};
use walshadow::pipeline::reorder::{
    commit_marker, plan_file_name, put_plan_rows, ExecStep, Executor,
};
use walshadow::pipeline::route_view::{PlanRouteView, ReorderRouteView};
use walshadow::schema::{
    RelAttr, RelDescriptor, RelFileNode, RelName, ReplIdent, SchemaEvent,
};

const ROUTE: u64 = 3;

/// A heap's encoding: its value, and some padding.
fn heap(v: u8) -> Vec<u8> {
    let mut b = vec![v];
    b.resize(20, 0xAB);
    b
}

fn desc(rel_node: u64) -> (u64, u64) {
    (rel_node, 0x40)
}

/// Write the heaps and return the plan with its bytes in a file.
fn spilled(values: &[u8]) -> (SealedPlan<u32>, Vec<u8>) {
    let mut w = PlanWriter::<u32>::create("1.plan".into(), 1 << 20, 0);
    let mut file = vec![];
    for v in values {
        w.push_heap(desc(16500), None, &heap(*v)).unwrap();
        file.extend(w.take_spilled());
    }
    let (plan, rest) = w.seal(0x2000, 42);
    file.extend(rest);
    assert_eq!(plan.path(), Some("1.plan"));
    assert!(plan.resident().is_none());
    (plan, file)
}

/// Replay reproduces the order of the writes: controls before the heap they
/// are pinned to, or behind the last; one entry per identity in the header.
#[test]
fn round_trip_orders_heaps_and_controls() {
    let mut w = PlanWriter::<u32>::create("1.plan".into(), 1 << 20, DEFAULT_PLAN_MEM_MAX);
    let (d1, d2) = (desc(16500), desc(16501));
    w.push_control(1, 0);
    w.push_heap(d1, Some(ROUTE), &heap(10)).unwrap();
    w.push_heap(d2, None, &heap(20)).unwrap();
    w.push_control(2, 0);
    w.push_heap(d1, Some(ROUTE), &heap(30)).unwrap();
    w.push_control(3, 0);
    assert!(w.take_spilled().is_empty(), "small plan stays memory-resident");
    let (plan, rest) = w.seal(0x2000, 42);
    assert_eq!(plan.descriptors.len(), 2, "dict deduped");
    assert_eq!(plan.routes.len(), 1, "route table deduped");
    assert_eq!(plan.heap_count, 3);
    assert_eq!(plan.routed_count, 2, "unmapped discard not counted");
    assert!(plan.size_bytes > 0);
    assert_eq!((plan.commit_lsn, plan.commit_ts), (0x2000, 42));

    let bytes = plan.resident().expect("resident");
    let mut rd = plan.replay(bytes).unwrap();
    let mut order = Vec::new();
    while let Some(item) = rd.next_item().unwrap() {
        order.push(match item {
            PlanItem::Control(c) => format!("e{}", c.event),
            PlanItem::Heap(h) => {
                assert!(
                    plan.descriptors.contains(&h.descriptor),
                    "descriptor resolves through the header table"
                );
                if let Some(route) = h.route {
                    assert_eq!(route, plan.routes[0]);
                }
                format!("h{}{}", h.heap[0], if h.route.is_some() { "r" } else { "-" })
            }
        });
    }
    assert_eq!(order, ["e1", "h10r", "h20-", "e2", "h30r", "e3"]);
    assert!(plan.path().is_none(), "small plan stays memory-resident");
    assert!(rest.is_empty(), "nothing belongs in a file");
}

/// Heaps round-trip byte for byte, so values that the source database has yet
/// to render come out as they went in.
#[test]
fn pending_values_round_trip() {
    let mut w = PlanWriter::<u32>::create("1.plan".into(), 1 << 20, DEFAULT_PLAN_MEM_MAX);
    let mut encoded = br#"3802:{"k":1}"#.to_vec();
    encoded.extend([1, 2, 3, 4]);
    w.push_heap(desc(16500), Some(ROUTE), &encoded).unwrap();
    let (plan, _) = w.seal(0x2000, 42);
    let mut rd = plan.replay(plan.resident().unwrap()).unwrap();
    let Some(PlanItem::Heap(out)) = rd.next_item().unwrap() else {
        panic!("expected heap");
    };
    assert_eq!(out.heap, encoded);
    assert_eq!(out.frame_offset, 4);
    assert!(rd.next_item().unwrap().is_none());
}

/// A flipped byte surfaces as a checksum error.
#[test]
fn corruption_fails_replay() {
    let (plan, mut bytes) = spilled(&[10]);
    let mid = 4 + 8 + 5; // into the first frame body
    bytes[mid] ^= 0xFF;
    let mut rd = plan.replay(&bytes).unwrap();
    let Err(err) = rd.next_item() else {
        panic!("expected corruption error");
    };
    assert!(matches!(err, PlanSpoolError::Corrupt { .. }), "{err:?}");
}

/// A garbage length is rejected against the sealed size.
#[test]
fn oversize_frame_len_fails_before_allocating() {
    let (plan, mut bytes) = spilled(&[10]);
    bytes[4..8].copy_from_slice(&u32::MAX.to_le_bytes());
    let Err(err) = plan.verify(&bytes) else {
        panic!("expected format error");
    };
    assert!(matches!(err, PlanSpoolError::Format { .. }), "{err:?}");
}

#[test]
fn verify_walks_all_frames() {
    let (plan, mut bytes) = spilled(&[10, 20]);
    plan.verify(&bytes).unwrap();
    assert_eq!(plan.size_bytes, bytes.len() as u64);
    let last_body = bytes.len() - 18; // last heap frame body, before the seal
    bytes[last_body] ^= 0xFF;
    let Err(err) = plan.verify(&bytes) else {
        panic!("expected corruption error");
    };
    assert!(matches!(err, PlanSpoolError::Corrupt { .. }), "{err:?}");
}

/// A truncated tail reads as unsealed.
#[test]
fn missing_seal_fails_replay() {
    let mut w = PlanWriter::<u32>::create("1.plan".into(), 1 << 20, 0);
    w.push_heap(desc(16500), None, &heap(10)).unwrap();
    let heaps_only = w.bytes();
    let mut bytes = w.take_spilled();
    let (plan, rest) = w.seal(0x2000, 42);
    bytes.extend(rest);
    bytes.truncate(heaps_only as usize);
    let mut rd = plan.replay(&bytes).unwrap();
    assert!(
        matches!(rd.next_item(), Ok(Some(PlanItem::Heap(_)))),
        "pre-seal frames intact"
    );
    let Err(err) = rd.next_item() else {
        panic!("expected unsealed error");
    };
    assert!(matches!(err, PlanSpoolError::Unsealed), "{err:?}");
}

/// The byte cap bounds writes; what was refused leaves no byte behind.
#[test]
fn budget_bounds_writes_and_drop_unlinks() {
    let mut w = PlanWriter::<u32>::create("1.plan".into(), 16, 0);
    let Err(err) = w.push_heap(desc(16500), None, &heap(10)) else {
        panic!("expected budget error");
    };
    assert!(matches!(err, PlanSpoolError::DiskBudget { needed: 41, cap: 16 }), "{err:?}");
    assert_eq!(w.bytes(), 4);
}

/// The checksum in a frame is the CRC-32C of its body.
#[test]
fn frames_carry_the_body_checksum() {
    let (_, bytes) = spilled(&[10]);
    let len = u32::from_le_bytes(bytes[4..8].try_into().unwrap()) as usize;
    let crc = u32::from_le_bytes(bytes[8..12].try_into().unwrap());
    assert_eq!(len, 29);
    assert_eq!(crc, crc32c::crc32c(&bytes[12..12 + len]));
    assert_eq!(crc32c::crc32c(b"123456789"), 0xE306_9283);
    assert_eq!(&bytes[..4], b"WP\x01\x00");
}

#[test]
fn foreign_streams_are_refused() {
    let (plan, bytes) = spilled(&[10]);
    let format_of = |b: &[u8]| match plan.replay(b) {
        Err(PlanSpoolError::Format { detail }) => detail,
        Err(e) => format!("{e:?}"),
        Ok(_) => panic!("accepted"),
    };
    let mut magic = bytes.clone();
    magic[0] = b'X';
    assert_eq!(format_of(&magic), "bad plan magic");
    let mut version = bytes.clone();
    version[2] = 9;
    assert_eq!(format_of(&version), "unsupported plan version 9, expected 1");
    assert!(matches!(plan.replay(&[]), Err(PlanSpoolError::Unsealed)));
    let mut tail = bytes.clone();
    tail.push(0);
    assert!(matches!(plan.verify(&tail), Err(PlanSpoolError::Format { .. })));
    assert!(check_heap_consumed(4, 0).is_ok());
    match check_heap_consumed(4, 2) {
        Err(PlanSpoolError::Format { detail }) => {
            assert_eq!(detail, "heap frame at 4 has 2 trailing bytes")
        }
        other => panic!("{other:?}"),
    }
}

/// The vocabulary that the failure counters and the metrics share.
#[test]
fn plan_error_reason_labels() {
    assert_eq!(PlanError::PartialUpdate { lsn: 1 }.reason(), "partial_update");
    assert_eq!(PlanError::View("x".into()).reason(), "view");
    let fail_closed = |reason| XactBufferError::OrdinaryFailClosed {
        relid: 1,
        lsn: 2,
        rm: 10,
        info: 0,
        reason,
    };
    assert_eq!(
        drain_reason(&fail_closed(FailClosedReason::ImageOnly)),
        "fail_closed_image_only"
    );
    assert_eq!(
        drain_reason(&fail_closed(FailClosedReason::Malformed("x".into()))),
        "fail_closed_malformed"
    );
    assert_eq!(
        drain_reason(&fail_closed(FailClosedReason::UnsupportedOperation)),
        "fail_closed_unsupported_op"
    );
    // A partial update found while draining shares the planner's label
    assert_eq!(
        drain_reason(&fail_closed(FailClosedReason::PartialUpdate)),
        "partial_update"
    );
    assert_eq!(
        drain_reason(&XactBufferError::StashAmbiguous {
            rel_node: 1,
            lsn: 2,
            from_lsn: 1,
            through_lsn: 3,
        }),
        "stash_ambiguous"
    );
    assert_eq!(
        drain_reason(&XactBufferError::IncompleteToastGeneration { relid: 1 }),
        "incomplete_toast"
    );
    assert_eq!(
        drain_reason(&XactBufferError::MissingStashResolution { top_xid: 7 }),
        "missing_stash_resolution"
    );
    assert_eq!(drain_reason(&XactBufferError::ForeignXid { xid: 1, top: 2 }), "drain");
    assert_eq!(
        PlanError::Detoast(XactBufferError::Detoast("x".into())).reason(),
        "detoast"
    );
    assert_eq!(drain_reason(&XactBufferError::ForeignXid { xid: 1, top: 2 }), "drain");
}

#[test]
fn failures_are_counted_by_their_reason() {
    let mut f = PlanFailures::default();
    for r in ["drain", "detoast", "detoast", "partial_update"] {
        bump_plan_failure(&mut f, r);
    }
    assert_eq!((f.drain, f.detoast, f.partial_update, f.view), (1, 2, 1, 0));
    let before = f;
    bump_plan_failure(&mut f, "unheard of");
    assert_eq!(f, PlanFailures { drain: before.drain + 1, ..before });
}

fn walk(table: &str, lsn: u64, partial: bool) -> WalkHeap {
    WalkHeap {
        rel_name: RelName::new("public", table),
        descriptor: 16600,
        valid_from: 0x40,
        source_lsn: lsn,
        partial,
    }
}

fn routes(tables: &[&str]) -> RouteMap {
    RouteMap {
        entries: tables
            .iter()
            .map(|t| {
                (
                    RelName::new("public", t),
                    TableMapping { target: TableTarget::new("db", t), columns: vec![] },
                )
            })
            .collect(),
    }
}

fn plan_one(p: &mut Planner<&'static str>, view: &mut ReorderRouteView, h: &WalkHeap) {
    let route = p.route_heap(view, h).unwrap();
    p.push_heap(h, route, &[h.source_lsn as u8]).unwrap();
}

#[test]
fn plans_drain_in_walk_order_with_view_updates() {
    let map = routes(&["t16600"]);
    let mut view = ReorderRouteView::new(Some(&map));
    let mut p = Planner::create("1.plan".into(), 1 << 20);
    plan_one(&mut p, &mut view, &walk("t16600", 100, false));
    plan_one(&mut p, &mut view, &walk("t16600", 120, false));
    p.event(&mut view, "dropped", Ok(vec![(RelName::new("public", "t16600"), None)])).unwrap();
    plan_one(&mut p, &mut view, &walk("t16600", 200, false));
    let (plan, _) = p.seal(0x2000, 42);
    assert_eq!((plan.commit_lsn, plan.commit_ts), (0x2000, 42));
    let mut rd = plan.replay(plan.resident().unwrap()).unwrap();
    let mut order = Vec::new();
    while let Some(item) = rd.next_item().unwrap() {
        order.push(match item {
            PlanItem::Control(_) => "e".to_string(),
            PlanItem::Heap(h) => {
                format!("h{}{}", h.heap[0], if h.route.is_some() { "r" } else { "-" })
            }
        });
    }
    assert_eq!(
        order,
        ["h100r", "h120r", "e", "h200-"],
        "post-event heap plans unmapped under the folded view"
    );
    assert_eq!((view.mapped_count(), view.unmapped_count()), (1, 1));
}

/// Rows and fences of several batches count from the start of the plan.
#[test]
fn mirror_rows_and_fences_rebase_globally() {
    let map = routes(&["t16605"]);
    let mut view = ReorderRouteView::new(Some(&map));
    let mut p = Planner::create("1.plan".into(), 1 << 20);
    for (seq, lsn) in [(0u64, 101), (1, 103)] {
        p.rows(1);
        plan_one(&mut p, &mut view, &walk("t16605", lsn, false));
        p.end_batch(vec![50 + seq]);
    }
    p.event(&mut view, "dropped", Ok(vec![(RelName::new("public", "other"), None)])).unwrap();
    p.truncate(&mut view, &walk("t16605", 105, false), &[0]).unwrap();
    p.end_batch(vec![]);
    let (plan, _) = p.seal(0x2000, 42);
    let total_rows: usize = plan.row_batches.iter().map(|rb| rb.len()).sum();
    assert_eq!(total_rows, 2, "both chunk births carried");
    assert_eq!(plan.heap_count, 3, "2 inserts + truncate");
    assert_eq!(plan.controls.len(), 1);
    assert_eq!(plan.controls[0].row_idx, 2, "event fence re-based to plan-global rows");
    assert_eq!(plan.truncate_rows, vec![2], "truncate fence re-based to plan-global rows");
}

#[test]
fn partial_update_fails_plan_only_when_routed() {
    for (tables, expect_err) in [(vec!["t16607"], true), (vec![], false)] {
        let map = routes(&tables);
        let mut view = ReorderRouteView::new(Some(&map));
        let mut p = Planner::<()>::create("1.plan".into(), 1 << 20);
        let h = walk("t16607", 100, true);
        let res = p.route_heap(&mut view, &h);
        if expect_err {
            assert!(matches!(res, Err(PlanError::PartialUpdate { lsn: 100 })), "{res:?}");
        } else {
            p.push_heap(&h, res.unwrap(), &[1]).unwrap();
            let (plan, _) = p.seal(0x2000, 42);
            assert_eq!(plan.heap_count, 1, "unmapped partial plans as discard");
            assert_eq!(plan.routed_count, 0);
        }
    }
}

#[test]
fn refused_effects_fail_the_plan() {
    let mut view = ReorderRouteView::new(None);
    let mut p = Planner::create("1.plan".into(), 1 << 20);
    match p.event(&mut view, "changed", Err("no type".into())) {
        Err(e @ PlanError::View(_)) => assert_eq!(e.reason(), "view"),
        other => panic!("{other:?}"),
    }
}

#[test]
fn plan_view_holds_one_mapping_version_across_a_republish() {
    let planned = RelName::new("public", "planned");
    let added = RelName::new("public", "added");
    let map = routes(&["planned"]);
    let mut view = ReorderRouteView::new(Some(&map));
    let id = view.route_for(&planned).expect("routed");
    assert_eq!(view.snapshot(id).unwrap().target.sql(), "`db`.`planned`");
    assert!(view.route_for(&added).is_none());
    // Another version changes nothing that this view answers
    let _republished = routes(&["added"]);
    assert_eq!(
        view.route_for(&planned),
        Some(id),
        "republish can't unroute rows already planned"
    );
    assert!(
        view.route_for(&added).is_none(),
        "republish can't route rows this transaction planned unmapped"
    );
    assert_eq!((view.mapped_count(), view.unmapped_count()), (1, 1), "each counted once");
}

/// A change of some relations takes back their routes alone: the numbers that
/// were given keep their routes, and what was counted stays counted.
#[test]
fn effects_touch_their_relations_alone() {
    let (a, b) = (RelName::new("public", "a"), RelName::new("public", "b"));
    let map = routes(&["a", "b"]);
    let mut view = ReorderRouteView::new(Some(&map));
    let (ia, ib) = (view.route_for(&a).unwrap(), view.route_for(&b).unwrap());
    assert_eq!((view.mapped_count(), view.unmapped_count()), (2, 0));
    view.apply(vec![(RelName::new("public", "a"), None)]);
    assert_eq!((view.mapped_count(), view.unmapped_count()), (2, 0));
    assert_eq!(view.route_for(&b), Some(ib));
    assert_eq!(view.route_for(&a), None);
    assert_eq!((view.mapped_count(), view.unmapped_count()), (2, 1));
    assert_eq!(view.snapshot(ia).unwrap().target.sql(), "`db`.`a`");
    assert_eq!(view.snapshot(ib).unwrap().target.sql(), "`db`.`b`");
}

/// Rows that were planned and sealed read back in order, each with its own
/// descriptor, route and bytes, from memory and from a file.
#[test]
fn sealed_plans_read_back_as_written() {
    let map = routes(&["a", "b"]);
    for size in [20usize, 700_000] {
        let mut view = ReorderRouteView::new(Some(&map));
        let mut p = Planner::<u32>::create("1.plan".into(), 1 << 30);
        let mut file = vec![];
        let mut want = vec![];
        for (i, t) in ["a", "b", "c", "a"].into_iter().enumerate() {
            let h = WalkHeap { descriptor: 100 + i as u64, valid_from: i as u64, ..walk(t, 7, false) };
            let bytes = vec![i as u8; size];
            let route = p.route_heap(&mut view, &h).unwrap();
            assert!(p.room_for(bytes.len()));
            p.push_heap(&h, route, &bytes).unwrap();
            want.push(((h.descriptor, h.valid_from), route, bytes));
            file.extend(p.take_spilled());
        }
        let (plan, rest) = p.seal(0x2000, 42);
        file.extend(rest);
        assert_eq!(plan.resident().is_none(), size > 20, "only an outgrown plan has a file");
        let input = plan.resident().unwrap_or(&file);
        assert_eq!(input.len() as u64, plan.size_bytes);
        plan.verify(input).unwrap();
        let mut rd = plan.replay(input).unwrap();
        let mut got = vec![];
        while let Some(item) = rd.next_item().unwrap() {
            let PlanItem::Heap(h) = item else { panic!("a control") };
            got.push((h.descriptor, h.route, h.heap));
        }
        assert_eq!(got, want);
        let routes: Vec<Option<u64>> = got.iter().map(|g| g.1).collect();
        assert!(routes[0].is_some() && routes[1].is_some() && routes[0] != routes[1]);
        assert_eq!((routes[2], routes[3]), (None, routes[0]));
    }
}

#[test]
fn slices_are_dispatched_and_the_last_publishes() {
    let mut e = Executor::<u8>::new(2, 1 << 20, vec![], 10);
    assert!(e.on_heap(1, 5).is_empty());
    match e.on_heap(2, 5).as_slice() {
        [ExecStep::Dispatch { seq: 10, publish: false, heaps, bytes: 10 }] => {
            assert_eq!(heaps, &[1, 2])
        }
        other => panic!("{other:?}"),
    }
    e.on_heap(3, 5);
    let (steps, published) = e.finish(0);
    assert!(matches!(
        steps.as_slice(),
        [ExecStep::Dispatch { seq: 11, publish: true, .. }]
    ));
    assert!(published);
    assert_eq!((e.rows_total(), e.next_seq()), (3, 12));
    assert_eq!(commit_marker(published, e.next_seq()), None);
}

#[test]
fn controls_and_truncates_fence_what_came_before() {
    let mut e = Executor::<u8>::new(100, 1 << 20, vec![3], 0);
    e.on_heap(1, 5);
    let steps = e.on_control(2);
    assert!(matches!(
        steps.as_slice(),
        [
            ExecStep::PutRows { from: 0, to: 2 },
            ExecStep::Dispatch { seq: 0, publish: false, .. },
            ExecStep::Fence,
            ExecStep::Apply
        ]
    ), "{steps:?}");
    let steps = e.on_truncate();
    assert!(matches!(
        steps.as_slice(),
        [ExecStep::PutRows { from: 2, to: 3 }, ExecStep::Fence, ExecStep::Apply]
    ), "{steps:?}");
    let (steps, published) = e.finish(5);
    assert!(matches!(steps.as_slice(), [ExecStep::PutRows { from: 3, to: 5 }]), "{steps:?}");
    assert!(!published);
    assert_eq!(commit_marker(published, e.next_seq()), Some(1));
}

#[test]
fn plan_rows_are_cut_at_their_batches() {
    assert_eq!(put_plan_rows(&vec![2, 0, 3], 1, 4), [(0, 1, 2), (2, 0, 2)]);
    assert!(put_plan_rows(&vec![2, 3], 2, 2).is_empty());
    assert_eq!(plan_file_name(7, 0x2000), "xact-7-8192.plan");
}

#[test]
fn transaction_records_are_told_apart() {
    assert_eq!(classify_record(RM_XACT, XLOG_XACT_COMMIT), RecordKind::Commit);
    assert_eq!(classify_record(RM_XACT, XLOG_XACT_COMMIT_PREPARED | 0x80), RecordKind::Commit);
    assert_eq!(classify_record(RM_XACT, XLOG_XACT_ABORT), RecordKind::Abort);
    assert_eq!(classify_record(RM_XACT, XLOG_XACT_ASSIGNMENT), RecordKind::Assignment);
    assert_eq!(classify_record(10, XLOG_XACT_COMMIT), RecordKind::Other);
}

fn payload() -> XactPayload {
    XactPayload { twophase_xid: None, db_id: None, subxacts: vec![8, 9] }
}

#[test]
fn commit_belongs_to_the_prepared_transaction() {
    let p = payload();
    assert_eq!((p.owner(7), p.database(5), p.tree(7)), (7, 5, vec![7, 8, 9]));
    let p = XactPayload { twophase_xid: Some(3), db_id: Some(6), ..payload() };
    assert_eq!((p.owner(7), p.database(5)), (3, 6));
}

fn relation(kind: char, oid: u32, toast_oid: u32) -> RelDescriptor {
    RelDescriptor {
        rfn: RelFileNode { spc_node: 1663, db_node: 5, rel_node: oid },
        oid,
        toast_oid,
        rel_name: RelName::new("public", "t"),
        kind,
        replident: ReplIdent::Nothing,
        attributes: Vec::<RelAttr>::new(),
    }
}

#[test]
fn events_are_followed_up_by_what_they_touch() {
    let dropped = |ns: &str| SchemaEvent::Dropped { oid: 1, rel_name: RelName::new(ns, "t") };
    assert!(event_followups(&dropped("pg_toast"), true, true).retire_mirror);
    assert!(!event_followups(&dropped("pg_toast"), true, false).retire_mirror);
    assert!(!event_followups(&dropped("public"), true, true).retire_mirror);
    let added = SchemaEvent::Added { desc: relation('r', 1, 0) };
    assert!(event_followups(&added, true, true).materialize);
    assert!(!event_followups(&added, false, true).materialize);
    assert!(boot_relation(&relation('r', 1, 0)));
    assert!(!boot_relation(&relation('t', 1, 0)));
    assert_eq!(truncate_mirror(true, &relation('r', 1, 9)), Some(9));
    assert_eq!(truncate_mirror(true, &relation('r', 1, 0)), None);
    assert_eq!(truncate_mirror(false, &relation('r', 1, 9)), None);
}

#[test]
fn config_events_select_literal_tables_only() {
    let rel = || RelName::new("public", "t");
    let upsert = |is_pattern: bool| ConfigEvent::TableUpserted { rel: rel(), is_pattern };
    let remove = |pattern: bool| ConfigEvent::TableRemoved { rel: rel(), pattern };
    assert_eq!(config_action(&upsert(false), true), ConfigAction::OptIn);
    assert_eq!(config_action(&upsert(false), false), ConfigAction::Nothing);
    assert_eq!(config_action(&upsert(true), true), ConfigAction::Nothing);
    assert_eq!(config_action(&remove(false), false), ConfigAction::Exclude);
    assert_eq!(config_action(&remove(true), true), ConfigAction::Nothing);
    assert_eq!(config_action(&ConfigEvent::Other, true), ConfigAction::Nothing);
}

#[test]
fn opt_ins_wait_until_they_are_applied() {
    let want = |t: &str, replicate: bool| Desired { rel: RelName::new("public", t), replicate, row: 1 };
    let mut o = OptIns::new();
    assert!(o.reload(vec![want("a", true), want("b", false)]).is_empty());
    assert_eq!(o.pending.len(), 1);
    o.mark_applied(RelName::new("public", "a"));
    assert!(o.pending.is_empty());
    assert!(o.reload(vec![want("a", true)]).is_empty());
    assert!(o.pending.is_empty(), "applied once");
    let stale = o.reload(vec![want("a", false)]);
    assert_eq!(stale.len(), 1);
    assert!(stale[0].same(&RelName::new("public", "a")));
    assert!(o.applied.is_empty());
}

#[test]
fn waiting_opt_ins_are_settled_by_their_attempts() {
    let a = || RelName::new("public", "a");
    let mut o = OptIns::new();
    o.reload(vec![Desired { rel: a(), replicate: true, row: 1 }]);
    assert!(o.settle(a(), Attempt::Unknown).is_ok());
    assert_eq!(o.pending.len(), 1);
    assert_eq!(
        o.settle(a(), Attempt::LookupFailed("gone".into())),
        Err("opt-in descriptor lookup: gone".to_string())
    );
    assert_eq!(
        o.settle(a(), Attempt::ApplyFailed("refused".into())),
        Err("reload opt-in: refused".to_string())
    );
    assert_eq!((o.applied.len(), o.pending.len()), (0, 1));
    assert!(o.settle(a(), Attempt::Applied).is_ok());
    assert_eq!((o.applied.len(), o.pending.len()), (1, 0));
    assert_eq!(reload_start(true, false, true), ReloadStart { diff: false, retry: true });
    assert_eq!(reload_start(false, true, true), ReloadStart { diff: false, retry: false });
}

/// Drive a commit with what `reply` answers per stage; the stages it passed.
fn drive(
    reply: impl Fn(CommitStage) -> StageResult,
) -> (Vec<CommitStage>, CommitRun, PlanTotals, PlanFailures) {
    let mut totals = PlanTotals { xacts_committed: 0, rows: 0, bytes_file: 0, bytes_mem: 0 };
    let mut failures = PlanFailures::default();
    let mut run = CommitRun::begin(7, &payload(), 5);
    let mut stages = vec![run.stage];
    while !matches!(run.stage, CommitStage::Done | CommitStage::Failed) {
        run.advance(reply(run.stage), &mut totals, &mut failures);
        stages.push(run.stage);
    }
    (stages, run, totals, failures)
}

fn usual(had_states: bool, published: bool) -> impl Fn(CommitStage) -> StageResult {
    move |s| match s {
        CommitStage::DrainBuffer => StageResult::Drained { had_states, commit_lsn: 0x2000 },
        CommitStage::NextBatch => StageResult::Slice(Some(true)),
        CommitStage::SealPlan => StageResult::Sealed { routed: 3, bytes: 100, on_disk: true },
        CommitStage::Execute => StageResult::Executed { published },
        _ => StageResult::Ended,
    }
}

#[test]
fn commit_plans_before_it_executes() {
    let (stages, run, totals, _) = drive(usual(true, true));
    assert_eq!(
        stages,
        [
            CommitStage::FlushRetires,
            CommitStage::NotePending,
            CommitStage::ResolveStash,
            CommitStage::DrainBuffer,
            CommitStage::ForgetTree,
            CommitStage::ApplyReload,
            CommitStage::FreezeRoutes,
            CommitStage::OpenPlan,
            CommitStage::NextBatch,
            CommitStage::PlanBatch { last: true },
            CommitStage::SealPlan,
            CommitStage::Execute,
            CommitStage::FinishDrain,
            CommitStage::Done,
        ]
    );
    assert_eq!(totals, PlanTotals { xacts_committed: 1, rows: 3, bytes_file: 100, bytes_mem: 0 });
    assert_eq!(run.plan_file(), plan_file_name(7, 0x2000));
}

#[test]
fn unpublished_commits_end_in_a_marker() {
    for (had_states, published) in [(false, false), (true, false)] {
        let (stages, _, totals, _) = drive(usual(had_states, published));
        assert_eq!(totals.xacts_committed, 1);
        assert_eq!(stages.contains(&CommitStage::Execute), had_states);
        assert!(stages.ends_with(&[CommitStage::Marker, CommitStage::Done]), "{stages:?}");
    }
}

#[test]
fn failed_plans_are_counted_and_execute_nothing() {
    let (stages, run, totals, failures) = drive(|s| match s {
        CommitStage::PlanBatch { .. } => {
            StageResult::Failed { error: "boom".into(), reason: "detoast" }
        }
        other => usual(true, true)(other),
    });
    assert_eq!(stages.last(), Some(&CommitStage::Failed));
    assert!(!stages.contains(&CommitStage::Execute));
    assert_eq!(run.error.as_deref(), Some("plan: boom"));
    assert_eq!(failures.detoast, 1);
    assert_eq!(totals.rows, 0);
    // A failure outside of planning is no failed plan
    let (_, run, _, failures) = drive(|s| match s {
        CommitStage::ApplyReload => StageResult::Failed { error: "x".into(), reason: "drain" },
        other => usual(true, true)(other),
    });
    assert_eq!(run.error.as_deref(), Some("x"));
    assert_eq!(failures, PlanFailures::default());
}

#[test]
fn aborts_pass_the_gate_without_rows() {
    assert_eq!(
        abort_actions(),
        [
            AbortAction::NotePending,
            AbortAction::Register,
            AbortAction::AbortBuffer,
            AbortAction::PlaceNone,
            AbortAction::ForgetTree,
        ]
    );
    assert!(idle_advances(0) && !idle_advances(1));
}

/// At most `n` bytes off the front.
fn cut(input: &mut &[u8], n: usize) -> Vec<u8> {
    let (front, rest) = input.split_at(n.min(input.len()));
    *input = rest;
    front.to_vec()
}

/// Read the frame that a stream asked for. A heap decodes to its first byte;
/// what stands behind its padding is left over.
fn frame(stream: &mut PlanStream<u32>, input: &mut &[u8]) -> Result<Option<RoutedHeap>, String> {
    let head = cut(input, FRAME_HEAD_BYTES);
    let len = stream.on_head(&head)?;
    let body = cut(input, len);
    match stream.on_body(&body, !input.is_empty())? {
        BodyTurn::Sealed => Ok(None),
        BodyTurn::Decode(b) => {
            let left = b.heap.len().saturating_sub(20);
            stream.on_decoded(b, left).map(Some)
        }
    }
}

/// Check a plan in a file; one in memory is ready.
fn ready<'p>(plan: &'p SealedPlan<u32>, mut input: &[u8]) -> Result<ReadyPlan<'p, u32>, String> {
    if let Some(r) = ReadyPlan::resident(plan) {
        return Ok(r);
    }
    let mut stream = PlanStream::verify(plan, &cut(&mut input, PLAN_HEADER_BYTES))?;
    loop {
        match stream.next() {
            StreamTurn::Control(_) => {}
            StreamTurn::Frame => {
                frame(&mut stream, &mut input)?;
            }
            StreamTurn::End => return Ok(stream.into_ready().unwrap()),
        }
    }
}

/// Execute a plan whose heaps truncate where their first byte is zero; the
/// steps in words.
fn execute(plan: &SealedPlan<u32>, mut input: &[u8]) -> Result<(Vec<String>, bool), String> {
    let ready = ready(plan, input)?;
    let first = cut(&mut input, PLAN_HEADER_BYTES);
    let mut run = PlanRun::<u32, u8>::open(ready, &first, 2, 1 << 20, 5)?;
    let mut out = vec![];
    let mut say = |steps: Vec<ExecStep<u8>>| {
        for s in steps {
            out.push(match s {
                ExecStep::PutRows { from, to } => format!("put {from}..{to}"),
                ExecStep::Dispatch { seq, publish, heaps, .. } => {
                    format!("seq {seq} {heaps:?}{}", if publish { " publish" } else { "" })
                }
                ExecStep::Fence => "fence".into(),
                ExecStep::Apply => "apply".into(),
            })
        }
    };
    loop {
        match run.next_turn() {
            PlanTurn::Control { steps, .. } => say(steps),
            PlanTurn::Frame => {
                if let Some(h) = frame(&mut run.stream, &mut input)? {
                    say(run.on_heap(h.heap[0], h.heap[0] == 0, h.heap.len()))
                }
            }
            PlanTurn::End { steps, published } => {
                say(steps);
                return Ok((out, published));
            }
        }
    }
}

#[test]
fn sealed_plan_is_executed_in_order() {
    let mut w = PlanWriter::<u32>::create("1.plan".into(), 1 << 20, DEFAULT_PLAN_MEM_MAX);
    w.push_rows(vec![70, 71, 72]);
    for v in [1, 2, 3] {
        w.push_heap(desc(16500), Some(ROUTE), &heap(v)).unwrap();
    }
    w.push_control(9, 1);
    w.note_truncate_cursor(2);
    w.push_heap(desc(16500), Some(ROUTE), &heap(0)).unwrap();
    w.push_heap(desc(16500), Some(ROUTE), &heap(4)).unwrap();
    let (plan, _) = w.seal(0x2000, 42);
    let (steps, published) = execute(&plan, plan.resident().unwrap()).unwrap();
    assert_eq!(
        steps,
        [
            "seq 5 [1, 2]",
            "put 0..1",
            "seq 6 [3]",
            "fence",
            "apply",
            "put 1..2",
            "fence",
            "apply",
            "put 2..3",
            "seq 7 [4] publish",
        ]
    );
    assert!(published);
}

/// A corrupt file fails before the first step.
#[test]
fn corrupt_file_emits_nothing() {
    let (plan, mut bytes) = spilled(&[10, 20]);
    assert!(execute(&plan, &bytes).is_ok());
    let last_body = bytes.len() - 18;
    bytes[last_body] ^= 0xFF;
    let err = execute(&plan, &bytes).unwrap_err();
    assert!(err.starts_with("plan verify: plan frame checksum mismatch at offset "), "{err}");
    // What stands in memory was checked as it was written
    let mut w = PlanWriter::<u32>::create("1.plan".into(), 1 << 20, DEFAULT_PLAN_MEM_MAX);
    w.push_heap(desc(16500), None, &heap(10)).unwrap();
    let (plan, _) = w.seal(0x2000, 42);
    let err = execute(&plan, b"XX").unwrap_err();
    assert_eq!(err, "plan replay: plan spool ends without seal; planning did not finish");
}

/// A frame whose checksum holds but whose heap leaves bytes over fails the
/// check, where the walk over the frames alone passes.
#[test]
fn heap_that_leaves_bytes_over_fails_the_check() {
    let mut w = PlanWriter::<u32>::create("1.plan".into(), 1 << 20, 0);
    let mut long = heap(10);
    long.extend([1, 2, 3]);
    w.push_heap(desc(16500), None, &heap(9)).unwrap();
    w.push_heap(desc(16500), None, &long).unwrap();
    let mut bytes = w.take_spilled();
    let (plan, rest) = w.seal(0x2000, 42);
    bytes.extend(rest);
    assert!(plan.verify(&bytes).is_ok());
    assert!(ReadyPlan::resident(&plan).is_none());
    let err = execute(&plan, &bytes).unwrap_err();
    assert_eq!(err, "plan verify: plan spool format: heap frame at 41 has 3 trailing bytes");
}

/// What is read in pieces is what stands in the whole.
#[test]
fn pieces_read_like_the_whole() {
    let (plan, bytes) = spilled(&[10, 20, 30]);
    let mut rd = plan.replay(&bytes).unwrap();
    let mut input = &bytes[..];
    let first = cut(&mut input, PLAN_HEADER_BYTES);
    let mut stream = PlanStream::verify(&plan, &first).unwrap();
    for v in [10, 20, 30] {
        assert!(matches!(stream.next(), StreamTurn::Frame));
        let h = frame(&mut stream, &mut input).unwrap().unwrap();
        let Some(PlanItem::Heap(w)) = rd.next_item().unwrap() else { panic!("heap") };
        assert_eq!(h.heap, heap(v));
        assert_eq!(
            (h.heap, h.descriptor, h.route, h.frame_offset),
            (w.heap, w.descriptor, w.route, w.frame_offset)
        );
    }
    assert!(matches!(stream.next(), StreamTurn::Frame));
    assert!(frame(&mut stream, &mut input).unwrap().is_none());
    assert!(rd.next_item().unwrap().is_none());
    assert!(matches!(stream.next(), StreamTurn::End));
    assert!(stream.into_ready().is_some());
    // A plan that was read half is not ready
    let stream = PlanStream::verify(&plan, &first).unwrap();
    assert!(stream.into_ready().is_none());
}

/// Every error of the whole is an error of the pieces.
#[test]
fn broken_pieces_are_refused() {
    let (plan, bytes) = spilled(&[10, 20]);
    let fails = |b: &[u8]| execute(&plan, b).unwrap_err();
    let unsealed = "plan verify: plan spool ends without seal; planning did not finish";
    assert_eq!(fails(&bytes[..2]), unsealed);
    assert_eq!(fails(&bytes[..7]), unsealed);
    assert_eq!(fails(&bytes[..20]), unsealed);
    assert_eq!(fails(&bytes[..bytes.len() - 1]), unsealed);
    let mut long = bytes.clone();
    long.push(0);
    assert_eq!(fails(&long), "plan verify: plan spool format: trailing bytes after seal");
    let mut huge = bytes.clone();
    huge[4..8].copy_from_slice(&u32::MAX.to_le_bytes());
    let left = bytes.len() - 12;
    assert_eq!(
        fails(&huge),
        format!("plan verify: plan spool format: frame at 4 claims 4294967295 bytes, {left} left in plan")
    );
    let mut magic = bytes.clone();
    magic[0] = b'X';
    assert_eq!(fails(&magic), "plan verify: plan spool format: bad plan magic");
    let io = PlanSpoolError::Io("gone".into());
    assert_eq!(PlanPass::Replay.fault(&io), format!("plan replay: {}", io.to_text()));
}

#[test]
fn mirrors_are_emptied_before_they_are_forgotten() {
    let due = vec![(16500, 100), (16600, 200)];
    assert_eq!(
        flush_due_retires(true, &due),
        [
            RetireStep::Wipe { mirror: 16500, dropped_at: 100 },
            RetireStep::Forget { mirror: 16500, dropped_at: 100 },
            RetireStep::Wipe { mirror: 16600, dropped_at: 200 },
            RetireStep::Forget { mirror: 16600, dropped_at: 200 },
        ]
    );
    assert!(flush_due_retires(false, &due).is_empty());
}

#[test]
fn pending_rows_are_settled_when_something_waits() {
    let mut total = 3;
    assert!(!note_pending(0, &mut total));
    assert!(note_pending(2, &mut total));
    assert_eq!(total, 5);
    assert_eq!(settle_pending(true, false), SettleStep::Rest);
    assert_eq!(settle_pending(false, false), SettleStep::ConnectAndSettle);
    assert_eq!(settle_pending(false, true), SettleStep::Settle);
    assert_eq!(settle_pending_boot(false), BootSettle::Inspect);
    let s = settle_pending_boot(true);
    assert_eq!(s, BootSettle::Reconcile);
    let s = s.next(false, true);
    assert_eq!((s, s.next(true, true)), (BootSettle::Inspect, BootSettle::Done));
    assert_eq!(s.next(false, false), BootSettle::Settle);
    let s = s.next(false, true);
    assert_eq!((s, s.next(false, true)), (BootSettle::ReadOutcomes, BootSettle::Settle));
    assert_eq!(BootSettle::Settle.next(false, true), BootSettle::Done);
}

#[test]
fn fences_report_the_root_cause() {
    let mut fatal = Fatal::new();
    let report = |f: &Fatal, o: FenceOutcome| fence_result(f, o, 7).err();
    assert_eq!(report(&fatal, FenceOutcome::Durable), None);
    assert_eq!(report(&fatal, FenceOutcome::StageFailed).as_deref(), Some("pipeline fatal"));
    assert_eq!(report(&fatal, FenceOutcome::SendFailed).as_deref(), Some("batcher channel closed"));
    assert_eq!(
        report(&fatal, FenceOutcome::AnswerDropped).as_deref(),
        Some("batcher dropped flush ack")
    );
    assert_eq!(
        report(&fatal, FenceOutcome::WaitFailed("gone".into())).as_deref(),
        Some("durability barrier through 7: gone")
    );
    fatal.set("root".into());
    assert_eq!(report(&fatal, FenceOutcome::StageFailed).as_deref(), Some("root"));
}

#[test]
fn planners_say_what_they_have_room_for() {
    let mut p = Planner::<u32>::create("1.plan".into(), 1 << 20);
    assert!(p.room_for(1 << 20) && p.room_to_seal() && p.fence_fits());
    assert!(!p.room_for(u32::MAX as usize));
    p.end_batch(vec![1, 2, 3]);
    assert!(p.rows_fit(usize::MAX - 3));
    assert!(!p.rows_fit(usize::MAX - 2));
    p.rows(usize::MAX);
    assert!(!p.fence_fits());
}

/// Patterns ask for no relation that is mapped, unless an opt-in mapped it.
#[test]
fn patterns_select_what_is_not_mapped() {
    let rel = |t: &str| RelName::new("public", t);
    let select = |t: &str, replicate: Option<bool>| Selected { rel: rel(t), replicate, row: 1 };
    let mut o = OptIns::new();
    o.mark_applied(rel("opted"));
    let asked = o.desired_rows(
        vec![select("mapped", Some(true)), select("silent", None)],
        vec![select("mapped", Some(true)), select("opted", Some(true)), select("new", Some(false))],
        &vec![rel("mapped"), rel("opted")],
    );
    let got: Vec<_> = asked.iter().map(|d| (d.rel.name.as_str(), d.replicate)).collect();
    assert_eq!(got, [("mapped", true), ("silent", false), ("opted", true), ("new", false)]);
}

/// A relation is named stale once, however often it was applied, and waits
/// once, however often it is asked for.
#[test]
fn opt_ins_are_held_once() {
    let rel = |t: &str| RelName::new("public", t);
    let mut o = OptIns::new();
    o.mark_applied(rel("a"));
    o.mark_applied(rel("a"));
    assert_eq!(o.applied.len(), 1);
    let want = |row: u32| Desired { rel: rel("b"), replicate: true, row };
    let stale = o.reload(vec![want(1), want(2)]);
    assert_eq!(stale.len(), 1);
    assert_eq!(o.pending.len(), 1);
    assert_eq!(o.pending[0].1, 2);
}

/// A plan stays in memory exactly while it fits, seal included.
#[test]
fn plans_have_a_file_once_they_outgrow_memory() {
    let sealed = |mem_max: u64| {
        let mut w = PlanWriter::<u32>::create("1.plan".into(), 1 << 20, mem_max);
        w.push_heap(desc(16500), None, &heap(1)).unwrap();
        let before = w.bytes();
        let (plan, _) = w.seal(0x2000, 42);
        assert_eq!(plan.size_bytes, before + 17);
        plan
    };
    let size = sealed(0).size_bytes;
    assert_eq!(sealed(size).path(), None);
    assert_eq!(sealed(size - 1).path(), Some("1.plan"));
    assert_eq!(sealed(size - 17).path(), Some("1.plan"));
}

/// The check of a plan says what reading it item by item comes to.
#[test]
fn check_and_reading_agree() {
    let (plan, mut file) = spilled(&[1, 2, 3]);
    let read = |bytes: &[u8]| -> Result<usize, String> {
        let mut rd = plan.replay(bytes).map_err(|e| e.to_text())?;
        let mut n = 0;
        while rd.next_item().map_err(|e| e.to_text())?.is_some() {
            n += 1;
        }
        Ok(n)
    };
    assert_eq!(read(&file), Ok(3));
    assert!(plan.verify(&file).is_ok());
    let cut = file.len() - 3;
    assert_eq!(read(&file[..cut]).unwrap_err(), plan.verify(&file[..cut]).unwrap_err().to_text());
    let last = file.len() - 1;
    file[last] ^= 1;
    assert_eq!(read(&file).unwrap_err(), plan.verify(&file).unwrap_err().to_text());
}

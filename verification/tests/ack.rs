//! The durability watermark, on chosen histories and on every legal
//! interleaving of small ones.
use walshadow::pipeline::ack::{AckEvent, AckState, Progress, SeqFault};
use walshadow::pipeline::fatal::Fatal;

fn state() -> AckState {
    AckState::new(Fatal::new())
}

fn register(s: &mut AckState, seq: u64, commit_lsn: u64, publish: bool) {
    s.apply(AckEvent::Register { seq, commit_lsn, publish });
}

fn placed(s: &mut AckState, seq: u64, rows: u64) {
    s.apply(AckEvent::Placed { seq, rows });
}

fn acked(s: &mut AckState, seq: u64, n: u64) {
    s.apply(AckEvent::Acked { counts: vec![(seq, n)] });
}

fn trailing(s: &mut AckState, lsn: u64) {
    s.apply(AckEvent::Trailing { lsn });
}

/// Placement may run far ahead of acks without being scanned again and again.
#[test]
fn placed_far_ahead_of_acked_stays_linear() {
    let mut s = state();
    let n = 50_000u64;
    for seq in 0..n {
        register(&mut s, seq, (seq + 1) * 10, true);
        placed(&mut s, seq, 1);
    }
    assert_eq!(s.emitter_ack(), 0);
    assert!(!s.all_done());
    for seq in 0..n {
        acked(&mut s, seq, 1);
    }
    assert!(s.all_done());
    assert_eq!(s.emitter_ack(), n * 10);
}

#[test]
fn probe_names_what_holds_the_watermark() {
    let mut s = state();
    register(&mut s, 0, 100, true);
    let snap = s.snapshot();
    assert_eq!(snap.stall_reason(), Some("rows not yet placed"));
    assert_eq!(
        snap.oldest_incomplete.map(|o| (o.seq, o.rows, o.acked)),
        Some((0, None, 0))
    );
    placed(&mut s, 0, 4);
    acked(&mut s, 0, 1);
    trailing(&mut s, 9_999);
    let snap = s.snapshot();
    assert_eq!(snap.stall_reason(), Some("clickhouse has not acked rows"));
    assert_eq!(
        snap.oldest_incomplete.map(|o| (o.rows, o.acked)),
        Some((Some(4), 1))
    );
    assert_eq!(snap.trailing_held, 9_999, "held, not yet published");
    acked(&mut s, 0, 3);
    let snap = s.snapshot();
    assert_eq!(snap.stall_reason(), None);
    assert!(snap.all_done());
    assert_eq!((snap.wedged, snap.late), (0, 0));
}

#[test]
fn events_for_retired_seqs_are_benign() {
    let mut s = state();
    register(&mut s, 0, 100, true);
    placed(&mut s, 0, 1);
    acked(&mut s, 0, 1);
    acked(&mut s, 0, 1);
    let snap = s.snapshot();
    assert_eq!((snap.late, snap.wedged), (1, 0));
    assert!(!s.fatal().is_set());
}

#[test]
fn illegal_transitions_pin_the_seq_instead_of_being_absorbed() {
    let mut s = state();
    register(&mut s, 0, 100, true);
    placed(&mut s, 0, 2);
    assert!(!s.fatal().is_set());
    placed(&mut s, 0, 5);
    let first = s.fatal().message().expect("first fault trips fatal");
    assert!(first.contains("seq placed twice"), "{first}");
    acked(&mut s, 0, 3);
    register(&mut s, 0, 100, true);
    assert_eq!(s.snapshot().wedged, 3);
    assert!(!s.all_done(), "a faulted seq stays incomplete");
    assert_eq!(s.emitter_ack(), 0);
    placed(&mut s, 7, 3);
    assert_eq!(s.snapshot().wedged, 4, "seq past the registration frontier");
    assert_eq!(s.fatal().message(), Some(first), "root cause kept");
}

#[test]
fn fault_messages_name_the_seq_and_the_frontier() {
    let mut s = state();
    register(&mut s, 0, 100, true);
    placed(&mut s, 3, 1);
    assert_eq!(
        s.fatal().message().as_deref(),
        Some("ack collector: ack event for an unregistered seq (seq 3, frontier 0, registered 1)")
    );
    let mut s = state();
    register(&mut s, 0, 100, true);
    register(&mut s, 0, 100, true);
    assert_eq!(
        s.fatal().message().as_deref(),
        Some("ack collector: seq registered twice (seq 0, frontier 0, registered 1)")
    );
    let mut s = state();
    register(&mut s, 0, 100, true);
    placed(&mut s, 0, 1);
    acked(&mut s, 0, 2);
    assert_eq!(
        s.fatal().message().as_deref(),
        Some("ack collector: seq acked past its row count (seq 0, frontier 0, registered 1)")
    );
}

#[test]
fn progress_faults_leave_the_counts_alone() {
    let mut p = Progress { rows: None, acked: 0 };
    assert_eq!(p.ack(2), Ok(()));
    assert_eq!(p.place(1), Err(SeqFault::OverAcked));
    assert_eq!(p, Progress { rows: None, acked: 2 });
    assert_eq!(p.place(3), Ok(()));
    assert_eq!(p.place(3), Err(SeqFault::DoublePlaced));
    assert_eq!(p.ack(2), Err(SeqFault::OverAcked));
    assert_eq!(p, Progress { rows: Some(3), acked: 2 });
    assert!(!p.is_done());
    assert_eq!(p.ack(1), Ok(()));
    assert!(p.is_done());
}

#[test]
fn partial_slices_hold_the_position_back() {
    let mut s = state();
    register(&mut s, 0, 500, false);
    placed(&mut s, 0, 1);
    acked(&mut s, 0, 1);
    assert_eq!(s.emitter_ack(), 0, "a slice publishes nothing");
    assert_eq!(s.frontier(), 1);
    register(&mut s, 1, 500, true);
    placed(&mut s, 1, 0);
    assert_eq!(s.emitter_ack(), 500);
    trailing(&mut s, 700);
    assert_eq!(s.emitter_ack(), 700, "idle publishes the trailing position");
    trailing(&mut s, 600);
    assert_eq!(s.emitter_ack(), 700, "never back");
}

#[test]
fn room_is_tested_before_counters_run_out() {
    let mut s = state();
    register(&mut s, 0, 1, true);
    let full = AckEvent::Acked { counts: vec![(0, u64::MAX)] };
    assert!(s.has_room(&full));
    s.apply(full);
    assert!(!s.has_room(&AckEvent::Acked { counts: vec![(0, 1)] }));
    assert!(s.has_room(&AckEvent::Acked { counts: vec![(9, 1)] }), "9 is not live");
    assert!(!s.has_room(&AckEvent::Register { seq: u64::MAX, commit_lsn: 0, publish: true }));
    assert!(s.has_room(&AckEvent::Trailing { lsn: u64::MAX }));
}

#[derive(Clone, Copy, Debug, PartialEq, Eq)]
enum Ev {
    Reg { seq: u64, lsn: u64, publish: bool },
    Place { seq: u64, rows: u64 },
    Ack { seq: u64, n: u64 },
    Trail { lsn: u64 },
}

impl Ev {
    fn seq(self) -> Option<u64> {
        match self {
            Self::Reg { seq, .. } | Self::Place { seq, .. } | Self::Ack { seq, .. } => {
                Some(seq)
            }
            Self::Trail { .. } => None,
        }
    }

    fn is_reg(self) -> bool {
        matches!(self, Self::Reg { .. })
    }
}

fn reg(seq: u64, lsn: u64, publish: bool) -> Ev {
    Ev::Reg { seq, lsn, publish }
}

fn place(seq: u64, rows: u64) -> Ev {
    Ev::Place { seq, rows }
}

fn ack(seq: u64, n: u64) -> Ev {
    Ev::Ack { seq, n }
}

#[derive(Clone, Copy)]
struct ModelSeq {
    lsn: u64,
    publish: bool,
    rows: Option<u64>,
    acked: u64,
}

#[derive(Default)]
struct Model {
    seqs: Vec<ModelSeq>,
    trailing: u64,
    high: u64,
}

impl Model {
    fn apply(&mut self, ev: Ev) {
        match ev {
            Ev::Reg { seq, lsn, publish } => {
                assert_eq!(seq as usize, self.seqs.len(), "dense registration");
                self.seqs.push(ModelSeq {
                    lsn,
                    publish,
                    rows: None,
                    acked: 0,
                });
            }
            Ev::Place { seq, rows } => self.seqs[seq as usize].rows = Some(rows),
            Ev::Ack { seq, n } => self.seqs[seq as usize].acked += n,
            Ev::Trail { lsn } => self.trailing = self.trailing.max(lsn),
        }
        self.high = self.high.max(self.expected());
    }

    fn expected(&self) -> u64 {
        let mut w = 0;
        let mut done = 0;
        for s in &self.seqs {
            if s.rows != Some(s.acked) {
                break;
            }
            if s.publish {
                w = w.max(s.lsn);
            }
            done += 1;
        }
        if done == self.seqs.len() {
            w.max(self.trailing)
        } else {
            w
        }
    }
}

fn interleave(events: &[Ev], visit: &mut impl FnMut(&[Ev])) -> u64 {
    assert!(events.len() <= 32, "mask is a u32");
    let mut order = Vec::with_capacity(events.len());
    let mut count = 0;
    walk(events, 0, &mut order, &mut count, visit);
    count
}

fn walk(
    events: &[Ev],
    used: u32,
    order: &mut Vec<Ev>,
    count: &mut u64,
    visit: &mut impl FnMut(&[Ev]),
) {
    if order.len() == events.len() {
        *count += 1;
        visit(order);
        return;
    }
    let registered = |seq: u64| {
        events
            .iter()
            .enumerate()
            .any(|(i, e)| e.is_reg() && e.seq() == Some(seq) && used & (1 << i) != 0)
    };
    for (i, ev) in events.iter().enumerate() {
        if used & (1 << i) != 0 {
            continue;
        }
        let ready = match ev.seq() {
            None => true,
            Some(seq) if ev.is_reg() => (0..seq).all(registered),
            Some(seq) => registered(seq),
        };
        if !ready {
            continue;
        }
        order.push(*ev);
        walk(events, used | (1 << i), order, count, visit);
        order.pop();
    }
}

fn to_event(ev: Ev) -> AckEvent {
    match ev {
        Ev::Reg { seq, lsn, publish } => AckEvent::Register {
            seq,
            commit_lsn: lsn,
            publish,
        },
        Ev::Place { seq, rows } => AckEvent::Placed { seq, rows },
        Ev::Ack { seq, n } => AckEvent::Acked {
            counts: vec![(seq, n)],
        },
        Ev::Trail { lsn } => AckEvent::Trailing { lsn },
    }
}

fn check(schedule: &[Ev]) {
    let mut s = state();
    let mut m = Model::default();
    let mut prev = 0u64;
    for (i, ev) in schedule.iter().enumerate() {
        let ev_in = to_event(*ev);
        assert!(s.has_room(&ev_in));
        s.apply(ev_in);
        m.apply(*ev);
        let got = s.emitter_ack();
        assert!(
            got >= prev,
            "watermark went backwards at step {i} of {schedule:?}"
        );
        assert_eq!(
            got, m.high,
            "step {i} of {schedule:?}: collector {got}, model {}",
            m.high
        );
        prev = got;
    }
    assert_eq!(
        s.all_done(),
        m.seqs.iter().all(|q| q.rows == Some(q.acked)),
        "all_done disagrees for {schedule:?}"
    );
    assert_eq!(
        s.snapshot().wedged,
        0,
        "legal schedule produced a fault: {schedule:?}"
    );
    assert!(!s.fatal().is_set(), "legal schedule tripped fatal");
}

#[test]
fn two_commits_and_a_trailing_position() {
    let events = [
        reg(0, 100, true),
        place(0, 1),
        ack(0, 1),
        reg(1, 200, true),
        place(1, 1),
        ack(1, 1),
        Ev::Trail { lsn: 9_999 },
    ];
    let n = interleave(&events, &mut check);
    assert_eq!(n, 280, "every legal interleaving covered");
}

#[test]
fn barrier_segments_then_a_rows_zero_marker() {
    let events = [
        reg(0, 500, false),
        place(0, 1),
        ack(0, 1),
        reg(1, 500, false),
        place(1, 1),
        ack(1, 1),
        reg(2, 500, true),
        place(2, 0),
    ];
    let n = interleave(&events, &mut check);
    assert_eq!(n, 504, "every legal interleaving covered");
}

#[test]
fn split_acks_across_two_commits() {
    let events = [
        reg(0, 100, true),
        place(0, 2),
        ack(0, 1),
        ack(0, 1),
        reg(1, 200, true),
        place(1, 2),
        ack(1, 2),
    ];
    let n = interleave(&events, &mut check);
    assert_eq!(n, 240, "every legal interleaving covered");
}

#[test]
fn seeded_sweep_over_wider_schedules() {
    let mut rng = 0x5EED_1234_ABCD_0001u64;
    let mut next = move || {
        rng ^= rng << 13;
        rng ^= rng >> 7;
        rng ^= rng << 17;
        rng
    };
    for round in 0..300u64 {
        let seqs = 3 + (round % 4) as usize;
        let mut pending: Vec<Vec<Ev>> = Vec::new();
        let mut events = Vec::new();
        for seq in 0..seqs as u64 {
            let rows = next() % 3;
            let publish = next() % 4 != 0;
            events.push(reg(seq, (seq + 1) * 100, publish));
            let mut per = vec![place(seq, rows)];
            per.extend((0..rows).map(|_| ack(seq, 1)));
            pending.push(per);
        }
        let mut schedule = Vec::new();
        let mut regs = events.into_iter();
        let mut open: Vec<usize> = Vec::new();
        loop {
            let more_regs = open.len() < seqs;
            let pick_reg = more_regs && (open.is_empty() || next() % 3 == 0);
            if pick_reg {
                schedule.push(regs.next().expect("one reg per seq"));
                open.push(open.len());
                continue;
            }
            let live: Vec<usize> = open
                .iter()
                .copied()
                .filter(|i| !pending[*i].is_empty())
                .collect();
            if live.is_empty() {
                if more_regs {
                    continue;
                }
                break;
            }
            let pick = live[(next() % live.len() as u64) as usize];
            schedule.push(pending[pick].remove(0));
        }
        if next() % 2 == 0 {
            let at = (next() % (schedule.len() as u64 + 1)) as usize;
            // Below and above every commit: trailing must not lower one
            let lsn = if next() % 2 == 0 { 50 } else { 1_000_000 };
            schedule.insert(at, Ev::Trail { lsn });
        }
        check(&schedule);
    }
}


//! The course of an initial load: which rows are handed over under which seq,
//! and when a seq's count is reported.
use vstd::prelude::*;

use crate::pipeline::bootstrap::{
    action_for, tuple_action, BootstrapDrainOutcome, Deferral, DrainSeqs, DrainView, RowBuf,
    ToastRow, TupleAction, TupleFacts, DRAIN_CHUNK_ROWS,
};
use crate::pipeline::decode::DECODE_CHUNK_BYTES;
use crate::pipeline::reorder::add_clamped;
use crate::schema::RelFileNode;

verus! {

/// What the load's driver does next. A row stands beside its seq.
#[derive(Debug)]
pub enum DrainStep<T> {
    /// Hand these rows to the batcher.
    Send(Vec<(u64, T)>),
    /// Report how many rows the seq has.
    Placed { seq: u64, rows: u64 },
    /// Register the seq at this position.
    Register { seq: u64, lsn: u64 },
}

pub enum DrainEvent<T> {
    Sent(Seq<(u64, T)>),
    Placed(nat, nat),
    Registered(nat, u64),
}

impl<T> View for DrainStep<T> {
    type V = DrainEvent<T>;

    open spec fn view(&self) -> DrainEvent<T> {
        match self {
            DrainStep::Send(v) => DrainEvent::Sent(v@),
            DrainStep::Placed { seq, rows } => DrainEvent::Placed(*seq as nat, *rows as nat),
            DrainStep::Register { seq, lsn } => DrainEvent::Registered(*seq as nat, *lsn),
        }
    }
}

pub open spec fn events<T>(v: Seq<DrainStep<T>>) -> Seq<DrainEvent<T>> {
    v.map_values(|s: DrainStep<T>| s@)
}

/// A load as a mathematical value: its seqs, the rows that wait for their
/// hand-over, and all that happened.
pub struct DrainModel<T> {
    pub seqs: DrainView,
    pub buffer: Seq<(u64, T)>,
    pub bytes: usize,
    pub log: Seq<DrainEvent<T>>,
}

/// Rows of `seq` in a hand-over.
pub open spec fn rows_under<T>(rows: Seq<(u64, T)>, seq: nat) -> nat
    decreases rows.len(),
{
    if rows.len() == 0 {
        0
    } else {
        rows_under(rows.drop_last(), seq) + (if rows.last().0 == seq {
            1nat
        } else {
            0
        })
    }
}

/// Rows of `seq` that were handed over.
pub open spec fn sent_under<T>(log: Seq<DrainEvent<T>>, seq: nat) -> nat
    decreases log.len(),
{
    if log.len() == 0 {
        0
    } else {
        sent_under(log.drop_last(), seq) + (match log.last() {
            DrainEvent::Sent(rows) => rows_under(rows, seq),
            _ => 0,
        })
    }
}

/// The seqs that were registered, in order.
pub open spec fn registered<T>(log: Seq<DrainEvent<T>>) -> Seq<nat>
    decreases log.len(),
{
    if log.len() == 0 {
        Seq::empty()
    } else {
        match log.last() {
            DrainEvent::Registered(s, _) => registered(log.drop_last()).push(s),
            _ => registered(log.drop_last()),
        }
    }
}

/// The seqs whose number was reported, in order.
pub open spec fn reported<T>(log: Seq<DrainEvent<T>>) -> Seq<nat>
    decreases log.len(),
{
    if log.len() == 0 {
        Seq::empty()
    } else {
        match log.last() {
            DrainEvent::Placed(s, _) => reported(log.drop_last()).push(s),
            _ => reported(log.drop_last()),
        }
    }
}

/// The first `n` seqs, in order.
pub open spec fn first_seqs(n: nat) -> Seq<nat> {
    Seq::new(n, |i: int| i as nat)
}

/// No seq is reported before it is registered.
pub open spec fn reports_lag<T>(log: Seq<DrainEvent<T>>) -> bool {
    forall|i: int|
        0 <= i <= log.len() ==> reported(#[trigger] log.subrange(0, i)).len() <= registered(
            log.subrange(0, i),
        ).len()
}

impl<T> DrainModel<T> {
    pub open spec fn start() -> DrainModel<T> {
        DrainModel {
            seqs: DrainView::start(),
            buffer: Seq::empty(),
            bytes: 0,
            log: Seq::empty(),
        }
    }

    /// Whatever waits is handed over.
    pub open spec fn flushed(self) -> DrainModel<T> {
        if self.buffer.len() == 0 {
            self
        } else {
            DrainModel {
                buffer: Seq::empty(),
                bytes: 0,
                log: self.log.push(DrainEvent::Sent(self.buffer)),
                ..self
            }
        }
    }

    /// The open seq is closed: first its rows are handed over, then their
    /// number is reported.
    pub open spec fn closed(self) -> DrainModel<T> {
        match self.seqs.open {
            None => self,
            Some(o) => DrainModel {
                seqs: self.seqs.closed(),
                log: self.flushed().log.push(DrainEvent::Placed(o.seq, o.rows)),
                ..self.flushed()
            },
        }
    }

    /// A tuple of `rfn` arrives.
    pub open spec fn arrived(self, rfn: RelFileNode, lsn: u64) -> DrainModel<T> {
        match self.seqs.open {
            Some(o) if o.rfn == rfn => self,
            _ => DrainModel {
                seqs: self.seqs.arrived(rfn),
                log: self.closed().log.push(DrainEvent::Registered(self.seqs.next_seq, lsn)),
                ..self.closed()
            },
        }
    }

    /// The tuple that arrived last is routed as `row`.
    pub open spec fn routed(self, row: T, bytes: usize) -> DrainModel<T> {
        let held = DrainModel {
            seqs: self.seqs.routed(),
            buffer: self.buffer.push((self.seqs.open->0.seq as u64, row)),
            bytes: add_clamped(self.bytes, bytes as nat),
            log: self.log,
        };
        if held.buffer.len() >= DRAIN_CHUNK_ROWS || held.bytes >= DECODE_CHUNK_BYTES {
            held.flushed()
        } else {
            held
        }
    }

    /// Only rows of the open seq wait. Every row that was routed under the
    /// open seq was handed over or waits. A seq's number is reported once it
    /// is closed, behind all its rows, and it is their number.
    pub open spec fn wf(self) -> bool {
        &&& self.seqs.wf()
        &&& self.seqs.next_seq <= u64::MAX
        &&& forall|i: int|
            0 <= i < self.buffer.len() ==> self.seqs.open is Some && (#[trigger] self.buffer[i]).0
                == self.seqs.open->0.seq
        &&& self.seqs.open matches Some(o) ==> sent_under(self.log, o.seq) + self.buffer.len()
            == o.rows
        &&& forall|s: nat|
            s < self.seqs.placed.len() ==> #[trigger] sent_under(self.log, s)
                == self.seqs.placed[s as int]
        &&& forall|s: nat| s >= self.seqs.next_seq ==> #[trigger] sent_under(self.log, s) == 0
        &&& forall|i: int| #![trigger self.log[i]]
            0 <= i < self.log.len() ==> (self.log[i] matches DrainEvent::Placed(s, n) ==> s
                < self.seqs.placed.len() && n == self.seqs.placed[s as int] && sent_under(
                self.log.subrange(0, i),
                s,
            ) == n)
        &&& forall|s: nat|
            #![trigger self.seqs.placed[s as int]]
            s < self.seqs.placed.len() ==> self.log.contains(
                DrainEvent::Placed(s, self.seqs.placed[s as int]),
            )
        &&& registered(self.log) == first_seqs(self.seqs.next_seq)
        &&& reported(self.log) == first_seqs(self.seqs.placed.len())
        &&& reports_lag(self.log)
    }
}

/// What one more event makes of the seqs that were registered and reported.
proof fn lemma_seqs_push<T>(log: Seq<DrainEvent<T>>, e: DrainEvent<T>)
    requires
        reports_lag(log),
        e is Placed ==> reported(log).len() < registered(log).len(),
    ensures
        registered(log.push(e)) == (match e {
            DrainEvent::Registered(s, _) => registered(log).push(s),
            _ => registered(log),
        }),
        reported(log.push(e)) == (match e {
            DrainEvent::Placed(s, _) => reported(log).push(s),
            _ => reported(log),
        }),
        reports_lag(log.push(e)),
{
    let next = log.push(e);
    assert(next.drop_last() =~= log);
    assert(log.subrange(0, log.len() as int) =~= log);
    assert forall|i: int| 0 <= i <= next.len() implies reported(#[trigger] next.subrange(0, i)).len()
        <= registered(next.subrange(0, i)).len() by {
        if i <= log.len() {
            assert(next.subrange(0, i) =~= log.subrange(0, i));
        } else {
            assert(next.subrange(0, i) =~= next);
        }
    }
}

proof fn lemma_first_seqs(n: nat)
    ensures
        first_seqs(n).push(n) == first_seqs(n + 1),
{
    assert(first_seqs(n).push(n) =~= first_seqs(n + 1));
}

proof fn lemma_rows_of_one_seq<T>(rows: Seq<(u64, T)>, seq: nat, s: nat)
    requires
        forall|i: int| 0 <= i < rows.len() ==> (#[trigger] rows[i]).0 == seq,
    ensures
        rows_under(rows, s) == (if s == seq {
            rows.len()
        } else {
            0
        }),
    decreases rows.len(),
{
    if rows.len() > 0 {
        assert(rows.last() == rows[rows.len() - 1]);
        assert forall|i: int| 0 <= i < rows.drop_last().len() implies (
        #[trigger] rows.drop_last()[i]).0 == seq by {
            assert(rows.drop_last()[i] == rows[i]);
        }
        lemma_rows_of_one_seq(rows.drop_last(), seq, s);
    }
}

proof fn lemma_sent_push<T>(log: Seq<DrainEvent<T>>, e: DrainEvent<T>, s: nat)
    ensures
        sent_under(log.push(e), s) == sent_under(log, s) + (match e {
            DrainEvent::Sent(rows) => rows_under(rows, s),
            _ => 0,
        }),
{
    assert(log.push(e).drop_last() =~= log);
}

/// Reports that stand keep standing when more is logged.
proof fn lemma_reports_stand<T>(log: Seq<DrainEvent<T>>, e: DrainEvent<T>, placed: Seq<nat>)
    requires
        forall|i: int| #![trigger log[i]]
            0 <= i < log.len() ==> (log[i] matches DrainEvent::Placed(s, n) ==> s < placed.len()
                && n == placed[s as int] && sent_under(log.subrange(0, i), s) == n),
        e matches DrainEvent::Placed(s, n) ==> s < placed.len() && n == placed[s as int]
            && sent_under(log, s) == n,
    ensures
        forall|i: int| #![trigger log.push(e)[i]]
            0 <= i < log.push(e).len() ==> (log.push(e)[i] matches DrainEvent::Placed(s, n) ==> s
                < placed.len() && n == placed[s as int] && sent_under(
                log.push(e).subrange(0, i),
                s,
            ) == n),
        forall|x: DrainEvent<T>| log.contains(x) ==> #[trigger] log.push(e).contains(x),
        log.push(e).contains(e),
{
    let next = log.push(e);
    assert forall|i: int| #![trigger next[i]] 0 <= i < next.len() implies (
    next[i] matches DrainEvent::Placed(s, n) ==> s < placed.len() && n == placed[s as int]
        && sent_under(next.subrange(0, i), s) == n) by {
        assert(next.subrange(0, i) =~= log.subrange(0, i));
        if i < log.len() {
            assert(next[i] == log[i]);
        } else {
            assert(log.subrange(0, i) =~= log);
        }
    }
    assert forall|x: DrainEvent<T>| log.contains(x) implies #[trigger] next.contains(x) by {
        let i = choose|i: int| 0 <= i < log.len() && log[i] == x;
        assert(next[i] == x);
    }
    assert(next[log.len() as int] == e);
}

proof fn lemma_flushed_wf<T>(d: DrainModel<T>)
    requires
        d.wf(),
    ensures
        d.flushed().wf(),
        d.flushed().buffer.len() == 0,
{
    if d.buffer.len() > 0 {
        let f = d.flushed();
        let e = DrainEvent::Sent(d.buffer);
        assert(d.buffer[0].0 == d.seqs.open->0.seq);
        assert forall|s: nat| #[trigger] sent_under(f.log, s) == sent_under(d.log, s) + (if s
            == d.seqs.open->0.seq {
            d.buffer.len()
        } else {
            0
        }) by {
            lemma_sent_push(d.log, e, s);
            lemma_rows_of_one_seq(d.buffer, d.seqs.open->0.seq, s);
        }
        lemma_reports_stand(d.log, e, d.seqs.placed);
        lemma_seqs_push(d.log, e);
    }
}

proof fn lemma_closed_wf<T>(d: DrainModel<T>)
    requires
        d.wf(),
    ensures
        d.closed().wf(),
        d.closed().buffer.len() == 0,
        d.closed().seqs.open is None,
{
    match d.seqs.open {
        None => {
            if d.buffer.len() > 0 {
                assert(d.buffer[0].0 == d.seqs.open->0.seq);
            }
        },
        Some(o) => {
            lemma_flushed_wf(d);
            let f = d.flushed();
            let c = d.closed();
            let e = DrainEvent::<T>::Placed(o.seq, o.rows);
            let placed = c.seqs.placed;
            assert(placed.drop_last() =~= f.seqs.placed);
            assert forall|s: nat| #[trigger] sent_under(c.log, s) == sent_under(f.log, s) by {
                lemma_sent_push(f.log, e, s);
            }
            assert forall|i: int| #![trigger f.log[i]] 0 <= i < f.log.len() implies (
            f.log[i] matches DrainEvent::Placed(s, n) ==> s < placed.len() && n
                == placed[s as int] && sent_under(f.log.subrange(0, i), s) == n) by {
                if let DrainEvent::Placed(s, n) = f.log[i] {
                    assert(placed[s as int] == f.seqs.placed[s as int]);
                }
            }
            lemma_reports_stand(f.log, e, placed);
            lemma_seqs_push(f.log, e);
            lemma_first_seqs(f.seqs.placed.len());
            assert forall|s: nat| s < placed.len() implies #[trigger] sent_under(c.log, s)
                == placed[s as int] by {
                if s < f.seqs.placed.len() {
                    assert(placed[s as int] == f.seqs.placed[s as int]);
                    assert(sent_under(f.log, s) == f.seqs.placed[s as int]);
                }
            }
            assert forall|s: nat| #![trigger placed[s as int]] s < placed.len() implies c.log.contains(
                DrainEvent::Placed(s, placed[s as int]),
            ) by {
                if s < f.seqs.placed.len() {
                    assert(placed[s as int] == f.seqs.placed[s as int]);
                    assert(f.log.contains(DrainEvent::Placed(s, f.seqs.placed[s as int])));
                }
            }
        },
    }
}

proof fn lemma_arrived_wf<T>(d: DrainModel<T>, rfn: RelFileNode, lsn: u64)
    requires
        d.wf(),
        d.seqs.next_seq < u64::MAX,
    ensures
        d.arrived(rfn, lsn).wf(),
        d.arrived(rfn, lsn).seqs.open is Some,
{
    let same = match d.seqs.open {
        Some(o) => o.rfn == rfn,
        None => false,
    };
    if !same {
        lemma_closed_wf(d);
        let c = d.closed();
        let a = d.arrived(rfn, lsn);
        let e = DrainEvent::<T>::Registered(d.seqs.next_seq, lsn);
        assert(a.log == c.log.push(e));
        assert forall|s: nat| #[trigger] sent_under(a.log, s) == sent_under(c.log, s) by {
            lemma_sent_push(c.log, e, s);
        }
        lemma_reports_stand(c.log, e, c.seqs.placed);
        lemma_seqs_push(c.log, e);
        lemma_first_seqs(c.seqs.next_seq);
        assert(a.seqs.placed == c.seqs.placed);
        assert(c.seqs.next_seq == d.seqs.next_seq);
        assert(sent_under(c.log, c.seqs.next_seq) == 0);
    }
}

proof fn lemma_routed_wf<T>(d: DrainModel<T>, row: T, bytes: usize)
    requires
        d.wf(),
        d.seqs.open is Some,
    ensures
        d.routed(row, bytes).wf(),
{
    let held = DrainModel {
        seqs: d.seqs.routed(),
        buffer: d.buffer.push((d.seqs.open->0.seq as u64, row)),
        bytes: add_clamped(d.bytes, bytes as nat),
        log: d.log,
    };
    assert(held.wf());
    lemma_flushed_wf(held);
}

/// An initial load under way.
pub struct Drain<T> {
    seqs: DrainSeqs,
    out: RowBuf<(u64, T)>,
    log: Ghost<Seq<DrainEvent<T>>>,
}

impl<T> Drain<T> {
    pub closed spec fn view(&self) -> DrainModel<T> {
        DrainModel {
            seqs: self.seqs.view(),
            buffer: self.out.rows(),
            bytes: self.out.bytes(),
            log: self.log@,
        }
    }

    pub fn new() -> (r: Self)
        ensures
            r.view() == DrainModel::<T>::start(),
            r.view().wf(),
    {
        let r = Drain { seqs: DrainSeqs::new(), out: RowBuf::new(), log: Ghost(Seq::empty()) };
        proof {
            assert(registered(r.log@) =~= first_seqs(0));
            assert(reported(r.log@) =~= first_seqs(0));
            assert(r.out.rows() =~= Seq::empty());
        }
        r
    }

    /// Take a tuple of `rfn`, read at `lsn`: it arrives under its seq whatever
    /// becomes of it, and what does follows from what is known of it.
    pub fn on_tuple(
        &mut self,
        rfn: RelFileNode,
        lsn: u64,
        facts: TupleFacts,
        stores_chunks: bool,
        can_defer: bool,
    ) -> (r: (Vec<DrainStep<T>>, TupleAction))
        requires
            old(self).view().wf(),
            old(self).view().seqs.next_seq < u64::MAX,
        ensures
            final(self).view() == old(self).view().arrived(rfn, lsn),
            final(self).view().wf(),
            final(self).view().seqs.open is Some,
            final(self).view().log == old(self).view().log + events(r.0@),
            r.1 == action_for(facts, stores_chunks, can_defer),
    {
        let steps: Vec<DrainStep<T>> = self.arrive(rfn, lsn);
        (steps, tuple_action(facts, stores_chunks, can_defer))
    }

    /// A tuple of `rfn` arrives, read at `lsn`. Tuples of one relation that
    /// follow one another share a seq; another relation's tuple closes the
    /// open seq and opens the next.
    pub fn arrive(&mut self, rfn: RelFileNode, lsn: u64) -> (steps: Vec<DrainStep<T>>)
        requires
            old(self).view().wf(),
            old(self).view().seqs.next_seq < u64::MAX,
        ensures
            final(self).view() == old(self).view().arrived(rfn, lsn),
            final(self).view().wf(),
            final(self).view().seqs.open is Some,
            final(self).view().log == old(self).view().log + events(steps@),
    {
        let ghost pre = *self;
        let mut steps: Vec<DrainStep<T>> = Vec::new();
        proof {
            lemma_arrived_wf(pre.view(), rfn, lsn);
            lemma_flushed_wf(pre.view());
            lemma_closed_wf(pre.view());
        }
        match self.seqs.arrive(rfn) {
            None => {
                proof {
                    assert(events(steps@) =~= Seq::empty());
                    assert(self.view().log =~= pre.view().log + events(steps@));
                }
            },
            Some(t) => {
                if let Some((seq, rows)) = t.closed {
                    if let Some(held) = self.out.flush() {
                        let ghost e = DrainEvent::Sent(held@);
                        steps.push(DrainStep::Send(held));
                        proof {
                            self.log@ = self.log@.push(e);
                            assert(events(steps@) =~= seq![e]);
                            assert(self.out.rows() =~= Seq::empty());
                        }
                    }
                    let ghost before = steps@;
                    steps.push(DrainStep::Placed { seq, rows });
                    proof {
                        let e = DrainEvent::<T>::Placed(seq as nat, rows as nat);
                        self.log@ = self.log@.push(e);
                        assert(events(steps@) =~= events(before).push(e));
                    }
                }
                let ghost before = steps@;
                steps.push(DrainStep::Register { seq: t.opened, lsn });
                proof {
                    let e = DrainEvent::<T>::Registered(t.opened as nat, lsn);
                    self.log@ = self.log@.push(e);
                    assert(events(steps@) =~= events(before).push(e));
                    assert(self.view().log =~= pre.view().log + events(steps@));
                    assert(self.view().log =~= pre.view().arrived(rfn, lsn).log);
                }
            },
        }
        steps
    }

    /// The tuple that arrived last is routed as `row`, of so many bytes.
    pub fn route(&mut self, row: T, bytes: usize) -> (steps: Vec<DrainStep<T>>)
        requires
            old(self).view().wf(),
            old(self).view().seqs.open is Some,
            old(self).view().seqs.rows_routed < u64::MAX,
        ensures
            final(self).view() == old(self).view().routed(row, bytes),
            final(self).view().wf(),
            final(self).view().log == old(self).view().log + events(steps@),
    {
        let ghost pre = *self;
        let mut steps: Vec<DrainStep<T>> = Vec::new();
        proof {
            lemma_routed_wf(pre.view(), row, bytes);
        }
        if let Some(seq) = self.seqs.current() {
            if let Some(rows) = self.out.push((seq, row), bytes) {
                let ghost e = DrainEvent::Sent(rows@);
                steps.push(DrainStep::Send(rows));
                proof {
                    self.log@ = self.log@.push(e);
                    assert(events(steps@) =~= seq![e]);
                    assert(self.out.rows() =~= Seq::empty());
                }
            }
        }
        self.seqs.route();
        proof {
            assert(self.view().log =~= pre.view().log + events(steps@));
        }
        steps
    }

    /// The walk is over: what waits is handed over and the open seq's number
    /// reported.
    pub fn finish(&mut self) -> (steps: Vec<DrainStep<T>>)
        requires
            old(self).view().wf(),
        ensures
            final(self).view() == old(self).view().closed(),
            final(self).view().wf(),
            final(self).view().log == old(self).view().log + events(steps@),
    {
        let ghost pre = *self;
        let mut steps: Vec<DrainStep<T>> = Vec::new();
        proof {
            lemma_closed_wf(pre.view());
        }
        if let Some(held) = self.out.flush() {
            let ghost e = DrainEvent::Sent(held@);
            steps.push(DrainStep::Send(held));
            proof {
                assert(pre.view().buffer[0].0 == pre.view().seqs.open->0.seq);
                self.log@ = self.log@.push(e);
                assert(events(steps@) =~= seq![e]);
                assert(self.out.rows() =~= Seq::empty());
            }
        }
        let ghost before = steps@;
        if let Some((seq, rows)) = self.seqs.finish() {
            steps.push(DrainStep::Placed { seq, rows });
            proof {
                let e = DrainEvent::<T>::Placed(seq as nat, rows as nat);
                self.log@ = self.log@.push(e);
                assert(events(steps@) =~= events(before).push(e));
            }
        }
        proof {
            assert(self.view().log =~= pre.view().log + events(steps@));
        }
        steps
    }

    pub fn next_seq(&self) -> (r: u64)
        ensures
            r == self.view().seqs.next_seq,
    {
        self.seqs.next_seq()
    }

    pub fn rows_routed(&self) -> (r: u64)
        ensures
            r == self.view().seqs.rows_routed,
    {
        self.seqs.rows_routed()
    }
}

/// What follows a finished walk.
#[derive(Debug)]
pub enum AfterWalk<S> {
    Done(BootstrapDrainOutcome<S>),
    /// Resolve the deferred rows under seqs from `first_seq` on.
    Resolve { spool: S, first_seq: u64, rows_routed: u64 },
}

/// What follows a walk that put `records` rows off.
pub open spec fn walk_end<S>(
    deferral: Deferral<S>,
    records: u64,
    next_seq: u64,
    rows_routed: u64,
) -> AfterWalk<S> {
    if records == 0 {
        AfterWalk::Done(BootstrapDrainOutcome { next_seq, rows_routed, deferred: None })
    } else {
        match deferral {
            Deferral::Rejected => AfterWalk::Done(
                BootstrapDrainOutcome { next_seq, rows_routed, deferred: None },
            ),
            Deferral::Handback(spool) => AfterWalk::Done(
                BootstrapDrainOutcome { next_seq, rows_routed, deferred: Some(spool) },
            ),
            Deferral::Local(spool) => AfterWalk::Resolve {
                spool,
                first_seq: next_seq,
                rows_routed,
            },
        }
    }
}

/// Deferred rows are handed back or resolved here, as it was asked; without
/// any the load is over.
pub fn after_walk<S>(deferral: Deferral<S>, records: u64, next_seq: u64, rows_routed: u64) -> (r:
    AfterWalk<S>)
    ensures
        r == walk_end(deferral, records, next_seq, rows_routed),
{
    if records == 0 {
        return AfterWalk::Done(BootstrapDrainOutcome { next_seq, rows_routed, deferred: None });
    }
    match deferral {
        Deferral::Rejected => AfterWalk::Done(
            BootstrapDrainOutcome { next_seq, rows_routed, deferred: None },
        ),
        Deferral::Handback(spool) => AfterWalk::Done(
            BootstrapDrainOutcome { next_seq, rows_routed, deferred: Some(spool) },
        ),
        Deferral::Local(spool) => AfterWalk::Resolve { spool, first_seq: next_seq, rows_routed },
    }
}

/// A seq's number is reported behind all its rows, and it is their number:
/// when the report goes out exactly so many rows of the seq were handed over,
/// and none follows.
pub proof fn report_follows_its_rows<T>(d: DrainModel<T>, i: int)
    requires
        d.wf(),
        0 <= i < d.log.len(),
        d.log[i] is Placed,
    ensures
        match d.log[i] {
            DrainEvent::Placed(s, n) => sent_under(d.log.subrange(0, i), s) == n && sent_under(
                d.log,
                s,
            ) == n,
            _ => false,
        },
{
}

/// Seqs are registered from the first on, in order and each once, and reported
/// in the same order: at most the open one is not reported yet, and none
/// before it is registered. Once a load is finished, the reports are those of
/// all that were registered.
pub proof fn seqs_are_registered_and_reported_in_order<T>(d: DrainModel<T>)
    requires
        d.wf(),
    ensures
        registered(d.log) == first_seqs(d.seqs.next_seq),
        reported(d.log) == first_seqs(reported(d.log).len()),
        registered(d.log).len() == reported(d.log).len() + (if d.seqs.open is Some {
            1nat
        } else {
            0
        }),
        forall|i: int|
            0 <= i <= d.log.len() ==> reported(#[trigger] d.log.subrange(0, i)).len()
                <= registered(d.log.subrange(0, i)).len(),
        reported(d.closed().log) == registered(d.closed().log),
        registered(d.closed().log) == registered(d.log),
{
    lemma_closed_wf(d);
}

/// Once a load is finished, every seq that it opened is reported.
pub proof fn finished_load_reports_every_seq<T>(d: DrainModel<T>, s: nat)
    requires
        d.wf(),
        s < d.seqs.next_seq,
    ensures
        d.closed().log.contains(DrainEvent::Placed(s, d.closed().seqs.placed[s as int])),
        d.closed().buffer.len() == 0,
{
    lemma_closed_wf(d);
    let _ = d.closed().seqs.placed[s as int];
}

/// Chunks that are gathered for one put.
#[derive(Debug)]
pub struct ChunkGather {
    rows: Vec<ToastRow>,
    bytes: usize,
}

/// Bytes of the chunks.
pub open spec fn chunk_bytes(rows: Seq<ToastRow>) -> nat
    decreases rows.len(),
{
    if rows.len() == 0 {
        0
    } else {
        chunk_bytes(rows.drop_last()) + rows.last().chunk_data@.len()
    }
}

impl ChunkGather {
    pub closed spec fn rows(&self) -> Seq<ToastRow> {
        self.rows@
    }

    pub closed spec fn wf(&self) -> bool {
        self.bytes == chunk_bytes(self.rows@)
    }

    pub fn new() -> (r: Self)
        ensures
            r.wf(),
            r.rows() == Seq::<ToastRow>::empty(),
    {
        ChunkGather { rows: Vec::new(), bytes: 0 }
    }

    /// Gather a chunk; how many chunks and bytes there are now.
    pub fn push(&mut self, row: ToastRow) -> (r: (usize, usize))
        requires
            old(self).wf(),
            chunk_bytes(old(self).rows()) + row.chunk_data@.len() <= usize::MAX,
        ensures
            final(self).wf(),
            final(self).rows() == old(self).rows().push(row),
            r.0 == final(self).rows().len(),
            r.1 == chunk_bytes(final(self).rows()),
    {
        let n: usize = row.chunk_data.len();
        self.bytes = self.bytes + n;
        self.rows.push(row);
        proof {
            assert(self.rows@.drop_last() =~= old(self).rows@);
        }
        (self.rows.len(), self.bytes)
    }

    /// Every gathered chunk, for one put; nothing when there is none.
    pub fn take(&mut self) -> (r: Option<Vec<ToastRow>>)
        requires
            old(self).wf(),
        ensures
            final(self).wf(),
            final(self).rows().len() == 0,
            match r {
                Some(v) => v@ == old(self).rows() && v@.len() > 0,
                None => old(self).rows().len() == 0,
            },
    {
        self.bytes = 0;
        if self.rows.len() == 0 {
            return None;
        }
        let mut rows: Vec<ToastRow> = Vec::new();
        std::mem::swap(&mut rows, &mut self.rows);
        Some(rows)
    }
}

} // verus!

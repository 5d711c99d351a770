//! The collector against its full history.
//!
//! The collector forgets a seq as soon as it retires. Here every seq is kept,
//! and the position that may be published is read off the whole history. On
//! every legal schedule the two agree.
use vstd::prelude::*;

use crate::pipeline::ack::{max64, AckEvent, AckView, Progress, SeqEntry};

verus! {

/// Everything that was ever registered, with the highest position that was
/// publishable so far.
pub struct History {
    pub seqs: Seq<SeqEntry>,
    pub trailing: u64,
    pub high: u64,
}

/// How many seqs from the first on are done without a gap.
pub open spec fn done_prefix(seqs: Seq<SeqEntry>) -> nat
    decreases seqs.len(),
{
    if seqs.len() == 0 {
        0
    } else {
        let p = done_prefix(seqs.drop_last());
        if p == seqs.len() - 1 && seqs.last().progress.done() {
            seqs.len()
        } else {
            p
        }
    }
}

/// The highest commit position among the publishing seqs, zero without one.
pub open spec fn top_lsn(seqs: Seq<SeqEntry>) -> u64
    decreases seqs.len(),
{
    if seqs.len() == 0 {
        0
    } else {
        let rest = top_lsn(seqs.drop_last());
        if seqs.last().publish {
            max64(rest, seqs.last().commit_lsn)
        } else {
            rest
        }
    }
}

impl History {
    pub open spec fn empty() -> History {
        History { seqs: Seq::empty(), trailing: 0, high: 0 }
    }

    pub open spec fn all_done(self) -> bool {
        forall|i: int| 0 <= i < self.seqs.len() ==> (#[trigger] self.seqs[i]).progress.done()
    }

    /// What the history so far lets the collector publish: the highest commit
    /// position below the first gap, and the trailing position if there is no
    /// gap.
    pub open spec fn expected(self) -> u64 {
        let p = done_prefix(self.seqs);
        let w = top_lsn(self.seqs.subrange(0, p as int));
        if p == self.seqs.len() {
            max64(w, self.trailing)
        } else {
            w
        }
    }

    pub open spec fn with_progress(self, seq: u64, progress: Progress) -> History {
        History {
            seqs: self.seqs.update(
                seq as int,
                SeqEntry { progress, ..self.seqs[seq as int] },
            ),
            ..self
        }
    }

    pub open spec fn acked(self, counts: Seq<(u64, u64)>) -> History
        decreases counts.len(),
    {
        if counts.len() == 0 {
            self
        } else {
            let h = self.acked(counts.drop_last());
            let (seq, n) = counts.last();
            let p = h.seqs[seq as int].progress;
            h.with_progress(seq, Progress { rows: p.rows, acked: (p.acked + n) as u64 })
        }
    }

    pub open spec fn stepped(self, ev: AckEvent) -> History {
        match ev {
            AckEvent::Register { commit_lsn, publish, .. } => History {
                seqs: self.seqs.push(
                    SeqEntry { commit_lsn, publish, progress: Progress { rows: None, acked: 0 } },
                ),
                ..self
            },
            AckEvent::Placed { seq, rows } => self.with_progress(
                seq,
                Progress { rows: Some(rows), acked: self.seqs[seq as int].progress.acked },
            ),
            AckEvent::Acked { counts } => self.acked(counts@),
            AckEvent::Trailing { lsn } => History { trailing: max64(self.trailing, lsn), ..self },
        }
    }

    pub open spec fn applied(self, ev: AckEvent) -> History {
        let h = self.stepped(ev);
        History { high: max64(h.high, h.expected()), ..h }
    }

    /// Every ack is for a registered seq and stays within its row count.
    pub open spec fn acks_legal(self, counts: Seq<(u64, u64)>) -> bool
        decreases counts.len(),
    {
        counts.len() > 0 ==> {
            let h = self.acked(counts.drop_last());
            let (seq, n) = counts.last();
            &&& self.acks_legal(counts.drop_last())
            &&& seq < h.seqs.len()
            &&& h.seqs[seq as int].progress.acked + n <= u64::MAX
            &&& h.seqs[seq as int].progress.ack_fault(n) is None
        }
    }

    /// Registration is dense, each seq is placed once, acks stay within it.
    pub open spec fn legal(self, ev: AckEvent) -> bool {
        match ev {
            AckEvent::Register { seq, .. } => seq == self.seqs.len() && seq < u64::MAX,
            AckEvent::Placed { seq, rows } => seq < self.seqs.len()
                && self.seqs[seq as int].progress.place_fault(rows) is None,
            AckEvent::Acked { counts } => self.acks_legal(counts@),
            AckEvent::Trailing { .. } => true,
        }
    }
}

/// The history of a schedule.
pub open spec fn history_of(evs: Seq<AckEvent>) -> History
    decreases evs.len(),
{
    if evs.len() == 0 {
        History::empty()
    } else {
        history_of(evs.drop_last()).applied(evs.last())
    }
}

/// The collector after a schedule.
pub open spec fn collector_after(evs: Seq<AckEvent>) -> AckView
    decreases evs.len(),
{
    if evs.len() == 0 {
        AckView::initial(None)
    } else {
        collector_after(evs.drop_last()).applied(evs.last())
    }
}

pub open spec fn legal_schedule(evs: Seq<AckEvent>) -> bool
    decreases evs.len(),
{
    evs.len() > 0 ==> legal_schedule(evs.drop_last()) && history_of(evs.drop_last()).legal(
        evs.last(),
    )
}

/// The collector holds what the history says, with some done seqs at the
/// frontier possibly still to retire.
spec fn tracks(s: AckView, h: History) -> bool {
    &&& s.registered == h.seqs.len()
    &&& s.frontier <= s.registered
    &&& forall|i: int| 0 <= i < s.frontier ==> (#[trigger] h.seqs[i]).progress.done()
    &&& forall|k: u64| #[trigger] s.live.contains_key(k) <==> s.frontier <= k < s.registered
    &&& forall|k: u64| #[trigger]
        s.live.contains_key(k) ==> s.live[k] == h.seqs[k as int]
    &&& s.watermark == top_lsn(h.seqs.subrange(0, s.frontier as int))
    &&& s.trailing == h.trailing
    &&& s.emitter_ack == h.high
    &&& s.wedged == 0
    &&& s.fatal is None
}

spec fn agrees(s: AckView, h: History) -> bool {
    tracks(s, h) && s.frontier == done_prefix(h.seqs)
}

proof fn lemma_done_prefix(seqs: Seq<SeqEntry>)
    ensures
        done_prefix(seqs) <= seqs.len(),
        forall|i: int| 0 <= i < done_prefix(seqs) ==> (#[trigger] seqs[i]).progress.done(),
        done_prefix(seqs) < seqs.len() ==> !seqs[done_prefix(seqs) as int].progress.done(),
    decreases seqs.len(),
{
    if seqs.len() > 0 {
        let rest = seqs.drop_last();
        lemma_done_prefix(rest);
        assert forall|i: int| 0 <= i < done_prefix(seqs) implies (
        #[trigger] seqs[i]).progress.done() by {
            if i < rest.len() {
                assert(rest[i] == seqs[i]);
            }
        }
        if done_prefix(rest) < rest.len() {
            assert(rest[done_prefix(rest) as int] == seqs[done_prefix(rest) as int]);
        }
    }
}

/// The gapless done prefix is the only one of its kind.
proof fn lemma_done_prefix_unique(seqs: Seq<SeqEntry>, p: nat)
    requires
        p <= seqs.len(),
        forall|i: int| 0 <= i < p ==> (#[trigger] seqs[i]).progress.done(),
        p < seqs.len() ==> !seqs[p as int].progress.done(),
    ensures
        p == done_prefix(seqs),
{
    lemma_done_prefix(seqs);
    let q = done_prefix(seqs);
    if p < q {
        assert(seqs[p as int].progress.done());
    } else if q < p {
        assert(seqs[q as int].progress.done());
    }
}

proof fn lemma_settled(s: AckView, h: History)
    requires
        tracks(s, h),
    ensures
        agrees(s.settled(), h),
    decreases s.registered - s.frontier,
{
    let f = s.frontier;
    if f < s.registered && s.live.contains_key(f) && s.live[f].progress.done() {
        let e = s.live[f];
        let t = AckView {
            live: s.live.remove(f),
            watermark: if e.publish {
                max64(s.watermark, e.commit_lsn)
            } else {
                s.watermark
            },
            frontier: (f + 1) as u64,
            ..s
        };
        let longer = h.seqs.subrange(0, f as int + 1);
        assert(longer.drop_last() =~= h.seqs.subrange(0, f as int));
        assert(longer.last() == h.seqs[f as int]);
        lemma_settled(t, h);
    } else {
        assert(s.live.contains_key(f) <==> f < s.registered);
        lemma_done_prefix_unique(h.seqs, f as nat);
    }
}

proof fn lemma_ack_tracks(s: AckView, h: History, counts: Seq<(u64, u64)>)
    requires
        tracks(s, h),
        h.acks_legal(counts),
    ensures
        tracks(s.acked(counts), h.acked(counts)),
    decreases counts.len(),
{
    if counts.len() > 0 {
        lemma_ack_tracks(s, h, counts.drop_last());
        let s1 = s.acked(counts.drop_last());
        let h1 = h.acked(counts.drop_last());
        let (seq, n) = counts.last();
        let p = h1.seqs[seq as int].progress;
        let h2 = h.acked(counts);
        let s2 = s.acked(counts);
        if seq < s1.frontier {
            assert(h1.seqs[seq as int].progress.done());
            assert(n == 0);
            assert(h2.seqs =~= h1.seqs);
        } else {
            assert(s1.live.contains_key(seq));
            assert(h2.seqs.subrange(0, s2.frontier as int) =~= h1.seqs.subrange(
                0,
                s1.frontier as int,
            ));
        }
    }
}

proof fn lemma_step_agrees(s: AckView, h: History, ev: AckEvent)
    requires
        agrees(s, h),
        h.legal(ev),
    ensures
        agrees(s.applied(ev), h.applied(ev)),
{
    let s1 = s.stepped(ev);
    let h1 = h.stepped(ev);
    match ev {
        AckEvent::Register { seq, commit_lsn, publish } => {
            assert(h1.seqs.subrange(0, s1.frontier as int) =~= h.seqs.subrange(
                0,
                s.frontier as int,
            ));
        },
        AckEvent::Placed { seq, rows } => {
            lemma_done_prefix(h.seqs);
            assert(!h.seqs[seq as int].progress.done());
            assert(seq >= s.frontier);
            assert(s.live.contains_key(seq));
            assert(h1.seqs.subrange(0, s1.frontier as int) =~= h.seqs.subrange(
                0,
                s.frontier as int,
            ));
        },
        AckEvent::Acked { counts } => {
            lemma_ack_tracks(s, h, counts@);
        },
        AckEvent::Trailing { lsn } => {},
    }
    assert(tracks(s1, h1));
    lemma_settled(s1, h1);
}

proof fn lemma_agrees(evs: Seq<AckEvent>)
    requires
        legal_schedule(evs),
    ensures
        agrees(collector_after(evs), history_of(evs)),
    decreases evs.len(),
{
    if evs.len() > 0 {
        lemma_agrees(evs.drop_last());
        lemma_step_agrees(
            collector_after(evs.drop_last()),
            history_of(evs.drop_last()),
            evs.last(),
        );
    }
}

/// On every legal schedule the collector has published exactly the highest
/// position that was ever publishable, raised no fault, and is all done if
/// and only if every registered seq is.
pub proof fn collector_follows_history(evs: Seq<AckEvent>)
    requires
        legal_schedule(evs),
    ensures
        collector_after(evs).emitter_ack == history_of(evs).high,
        collector_after(evs).all_done() <==> history_of(evs).all_done(),
        collector_after(evs).frontier == done_prefix(history_of(evs).seqs),
        collector_after(evs).wedged == 0,
        collector_after(evs).fatal is None,
{
    lemma_agrees(evs);
    let h = history_of(evs);
    lemma_done_prefix(h.seqs);
    if h.all_done() && done_prefix(h.seqs) < h.seqs.len() {
        assert(h.seqs[done_prefix(h.seqs) as int].progress.done());
    }
}

/// The published position never goes backwards, the frontier neither, and
/// faults are never forgotten, whatever the event.
pub proof fn published_position_only_grows(s: AckView, ev: AckEvent)
    requires
        s.wf(),
        s.fits(ev),
    ensures
        s.applied(ev).emitter_ack >= s.emitter_ack,
        s.applied(ev).frontier >= s.frontier,
        s.applied(ev).wedged >= s.wedged,
        s.fatal is Some ==> s.applied(ev).fatal == s.fatal,
{
    if let AckEvent::Acked { counts } = ev {
        assert(counts@.subrange(0, counts@.len() as int) =~= counts@);
        lemma_acks_grow(s, counts@, counts@.len());
    }
    lemma_settled_grows(s.stepped(ev));
}

proof fn lemma_acks_grow(s: AckView, counts: Seq<(u64, u64)>, n: nat)
    requires
        s.acks_fit(counts),
        n <= counts.len(),
    ensures
        ({
            let t = s.acked(counts.subrange(0, n as int));
            &&& t.emitter_ack == s.emitter_ack
            &&& t.frontier == s.frontier
            &&& t.wedged >= s.wedged
            &&& s.fatal is Some ==> t.fatal == s.fatal
        }),
    decreases n,
{
    let pre = counts.subrange(0, n as int);
    if n > 0 {
        lemma_acks_grow(s, counts, (n - 1) as nat);
        assert(pre.drop_last() =~= counts.subrange(0, n - 1));
        assert(s.acked(counts.subrange(0, n - 1)).ack_fits(counts[n - 1].0, counts[n - 1].1));
    }
}

proof fn lemma_settled_grows(s: AckView)
    ensures
        s.settled().frontier >= s.frontier,
        s.settled().emitter_ack == s.emitter_ack,
        s.settled().wedged == s.wedged,
        s.settled().fatal == s.fatal,
    decreases s.registered - s.frontier,
{
    if s.frontier < s.registered && s.live.contains_key(s.frontier)
        && s.live[s.frontier].progress.done() {
        let e = s.live[s.frontier];
        lemma_settled_grows(
            AckView {
                live: s.live.remove(s.frontier),
                watermark: if e.publish {
                    max64(s.watermark, e.commit_lsn)
                } else {
                    s.watermark
                },
                frontier: (s.frontier + 1) as u64,
                ..s
            },
        );
    }
}

/// The watermark never passes a gap: while the seq at `gap` is not done, what
/// is publishable does not depend on any seq behind it nor on the trailing
/// position.
pub proof fn watermark_never_passes_a_gap(h: History, other: History, gap: int)
    requires
        0 <= gap < h.seqs.len(),
        gap < other.seqs.len(),
        !h.seqs[gap].progress.done(),
        h.seqs.subrange(0, gap + 1) == other.seqs.subrange(0, gap + 1),
    ensures
        h.expected() == other.expected(),
        h.expected() == top_lsn(h.seqs.subrange(0, done_prefix(h.seqs) as int)),
        done_prefix(h.seqs) <= gap,
{
    lemma_done_prefix(h.seqs);
    let p = done_prefix(h.seqs);
    assert forall|i: int| 0 <= i <= gap implies h.seqs[i] == other.seqs[i] by {
        assert(h.seqs.subrange(0, gap + 1)[i] == h.seqs[i]);
        assert(other.seqs.subrange(0, gap + 1)[i] == other.seqs[i]);
    }
    if p > gap {
        assert(h.seqs[gap].progress.done());
    }
    assert forall|i: int| 0 <= i < p implies (#[trigger] other.seqs[i]).progress.done() by {
        assert(h.seqs[i].progress.done());
    }
    lemma_done_prefix_unique(other.seqs, p);
    assert(h.seqs.subrange(0, p as int) =~= other.seqs.subrange(0, p as int));
}

/// A non-final slice never publishes: its commit position has no influence on
/// what is publishable.
pub proof fn partial_slices_never_publish(h: History, i: int, lsn: u64)
    requires
        0 <= i < h.seqs.len(),
        !h.seqs[i].publish,
    ensures
        (History {
            seqs: h.seqs.update(i, SeqEntry { commit_lsn: lsn, ..h.seqs[i] }),
            ..h
        }).expected() == h.expected(),
{
    let g = History {
        seqs: h.seqs.update(i, SeqEntry { commit_lsn: lsn, ..h.seqs[i] }),
        ..h
    };
    let p = done_prefix(h.seqs);
    lemma_done_prefix(h.seqs);
    assert forall|k: int| 0 <= k < p implies (#[trigger] g.seqs[k]).progress.done() by {
        assert(h.seqs[k].progress.done());
    }
    lemma_done_prefix_unique(g.seqs, p);
    lemma_top_ignores_partial(h.seqs.subrange(0, p as int), g.seqs.subrange(0, p as int));
}

proof fn lemma_top_ignores_partial(a: Seq<SeqEntry>, b: Seq<SeqEntry>)
    requires
        a.len() == b.len(),
        forall|k: int|
            #![trigger a[k]]
            #![trigger b[k]]
            0 <= k < a.len() ==> a[k].publish == b[k].publish && (a[k].publish ==> a[k].commit_lsn
                == b[k].commit_lsn),
    ensures
        top_lsn(a) == top_lsn(b),
    decreases a.len(),
{
    if a.len() > 0 {
        assert(a[a.len() - 1].publish == b[b.len() - 1].publish);
        assert forall|k: int|
            #![trigger a.drop_last()[k]]
            #![trigger b.drop_last()[k]]
            0 <= k < a.len() - 1 implies a.drop_last()[k].publish == b.drop_last()[k].publish && (
        a.drop_last()[k].publish ==> a.drop_last()[k].commit_lsn == b.drop_last()[k].commit_lsn) by {
            assert(a[k].publish == b[k].publish);
        }
        lemma_top_ignores_partial(a.drop_last(), b.drop_last());
    }
}

/// Events for retired seqs are benign: they are counted and change nothing
/// else.
pub proof fn late_events_are_benign(s: AckView, seq: u64, n: u64)
    requires
        s.wf(),
        seq < s.frontier,
    ensures
        s.placed(seq, n) == (AckView { late: (s.late + 1) as u64, ..s }),
        s.acked_one(seq, n) == (AckView { late: (s.late + 1) as u64, ..s }),
{
    assert(!s.live.contains_key(seq));
}

/// An illegal transition pins the seq instead of being absorbed: the live
/// counts, the frontier and the published position stay, and the fatal slot
/// is set after the first one.
pub proof fn faults_leave_counts_untouched(s: AckView, seq: u64, what: Seq<char>)
    ensures
        s.faulted(seq, what).live == s.live,
        s.faulted(seq, what).frontier == s.frontier,
        s.faulted(seq, what).emitter_ack == s.emitter_ack,
        s.wedged == 0 ==> s.faulted(seq, what).fatal is Some,
        s.live.contains_key(seq) ==> s.opened(seq, 0, true) == s.faulted(
            seq,
            "seq registered twice"@,
        ),
        s.live.contains_key(seq) && s.live[seq].progress.rows is Some ==> s.placed(seq, 0)
            == s.faulted(seq, "seq placed twice"@),
{
}

} // verus!

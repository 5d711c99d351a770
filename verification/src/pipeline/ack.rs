//! Cumulative-ack durability watermark.
//!
//! Downstream work completes out of order, but the published position must
//! not pass a gap because it bounds what the source may recycle. Each
//! transaction gets dense `seq` numbers and a commit position; the watermark
//! advances through contiguous done seqs only.
//!
//! One commit may span several seqs. Only its final seq publishes the commit
//! position; earlier slices gate contiguity.
use std::collections::BTreeMap;
use vstd::prelude::*;
use vstd::string::*;

use crate::pipeline::batcher::all_rows;
use crate::pipeline::fatal::{first_of, Fatal};
use crate::text::{dec, push_dec};

verus! {

broadcast use vstd::std_specs::btree::group_btree_axioms;

pub enum AckEvent {
    /// In seq order, no gaps. `publish: false` marks a non-final slice of a
    /// multi-seq commit: it gates contiguity and its position never publishes.
    Register { seq: u64, commit_lsn: u64, publish: bool },
    Placed { seq: u64, rows: u64 },
    Acked { counts: Vec<(u64, u64)> },
    /// Source position beyond every buffered transaction, held until all
    /// dispatched seqs finish.
    Trailing { lsn: u64 },
}

#[derive(Debug, Clone, Copy, PartialEq, Eq, Structural)]
pub enum SeqFault {
    DoublePlaced,
    OverAcked,
}

/// Per-seq progress; placement and acks arrive in either order.
#[derive(Debug, Clone, Copy, PartialEq, Eq, Structural)]
pub struct Progress {
    /// `None` until rows are placed, `Some` while waiting on ClickHouse.
    pub rows: Option<u64>,
    pub acked: u64,
}

impl Default for Progress {
    fn default() -> (r: Self)
        ensures
            r == (Progress { rows: None, acked: 0 }),
    {
        Progress { rows: None, acked: 0 }
    }
}

impl Progress {
    pub open spec fn done(self) -> bool {
        self.rows == Some(self.acked)
    }

    /// The fault that placing `rows` would be, if it is one.
    pub open spec fn place_fault(self, rows: u64) -> Option<SeqFault> {
        if self.rows is Some {
            Some(SeqFault::DoublePlaced)
        } else if self.acked > rows {
            Some(SeqFault::OverAcked)
        } else {
            None
        }
    }

    /// The fault that acking `n` rows would be, if it is one.
    pub open spec fn ack_fault(self, n: u64) -> Option<SeqFault> {
        if self.rows is Some && self.acked + n > self.rows->0 {
            Some(SeqFault::OverAcked)
        } else {
            None
        }
    }

    /// Record how many rows were placed. A fault leaves the counts untouched,
    /// so the wedged seq stays diagnosable.
    pub fn place(&mut self, rows: u64) -> (r: Result<(), SeqFault>)
        ensures
            match old(self).place_fault(rows) {
                Some(f) => r == Err::<(), SeqFault>(f) && *final(self) == *old(self),
                None => r is Ok && *final(self) == (Progress {
                    rows: Some(rows),
                    acked: old(self).acked,
                }),
            },
    {
        if self.rows.is_some() {
            return Err(SeqFault::DoublePlaced);
        }
        if self.acked > rows {
            return Err(SeqFault::OverAcked);
        }
        self.rows = Some(rows);
        Ok(())
    }

    /// Count `n` acked rows. A fault leaves the counts untouched.
    pub fn ack(&mut self, n: u64) -> (r: Result<(), SeqFault>)
        requires
            old(self).acked + n <= u64::MAX,
        ensures
            match old(self).ack_fault(n) {
                Some(f) => r == Err::<(), SeqFault>(f) && *final(self) == *old(self),
                None => r is Ok && *final(self) == (Progress {
                    rows: old(self).rows,
                    acked: (old(self).acked + n) as u64,
                }),
            },
    {
        let acked: u64 = self.acked + n;
        if let Some(rows) = self.rows {
            if acked > rows {
                return Err(SeqFault::OverAcked);
            }
        }
        self.acked = acked;
        Ok(())
    }

    pub fn is_done(self) -> (r: bool)
        ensures
            r == self.done(),
    {
        match self.rows {
            Some(rows) => rows == self.acked,
            None => false,
        }
    }
}

/// A registered seq that has not retired.
#[derive(Debug, Clone, Copy, PartialEq, Eq, Structural)]
pub struct SeqEntry {
    pub commit_lsn: u64,
    pub publish: bool,
    pub progress: Progress,
}

#[derive(Debug, Clone, Copy, PartialEq, Eq, Structural)]
pub struct IncompleteSeq {
    pub seq: u64,
    pub commit_lsn: u64,
    /// `None` until rows are placed, `Some` while waiting on ClickHouse.
    pub rows: Option<u64>,
    pub acked: u64,
}

/// Watermark state exposed to stall diagnostics.
#[derive(Debug, Clone, Copy, PartialEq, Eq, Structural)]
pub struct AckSnapshot {
    pub registered: u64,
    pub frontier: u64,
    pub oldest_incomplete: Option<IncompleteSeq>,
    pub trailing_held: u64,
    /// Protocol faults; the first trips the pipeline's fatal slot.
    pub wedged: u64,
    /// Events for retired seqs, benign: inserter batches straddle retirement.
    pub late: u64,
}

impl Default for AckSnapshot {
    fn default() -> (r: Self)
        ensures
            r == (AckSnapshot {
                registered: 0,
                frontier: 0,
                oldest_incomplete: None,
                trailing_held: 0,
                wedged: 0,
                late: 0,
            }),
    {
        AckSnapshot {
            registered: 0,
            frontier: 0,
            oldest_incomplete: None,
            trailing_held: 0,
            wedged: 0,
            late: 0,
        }
    }
}

impl AckSnapshot {
    pub fn all_done(&self) -> (r: bool)
        ensures
            r == (self.oldest_incomplete is None),
    {
        self.oldest_incomplete.is_none()
    }

    pub fn stall_reason(&self) -> (r: Option<&'static str>)
        ensures
            match self.oldest_incomplete {
                None => r is None,
                Some(inc) => r is Some && r->0@ == (if inc.rows is None {
                    "rows not yet placed"@
                } else {
                    "clickhouse has not acked rows"@
                }),
            },
    {
        match self.oldest_incomplete {
            None => None,
            Some(inc) => match inc.rows {
                None => Some("rows not yet placed"),
                Some(_) => Some("clickhouse has not acked rows"),
            },
        }
    }
}

/// The collector's state as a mathematical value.
pub struct AckView {
    /// Registered seqs that have not retired.
    pub live: Map<u64, SeqEntry>,
    /// Lowest seq not yet done: every seq below has retired.
    pub frontier: u64,
    pub registered: u64,
    /// Highest publishing commit position that has retired.
    pub watermark: u64,
    pub trailing: u64,
    /// The published position.
    pub emitter_ack: u64,
    pub wedged: u64,
    pub late: u64,
    pub fatal: Option<Seq<char>>,
}

pub open spec fn max64(a: u64, b: u64) -> u64 {
    if a >= b {
        a
    } else {
        b
    }
}

/// The message of a protocol fault.
pub open spec fn fault_text(what: Seq<char>, seq: u64, frontier: u64, registered: u64) -> Seq<char> {
    "ack collector: "@ + what + " (seq "@ + dec(seq as nat) + ", frontier "@ + dec(frontier as nat)
        + ", registered "@ + dec(registered as nat) + ")"@
}

pub open spec fn fault_what(f: SeqFault) -> Seq<char> {
    match f {
        SeqFault::DoublePlaced => "seq placed twice"@,
        SeqFault::OverAcked => "seq acked past its row count"@,
    }
}

impl AckView {
    /// Nothing registered, over the fatal slot `fatal`.
    pub open spec fn initial(fatal: Option<Seq<char>>) -> AckView {
        AckView {
            live: Map::empty(),
            frontier: 0,
            registered: 0,
            watermark: 0,
            trailing: 0,
            emitter_ack: 0,
            wedged: 0,
            late: 0,
            fatal,
        }
    }

    /// Live seqs lie between the frontier and the registration count, and the
    /// seq at the frontier is not done.
    pub open spec fn wf(self) -> bool {
        &&& self.frontier <= self.registered
        &&& forall|s: u64| #[trigger]
            self.live.contains_key(s) ==> self.frontier <= s < self.registered
        &&& self.live.contains_key(self.frontier) ==> !self.live[self.frontier].progress.done()
    }

    pub open spec fn all_done(self) -> bool {
        self.frontier == self.registered
    }

    pub open spec fn oldest_incomplete(self) -> Option<IncompleteSeq> {
        if !self.all_done() && self.live.contains_key(self.frontier) {
            let s = self.live[self.frontier];
            Some(
                IncompleteSeq {
                    seq: self.frontier,
                    commit_lsn: s.commit_lsn,
                    rows: s.progress.rows,
                    acked: s.progress.acked,
                },
            )
        } else {
            None
        }
    }

    /// A protocol fault: counted, and the first one trips the fatal slot.
    pub open spec fn faulted(self, seq: u64, what: Seq<char>) -> AckView {
        AckView {
            wedged: (self.wedged + 1) as u64,
            fatal: if self.wedged == 0 {
                first_of(self.fatal, fault_text(what, seq, self.frontier, self.registered))
            } else {
                self.fatal
            },
            ..self
        }
    }

    /// An event for a seq that is not live: late if the seq retired, else a
    /// fault that pins the frontier.
    pub open spec fn missed(self, seq: u64) -> AckView {
        if seq < self.frontier {
            AckView { late: (self.late + 1) as u64, ..self }
        } else {
            self.faulted(seq, "ack event for an unregistered seq"@)
        }
    }

    pub open spec fn opened(self, seq: u64, commit_lsn: u64, publish: bool) -> AckView {
        if seq < self.frontier || self.live.contains_key(seq) {
            self.faulted(seq, "seq registered twice"@)
        } else {
            AckView {
                live: self.live.insert(
                    seq,
                    SeqEntry { commit_lsn, publish, progress: Progress { rows: None, acked: 0 } },
                ),
                registered: max64(self.registered, (seq + 1) as u64),
                ..self
            }
        }
    }

    pub open spec fn with_progress(self, seq: u64, progress: Progress) -> AckView {
        AckView {
            live: self.live.insert(seq, SeqEntry { progress, ..self.live[seq] }),
            ..self
        }
    }

    pub open spec fn placed(self, seq: u64, rows: u64) -> AckView {
        if !self.live.contains_key(seq) {
            self.missed(seq)
        } else {
            let p = self.live[seq].progress;
            match p.place_fault(rows) {
                Some(f) => self.faulted(seq, fault_what(f)),
                None => self.with_progress(seq, Progress { rows: Some(rows), acked: p.acked }),
            }
        }
    }

    pub open spec fn acked_one(self, seq: u64, n: u64) -> AckView {
        if !self.live.contains_key(seq) {
            self.missed(seq)
        } else {
            let p = self.live[seq].progress;
            match p.ack_fault(n) {
                Some(f) => self.faulted(seq, fault_what(f)),
                None => self.with_progress(
                    seq,
                    Progress { rows: p.rows, acked: (p.acked + n) as u64 },
                ),
            }
        }
    }

    pub open spec fn acked(self, counts: Seq<(u64, u64)>) -> AckView
        decreases counts.len(),
    {
        if counts.len() == 0 {
            self
        } else {
            self.acked(counts.drop_last()).acked_one(counts.last().0, counts.last().1)
        }
    }

    /// Retire every done seq from the frontier on, up to the first seq that
    /// is not done or not registered.
    pub open spec fn settled(self) -> AckView
        decreases self.registered - self.frontier,
    {
        if self.frontier < self.registered && self.live.contains_key(self.frontier)
            && self.live[self.frontier].progress.done() {
            let s = self.live[self.frontier];
            (AckView {
                live: self.live.remove(self.frontier),
                watermark: if s.publish {
                    max64(self.watermark, s.commit_lsn)
                } else {
                    self.watermark
                },
                frontier: (self.frontier + 1) as u64,
                ..self
            }).settled()
        } else {
            self
        }
    }

    /// Publish the watermark; the trailing position only at idle, because
    /// later registrations carry later commit positions.
    pub open spec fn published(self) -> AckView {
        AckView {
            emitter_ack: max64(
                self.emitter_ack,
                if self.all_done() {
                    max64(self.watermark, self.trailing)
                } else {
                    self.watermark
                },
            ),
            ..self
        }
    }

    pub open spec fn stepped(self, ev: AckEvent) -> AckView {
        match ev {
            AckEvent::Register { seq, commit_lsn, publish } => self.opened(seq, commit_lsn, publish),
            AckEvent::Placed { seq, rows } => self.placed(seq, rows),
            AckEvent::Acked { counts } => self.acked(counts@),
            AckEvent::Trailing { lsn } => AckView { trailing: max64(self.trailing, lsn), ..self },
        }
    }

    /// The state after `ev`.
    pub open spec fn applied(self, ev: AckEvent) -> AckView {
        self.stepped(ev).settled().published()
    }

    /// Acking `n` rows of `seq` stays within the counters' width.
    pub open spec fn ack_fits(self, seq: u64, n: u64) -> bool {
        &&& self.wedged < u64::MAX
        &&& self.late < u64::MAX
        &&& self.live.contains_key(seq) ==> self.live[seq].progress.acked + n <= u64::MAX
    }

    pub open spec fn acks_fit(self, counts: Seq<(u64, u64)>) -> bool {
        forall|i: int|
            0 <= i < counts.len() ==> (#[trigger] self.acked(counts.subrange(0, i))).ack_fits(
                counts[i].0,
                counts[i].1,
            )
    }

    /// Every counter that `ev` moves stays within its width.
    pub open spec fn fits(self, ev: AckEvent) -> bool {
        match ev {
            AckEvent::Register { seq, .. } => seq < u64::MAX && self.wedged < u64::MAX,
            AckEvent::Placed { .. } => self.wedged < u64::MAX && self.late < u64::MAX,
            AckEvent::Acked { counts } => self.acks_fit(counts@),
            AckEvent::Trailing { .. } => true,
        }
    }

    /// A test for `fits` that looks at the counts as they are, not at what
    /// they come to one after another.
    pub open spec fn has_room(self, ev: AckEvent) -> bool {
        match ev {
            AckEvent::Acked { counts } => {
                &&& self.wedged + counts@.len() <= u64::MAX
                &&& self.late + counts@.len() <= u64::MAX
                &&& forall|i: int|
                    0 <= i < counts@.len() && self.live.contains_key((#[trigger] counts@[i]).0)
                        ==> self.live[counts@[i].0].progress.acked + all_rows(counts@) <= u64::MAX
            },
            _ => self.fits(ev),
        }
    }
}

proof fn lemma_rows_of_prefix(counts: Seq<(u64, u64)>, i: int)
    requires
        0 <= i <= counts.len(),
    ensures
        all_rows(counts.subrange(0, i)) <= all_rows(counts),
    decreases counts.len() - i,
{
    if i < counts.len() {
        assert(counts.subrange(0, i + 1).drop_last() =~= counts.subrange(0, i));
        lemma_rows_of_prefix(counts, i + 1);
    } else {
        assert(counts.subrange(0, i) =~= counts);
    }
}

/// Acks within the room move every counter by no more than they count.
proof fn lemma_acks_within(v: AckView, counts: Seq<(u64, u64)>, i: int)
    requires
        0 <= i <= counts.len(),
        v.wedged + counts.len() <= u64::MAX,
        v.late + counts.len() <= u64::MAX,
        forall|k: int|
            0 <= k < counts.len() && v.live.contains_key((#[trigger] counts[k]).0)
                ==> v.live[counts[k].0].progress.acked + all_rows(counts) <= u64::MAX,
    ensures
        ({
            let w = v.acked(counts.subrange(0, i));
            &&& w.wedged <= v.wedged + i
            &&& w.late <= v.late + i
            &&& w.live.dom() == v.live.dom()
            &&& forall|s: u64| #[trigger]
                w.live.contains_key(s) ==> w.live[s].progress.acked <= v.live[s].progress.acked
                    + all_rows(counts.subrange(0, i))
        }),
    decreases i,
{
    if i > 0 {
        lemma_acks_within(v, counts, i - 1);
        let part = counts.subrange(0, i);
        assert(part.drop_last() =~= counts.subrange(0, i - 1));
        assert(part.last() == counts[i - 1]);
        lemma_rows_of_prefix(counts, i);
        let w = v.acked(counts.subrange(0, i - 1));
        let (seq, n) = counts[i - 1];
        if w.live.contains_key(seq) {
            assert(v.live.contains_key(seq));
            assert(w.live[seq].progress.acked + n <= u64::MAX);
        }
        assert(v.acked(part).live.dom() =~= v.live.dom());
    } else {
        assert(counts.subrange(0, 0) =~= Seq::empty());
    }
}

/// Whatever there is room for fits.
pub proof fn room_is_enough(v: AckView, ev: AckEvent)
    requires
        v.has_room(ev),
    ensures
        v.fits(ev),
{
    if let AckEvent::Acked { counts } = ev {
        let all = counts@;
        assert forall|i: int| 0 <= i < all.len() implies (#[trigger] v.acked(
            all.subrange(0, i),
        )).ack_fits(all[i].0, all[i].1) by {
            lemma_acks_within(v, all, i);
            lemma_rows_of_prefix(all, i + 1);
            assert(all.subrange(0, i + 1).drop_last() =~= all.subrange(0, i));
            assert(all.subrange(0, i + 1).last() == all[i]);
            let w = v.acked(all.subrange(0, i));
            if w.live.contains_key(all[i].0) {
                assert(v.live.contains_key(all[i].0));
            }
        }
    }
}

pub struct AckState {
    map: BTreeMap<u64, SeqEntry>,
    frontier: u64,
    registered: u64,
    watermark: u64,
    /// Retained across events because a quiescent source cannot resend it.
    trailing: u64,
    emitter_ack: u64,
    wedged: u64,
    late: u64,
    /// Tripped on the first protocol fault so barrier waits fail instead of
    /// hanging.
    fatal: Fatal,
}

impl View for AckState {
    type V = AckView;

    closed spec fn view(&self) -> AckView {
        AckView {
            live: self.map@,
            frontier: self.frontier,
            registered: self.registered,
            watermark: self.watermark,
            trailing: self.trailing,
            emitter_ack: self.emitter_ack,
            wedged: self.wedged,
            late: self.late,
            fatal: self.fatal@,
        }
    }
}

impl AckState {
    pub open spec fn wf(&self) -> bool {
        self@.wf()
    }

    pub fn new(fatal: Fatal) -> (r: Self)
        ensures
            r.wf(),
            r@ == AckView::initial(fatal@),
    {
        AckState {
            map: BTreeMap::new(),
            frontier: 0,
            registered: 0,
            watermark: 0,
            trailing: 0,
            emitter_ack: 0,
            wedged: 0,
            late: 0,
            fatal,
        }
    }

    /// Whether the counters are wide enough for `ev`.
    pub fn has_room(&self, ev: &AckEvent) -> (r: bool)
        requires
            self.wf(),
        ensures
            r == self@.has_room(*ev),
            r ==> self@.fits(*ev),
    {
        proof {
            if self@.has_room(*ev) {
                room_is_enough(self@, *ev);
            }
        }
        match ev {
            AckEvent::Register { seq, .. } => *seq < u64::MAX && self.wedged < u64::MAX,
            AckEvent::Placed { .. } => self.wedged < u64::MAX && self.late < u64::MAX,
            AckEvent::Trailing { .. } => true,
            AckEvent::Acked { counts } => {
                let n: usize = counts.len();
                if self.wedged > u64::MAX - n as u64 || self.late > u64::MAX - n as u64 {
                    return false;
                }
                let mut total: u128 = 0;
                let mut i: usize = 0;
                proof {
                    assert(counts@.subrange(0, 0) =~= Seq::empty());
                }
                while i < n
                    invariant
                        i <= n == counts@.len(),
                        total == all_rows(counts@.subrange(0, i as int)),
                        total <= i * 0xffff_ffff_ffff_ffff,
                    decreases n - i,
                {
                    proof {
                        let part = counts@.subrange(0, i as int + 1);
                        assert(part.drop_last() =~= counts@.subrange(0, i as int));
                        assert(part.last() == counts@[i as int]);
                        assert(i * 0xffff_ffff_ffff_ffff + 0xffff_ffff_ffff_ffff <= 0xffff_ffff_ffff_ffff
                            * 0xffff_ffff_ffff_ffff) by (nonlinear_arith)
                            requires
                                0 <= i < 0xffff_ffff_ffff_ffff,
                        ;
                        assert((i + 1) * 0xffff_ffff_ffff_ffff == i * 0xffff_ffff_ffff_ffff
                            + 0xffff_ffff_ffff_ffff) by (nonlinear_arith);
                    }
                    total = total + counts[i].1 as u128;
                    i = i + 1;
                }
                proof {
                    assert(counts@.subrange(0, i as int) =~= counts@);
                }
                let mut j: usize = 0;
                while j < n
                    invariant
                        j <= n == counts@.len(),
                        total == all_rows(counts@),
                        *ev == (AckEvent::Acked { counts: *counts }),
                        self.wf(),
                        forall|k: int|
                            0 <= k < j && self@.live.contains_key((#[trigger] counts@[k]).0)
                                ==> self@.live[counts@[k].0].progress.acked + all_rows(counts@)
                                <= u64::MAX,
                    decreases n - j,
                {
                    let seq: u64 = counts[j].0;
                    if let Some(s) = self.map.get(&seq) {
                        if total > (u64::MAX - s.progress.acked) as u128 {
                            proof {
                                assert(self@.live.contains_key(counts@[j as int].0));
                            }
                            return false;
                        }
                    }
                    j = j + 1;
                }
                true
            },
        }
    }

    /// Apply one event and publish what it makes durable.
    pub fn apply(&mut self, ev: AckEvent)
        requires
            old(self).wf(),
            old(self)@.fits(ev),
        ensures
            final(self).wf(),
            final(self)@ == old(self)@.applied(ev),
    {
        match ev {
            AckEvent::Register { seq, commit_lsn, publish } => {
                self.open_seq(seq, commit_lsn, publish);
            },
            AckEvent::Placed { seq, rows } => {
                self.place(seq, rows);
            },
            AckEvent::Acked { counts } => {
                let ghost start = self@;
                let mut i: usize = 0;
                proof {
                    assert(counts@.subrange(0, 0) =~= Seq::empty());
                }
                while i < counts.len()
                    invariant
                        i <= counts@.len(),
                        start.acks_fit(counts@),
                        self@ == start.acked(counts@.subrange(0, i as int)),
                        self@.frontier <= self@.registered,
                        forall|s: u64| #[trigger]
                            self@.live.contains_key(s) ==> self@.frontier <= s < self@.registered,
                    decreases counts@.len() - i,
                {
                    let ghost next = counts@.subrange(0, i as int + 1);
                    proof {
                        assert(next.drop_last() =~= counts@.subrange(0, i as int));
                        assert(next.last() == counts@[i as int]);
                    }
                    let (seq, n): (u64, u64) = counts[i];
                    self.ack(seq, n);
                    i = i + 1;
                }
                proof {
                    assert(counts@.subrange(0, i as int) =~= counts@);
                }
            },
            AckEvent::Trailing { lsn } => {
                if lsn > self.trailing {
                    self.trailing = lsn;
                }
            },
        }
        self.publish();
    }

    fn open_seq(&mut self, seq: u64, commit_lsn: u64, publish: bool)
        requires
            old(self)@.wf(),
            seq < u64::MAX,
            old(self)@.wedged < u64::MAX,
        ensures
            final(self)@ == old(self)@.opened(seq, commit_lsn, publish),
    {
        // Preserve live counts, never resurrect retired seqs.
        if seq < self.frontier || self.map.contains_key(&seq) {
            self.wedge(seq, "seq registered twice");
            return;
        }
        self.map.insert(
            seq,
            SeqEntry { commit_lsn, publish, progress: Progress { rows: None, acked: 0 } },
        );
        if seq + 1 > self.registered {
            self.registered = seq + 1;
        }
    }

    fn place(&mut self, seq: u64, rows: u64)
        requires
            old(self)@.wedged < u64::MAX,
            old(self)@.late < u64::MAX,
        ensures
            final(self)@ == old(self)@.placed(seq, rows),
    {
        let found: Option<SeqEntry> = match self.map.get(&seq) {
            Some(s) => Some(*s),
            None => None,
        };
        match found {
            None => self.absent(seq),
            Some(mut s) => match s.progress.place(rows) {
                Ok(()) => {
                    self.map.insert(seq, s);
                },
                Err(f) => self.fault(seq, f),
            },
        }
    }

    fn ack(&mut self, seq: u64, n: u64)
        requires
            old(self)@.ack_fits(seq, n),
        ensures
            final(self)@ == old(self)@.acked_one(seq, n),
    {
        let found: Option<SeqEntry> = match self.map.get(&seq) {
            Some(s) => Some(*s),
            None => None,
        };
        match found {
            None => self.absent(seq),
            Some(mut s) => match s.progress.ack(n) {
                Ok(()) => {
                    self.map.insert(seq, s);
                },
                Err(f) => self.fault(seq, f),
            },
        }
    }

    fn fault(&mut self, seq: u64, f: SeqFault)
        requires
            old(self)@.wedged < u64::MAX,
        ensures
            final(self)@ == old(self)@.faulted(seq, fault_what(f)),
    {
        match f {
            SeqFault::DoublePlaced => self.wedge(seq, "seq placed twice"),
            SeqFault::OverAcked => self.wedge(seq, "seq acked past its row count"),
        }
    }

    /// Distinguish benign retired events from unregistered seqs that pin the
    /// frontier.
    fn absent(&mut self, seq: u64)
        requires
            old(self)@.wedged < u64::MAX,
            old(self)@.late < u64::MAX,
        ensures
            final(self)@ == old(self)@.missed(seq),
    {
        if seq < self.frontier {
            self.late = self.late + 1;
            return;
        }
        self.wedge(seq, "ack event for an unregistered seq");
    }

    /// Fail on the first fault: the watermark pins here, a restart resumes
    /// from the persisted floor and `_lsn` dedup absorbs replayed rows.
    fn wedge(&mut self, seq: u64, what: &'static str)
        requires
            old(self)@.wedged < u64::MAX,
        ensures
            final(self)@ == old(self)@.faulted(seq, what@),
    {
        self.wedged = self.wedged + 1;
        if self.wedged == 1 {
            let mut m: String = String::from_str("ack collector: ");
            m.append(what);
            m.append(" (seq ");
            push_dec(&mut m, seq);
            m.append(", frontier ");
            push_dec(&mut m, self.frontier);
            m.append(", registered ");
            push_dec(&mut m, self.registered);
            m.append(")");
            self.fatal.set(m);
        }
    }

    /// Sole writer of the published position, called after every event. The
    /// scan resumes at the done frontier, so each seq retires once.
    fn publish(&mut self)
        requires
            old(self)@.frontier <= old(self)@.registered,
            forall|s: u64| #[trigger]
                old(self)@.live.contains_key(s) ==> old(self)@.frontier <= s
                    < old(self)@.registered,
        ensures
            final(self)@ == old(self)@.settled().published(),
            final(self)@.wf(),
    {
        let ghost start = self@;
        loop
            invariant
                self@.frontier <= self@.registered,
                forall|s: u64| #[trigger]
                    self@.live.contains_key(s) ==> self@.frontier <= s < self@.registered,
                self@.settled() == start.settled(),
            ensures
                self@ == start.settled(),
                self@.wf(),
            decreases self.registered - self.frontier,
        {
            let entry: SeqEntry = match self.map.get(&self.frontier) {
                Some(s) => *s,
                None => {
                    break;
                },
            };
            if !entry.progress.is_done() {
                break;
            }
            self.map.remove(&self.frontier);
            if entry.publish && entry.commit_lsn > self.watermark {
                self.watermark = entry.commit_lsn;
            }
            self.frontier = self.frontier + 1;
        }
        let mut ack: u64 = self.watermark;
        if self.all_done() && self.trailing > ack {
            ack = self.trailing;
        }
        if ack > self.emitter_ack {
            self.emitter_ack = ack;
        }
    }

    pub fn snapshot(&self) -> (r: AckSnapshot)
        ensures
            r == (AckSnapshot {
                registered: self@.registered,
                frontier: self@.frontier,
                oldest_incomplete: self@.oldest_incomplete(),
                trailing_held: self@.trailing,
                wedged: self@.wedged,
                late: self@.late,
            }),
    {
        AckSnapshot {
            registered: self.registered,
            frontier: self.frontier,
            oldest_incomplete: self.oldest_incomplete(),
            trailing_held: self.trailing,
            wedged: self.wedged,
            late: self.late,
        }
    }

    pub fn all_done(&self) -> (r: bool)
        ensures
            r == self@.all_done(),
    {
        self.frontier == self.registered
    }

    pub fn oldest_incomplete(&self) -> (r: Option<IncompleteSeq>)
        ensures
            r == self@.oldest_incomplete(),
    {
        if self.all_done() {
            return None;
        }
        match self.map.get(&self.frontier) {
            Some(s) => Some(
                IncompleteSeq {
                    seq: self.frontier,
                    commit_lsn: s.commit_lsn,
                    rows: s.progress.rows,
                    acked: s.progress.acked,
                },
            ),
            None => None,
        }
    }

    /// The published position.
    pub fn emitter_ack(&self) -> (r: u64)
        ensures
            r == self@.emitter_ack,
    {
        self.emitter_ack
    }

    /// Every seq below this one is durable.
    pub fn frontier(&self) -> (r: u64)
        ensures
            r == self@.frontier,
    {
        self.frontier
    }

    pub fn fatal(&self) -> (r: &Fatal)
        ensures
            r@ == self@.fatal,
    {
        &self.fatal
    }
}

} // verus!

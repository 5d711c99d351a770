//! Initial load: baseline tuples into the shared insert tail.
//!
//! Tuples of one relation that follow one another share a seq. Rows whose
//! values are stored out of line are deferred until every chunk has been
//! stored, and then routed under one trailing seq.
use vstd::prelude::*;
use vstd::string::*;

use crate::mapping::{column_views, ColumnMappingView, TableMapping};
use crate::pipeline::decode::DECODE_CHUNK_BYTES;
use crate::schema::{RelFileNode, RelKey, RelName};
use crate::text::{dec, push_dec};
use crate::values::{ColumnValue, ToastPointer};

verus! {

/// Rows per hand-over to the batcher.
pub const DRAIN_CHUNK_ROWS: usize = 1024;

/// Rows of one replay round.
pub const REPLAY_BATCH_ROWS: usize = 65536;

/// Bytes of one replay round, fetched and held.
pub const REPLAY_FETCH_BYTES: usize = 0x400_0000;

/// What becomes of referrers whose chunks the walk had not reached.
#[derive(Debug)]
pub enum Deferral<S> {
    /// The input has no such rows; one is a fault.
    Rejected,
    /// Resolve at the end of the drain, past every chunk it stored.
    Local(S),
    /// Hand back: a sibling lane may still be storing chunks.
    Handback(S),
}

/// How far a drain came.
#[derive(Debug)]
pub struct BootstrapDrainOutcome<S> {
    /// Seqs are dense below this one.
    pub next_seq: u64,
    pub rows_routed: u64,
    /// Referrers that were handed back.
    pub deferred: Option<S>,
}

/// Gauges of deferred bytes, shared by all lanes.
#[derive(Debug, Clone, Copy, PartialEq, Eq, Structural)]
pub struct DeferredGauges {
    pub resident: u64,
    pub spooled: u64,
}

/// One lane's share of the gauges: it reports changes only, and gives back
/// what it still owns, so that a failed lane leaves nothing standing and a
/// finishing one touches no peer's share.
#[derive(Debug, Clone, Copy, PartialEq, Eq, Structural)]
pub struct DeferredFootprint {
    pub resident: u64,
    pub spooled: u64,
}

/// Move a shared gauge from what a holder reported to what it holds now.
pub fn shift(gauge: &mut u64, held: &mut u64, now: u64)
    requires
        *old(held) <= *old(gauge),
        *old(gauge) - *old(held) + now <= u64::MAX,
    ensures
        *final(gauge) == *old(gauge) - *old(held) + now,
        *final(held) == now,
{
    if now >= *held {
        *gauge = *gauge + (now - *held);
    } else {
        *gauge = *gauge - (*held - now);
    }
    *held = now;
}

impl DeferredFootprint {
    /// Whether the gauges hold at least this share.
    pub open spec fn within(self, g: DeferredGauges) -> bool {
        self.resident <= g.resident && self.spooled <= g.spooled
    }

    pub fn new() -> (r: Self)
        ensures
            r == (DeferredFootprint { resident: 0, spooled: 0 }),
    {
        DeferredFootprint { resident: 0, spooled: 0 }
    }

    /// Take over what a lane reported, so that its replay gives it back.
    pub fn adopt(resident: u64, spooled: u64) -> (r: Self)
        ensures
            r == (DeferredFootprint { resident, spooled }),
    {
        DeferredFootprint { resident, spooled }
    }

    /// Report what the lane holds now.
    pub fn publish(&mut self, gauges: &mut DeferredGauges, resident: u64, spooled: u64)
        requires
            old(self).within(*old(gauges)),
            old(gauges).resident - old(self).resident + resident <= u64::MAX,
            old(gauges).spooled - old(self).spooled + spooled <= u64::MAX,
        ensures
            *final(self) == (DeferredFootprint { resident, spooled }),
            final(gauges).resident == old(gauges).resident - old(self).resident + resident,
            final(gauges).spooled == old(gauges).spooled - old(self).spooled + spooled,
    {
        shift(&mut gauges.resident, &mut self.resident, resident);
        shift(&mut gauges.spooled, &mut self.spooled, spooled);
    }

    /// The spool outlives this holder: whoever takes it owns the bytes.
    pub fn hand_off(self) -> (r: DeferredFootprint)
        ensures
            r == (DeferredFootprint { resident: 0, spooled: 0 }),
    {
        DeferredFootprint { resident: 0, spooled: 0 }
    }

    /// Give back what the lane still owns.
    pub fn release(self, gauges: &mut DeferredGauges)
        requires
            self.within(*old(gauges)),
        ensures
            final(gauges).resident == old(gauges).resident - self.resident,
            final(gauges).spooled == old(gauges).spooled - self.spooled,
    {
        gauges.resident = gauges.resident - self.resident;
        gauges.spooled = gauges.spooled - self.spooled;
    }
}

/// Sum of the lanes' resident shares.
pub open spec fn lanes_resident(lanes: Seq<DeferredFootprint>) -> nat
    decreases lanes.len(),
{
    if lanes.len() == 0 {
        0
    } else {
        lanes_resident(lanes.drop_last()) + lanes.last().resident as nat
    }
}

/// Sum of the lanes' spooled shares.
pub open spec fn lanes_spooled(lanes: Seq<DeferredFootprint>) -> nat
    decreases lanes.len(),
{
    if lanes.len() == 0 {
        0
    } else {
        lanes_spooled(lanes.drop_last()) + lanes.last().spooled as nat
    }
}

/// The gauges sum the lanes.
pub open spec fn sums(gauges: DeferredGauges, lanes: Seq<DeferredFootprint>) -> bool {
    gauges.resident == lanes_resident(lanes) && gauges.spooled == lanes_spooled(lanes)
}

/// The gauges sum the lanes, and a lane that reports or gives back moves only
/// its own part of the sums.
pub proof fn lanes_add_up(
    lanes: Seq<DeferredFootprint>,
    i: int,
    now: DeferredFootprint,
    gauges: DeferredGauges,
)
    requires
        0 <= i < lanes.len(),
        sums(gauges, lanes),
    ensures
        lanes[i].within(gauges),
        lanes_resident(lanes.update(i, now)) == gauges.resident - lanes[i].resident + now.resident,
        lanes_spooled(lanes.update(i, now)) == gauges.spooled - lanes[i].spooled + now.spooled,
{
    lemma_lane_moves(lanes, i, now);
}

proof fn lemma_lane_moves(lanes: Seq<DeferredFootprint>, i: int, now: DeferredFootprint)
    requires
        0 <= i < lanes.len(),
    ensures
        lanes[i].resident <= lanes_resident(lanes),
        lanes[i].spooled <= lanes_spooled(lanes),
        lanes_resident(lanes.update(i, now)) == lanes_resident(lanes) - lanes[i].resident
            + now.resident,
        lanes_spooled(lanes.update(i, now)) == lanes_spooled(lanes) - lanes[i].spooled
            + now.spooled,
    decreases lanes.len(),
{
    let next = lanes.update(i, now);
    if i == lanes.len() - 1 {
        assert(next.drop_last() =~= lanes.drop_last());
    } else {
        lemma_lane_moves(lanes.drop_last(), i, now);
        assert(next.drop_last() =~= lanes.drop_last().update(i, now));
        assert(lanes.drop_last()[i] == lanes[i]);
    }
}

/// What is known of a tuple when it arrives.
#[derive(Debug, Clone, Copy, PartialEq, Eq, Structural)]
pub struct TupleFacts {
    /// The catalog knows its relation.
    pub known: bool,
    /// Its relation is not loaded.
    pub skipped: bool,
    /// Its relation stores the chunks of others.
    pub toast: bool,
    /// Its relation has a route.
    pub routed: bool,
    /// A mapped column is stored out of line.
    pub external: bool,
}

#[derive(Debug, Clone, Copy, PartialEq, Eq, Structural)]
pub enum TupleAction {
    /// Count an unsupported relation.
    Unsupported,
    Skip,
    StoreChunk,
    /// Keep it until every chunk has been stored.
    Defer,
    /// It cannot be deferred.
    Refuse,
    /// Resolve its out-of-line values at once, then route it.
    ResolveAndRoute,
    Route,
}

pub open spec fn action_for(f: TupleFacts, stores_chunks: bool, can_defer: bool) -> TupleAction {
    if !f.known {
        TupleAction::Unsupported
    } else if f.skipped {
        TupleAction::Skip
    } else if f.toast {
        TupleAction::StoreChunk
    } else if !f.routed {
        TupleAction::Unsupported
    } else if !f.external {
        TupleAction::Route
    } else if !stores_chunks {
        TupleAction::ResolveAndRoute
    } else if can_defer {
        TupleAction::Defer
    } else {
        TupleAction::Refuse
    }
}

pub fn tuple_action(f: TupleFacts, stores_chunks: bool, can_defer: bool) -> (r: TupleAction)
    ensures
        r == action_for(f, stores_chunks, can_defer),
{
    if !f.known {
        TupleAction::Unsupported
    } else if f.skipped {
        TupleAction::Skip
    } else if f.toast {
        TupleAction::StoreChunk
    } else if !f.routed {
        TupleAction::Unsupported
    } else if !f.external {
        TupleAction::Route
    } else if !stores_chunks {
        TupleAction::ResolveAndRoute
    } else if can_defer {
        TupleAction::Defer
    } else {
        TupleAction::Refuse
    }
}

pub open spec fn undeferrable_text(rel: RelKey) -> Seq<char> {
    "bootstrap: undeferrable external value in "@ + rel.text()
}

/// The error of a tuple that cannot be deferred.
pub fn undeferrable(rel: &RelName) -> (s: String)
    ensures
        s@ == undeferrable_text(rel@),
{
    let mut s: String = String::from_str("bootstrap: undeferrable external value in ");
    s.append(rel.to_text().as_str());
    s
}

/// A seq in progress: the relation, the seq, the rows routed under it.
pub struct OpenSeq {
    pub rfn: RelFileNode,
    pub seq: nat,
    pub rows: nat,
}

/// Where a drain stands.
pub struct DrainView {
    pub open: Option<OpenSeq>,
    pub next_seq: nat,
    pub rows_routed: nat,
    /// Rows placed per closed seq, in order.
    pub placed: Seq<nat>,
}

impl DrainView {
    pub open spec fn start() -> DrainView {
        DrainView { open: None, next_seq: 0, rows_routed: 0, placed: Seq::empty() }
    }

    /// The open seq is closed.
    pub open spec fn closed(self) -> DrainView {
        match self.open {
            None => self,
            Some(o) => DrainView { open: None, placed: self.placed.push(o.rows), ..self },
        }
    }

    /// A tuple of `rfn` arrives: it joins the open seq of its relation, else
    /// a fresh seq is opened.
    pub open spec fn arrived(self, rfn: RelFileNode) -> DrainView {
        match self.open {
            Some(o) if o.rfn == rfn => self,
            _ => {
                let c = self.closed();
                DrainView {
                    open: Some(OpenSeq { rfn, seq: c.next_seq, rows: 0 }),
                    next_seq: c.next_seq + 1,
                    ..c
                }
            },
        }
    }

    /// The tuple that arrived last is routed.
    pub open spec fn routed(self) -> DrainView {
        DrainView {
            open: match self.open {
                Some(o) => Some(OpenSeq { rows: o.rows + 1, ..o }),
                None => None,
            },
            rows_routed: self.rows_routed + 1,
            ..self
        }
    }

    /// Closed seqs are those below the open one, and every routed row is
    /// placed under one seq.
    pub open spec fn wf(self) -> bool {
        &&& self.rows_routed == sum_rows(self.placed) + (match self.open {
            Some(o) => o.rows,
            None => 0,
        })
        &&& self.next_seq == self.placed.len() + (if self.open is Some {
            1nat
        } else {
            0
        })
        &&& self.open is Some ==> self.open->0.seq == self.placed.len()
    }
}

pub open spec fn sum_rows(placed: Seq<nat>) -> nat
    decreases placed.len(),
{
    if placed.len() == 0 {
        0
    } else {
        sum_rows(placed.drop_last()) + placed.last()
    }
}

/// Seqs of a drain.
pub struct DrainSeqs {
    open: Option<(RelFileNode, u64, u64)>,
    next_seq: u64,
    rows_routed: u64,
    placed: Ghost<Seq<nat>>,
}

/// What a tuple of another relation does to the seqs.
#[derive(Debug, Clone, Copy, PartialEq, Eq)]
pub struct Turnover {
    /// Hand over every buffered row, then report this seq placed with so many
    /// rows.
    pub closed: Option<(u64, u64)>,
    /// Register this seq.
    pub opened: u64,
}

impl DrainSeqs {
    pub closed spec fn view(&self) -> DrainView {
        DrainView {
            open: match self.open {
                Some((rfn, seq, rows)) => Some(
                    OpenSeq { rfn, seq: seq as nat, rows: rows as nat },
                ),
                None => None,
            },
            next_seq: self.next_seq as nat,
            rows_routed: self.rows_routed as nat,
            placed: self.placed@,
        }
    }

    pub fn new() -> (r: Self)
        ensures
            r.view() == DrainView::start(),
            r.view().wf(),
    {
        DrainSeqs { open: None, next_seq: 0, rows_routed: 0, placed: Ghost(Seq::empty()) }
    }

    /// A tuple of `rfn` arrives. `None` if its relation's seq is open.
    pub fn arrive(&mut self, rfn: RelFileNode) -> (r: Option<Turnover>)
        requires
            old(self).view().wf(),
            old(self).view().next_seq < u64::MAX,
        ensures
            final(self).view() == old(self).view().arrived(rfn),
            final(self).view().wf(),
            match old(self).view().open {
                Some(o) if o.rfn == rfn => r is None,
                open => r is Some && r->0.opened == old(self).view().next_seq && (match (
                    open,
                    r->0.closed,
                ) {
                    (Some(o), Some((seq, rows))) => o.seq == seq && o.rows == rows,
                    (None, None) => true,
                    _ => false,
                }),
            },
    {
        let same: bool = match self.open {
            Some((r, _, _)) => r == rfn,
            None => false,
        };
        if same {
            return None;
        }
        let closed: Option<(u64, u64)> = match self.open {
            Some((_, seq, rows)) => Some((seq, rows)),
            None => None,
        };
        let opened: u64 = self.next_seq;
        proof {
            if let Some((_, _, rows)) = self.open {
                let before = self.placed@;
                assert(before.push(rows as nat).drop_last() =~= before);
                self.placed@ = before.push(rows as nat);
            }
        }
        self.next_seq = self.next_seq + 1;
        self.open = Some((rfn, opened, 0));
        Some(Turnover { closed, opened })
    }

    /// The tuple that arrived last was routed.
    pub fn route(&mut self)
        requires
            old(self).view().wf(),
            old(self).view().open is Some,
            old(self).view().rows_routed < u64::MAX,
        ensures
            final(self).view() == old(self).view().routed(),
            final(self).view().wf(),
    {
        if let Some((rfn, seq, rows)) = self.open {
            self.open = Some((rfn, seq, rows + 1));
        }
        self.rows_routed = self.rows_routed + 1;
    }

    /// The seq under which the tuple that arrived last is routed.
    pub fn current(&self) -> (r: Option<u64>)
        ensures
            match (r, self.view().open) {
                (Some(s), Some(o)) => s == o.seq,
                (None, None) => true,
                _ => false,
            },
    {
        match self.open {
            Some((_, seq, _)) => Some(seq),
            None => None,
        }
    }

    /// The walk is over: the open seq is placed.
    pub fn finish(&mut self) -> (r: Option<(u64, u64)>)
        requires
            old(self).view().wf(),
        ensures
            final(self).view() == old(self).view().closed(),
            final(self).view().wf(),
            match (r, old(self).view().open) {
                (Some((seq, rows)), Some(o)) => seq == o.seq && rows == o.rows,
                (None, None) => true,
                _ => false,
            },
    {
        match self.open {
            None => None,
            Some((_, seq, rows)) => {
                proof {
                    let before = self.placed@;
                    assert(before.push(rows as nat).drop_last() =~= before);
                    self.placed@ = before.push(rows as nat);
                }
                self.open = None;
                Some((seq, rows))
            },
        }
    }

    pub fn next_seq(&self) -> (r: u64)
        ensures
            r == self.view().next_seq,
    {
        self.next_seq
    }

    pub fn rows_routed(&self) -> (r: u64)
        ensures
            r == self.view().rows_routed,
    {
        self.rows_routed
    }
}

/// A drain that has finished placed as many rows as it routed, over seqs that
/// are dense from zero.
pub proof fn finished_drain_places_every_row(d: DrainView)
    requires
        d.wf(),
    ensures
        sum_rows(d.closed().placed) == d.rows_routed,
        d.closed().placed.len() == d.next_seq,
        d.closed().open is None,
{
    if let Some(o) = d.open {
        assert(d.placed.push(o.rows).drop_last() =~= d.placed);
    }
}

/// Coalesces routed rows into hand-overs.
pub struct RowBuf<T> {
    rows: Vec<T>,
    bytes: usize,
}

impl<T> RowBuf<T> {
    pub closed spec fn rows(&self) -> Seq<T> {
        self.rows@
    }

    pub closed spec fn bytes(&self) -> usize {
        self.bytes
    }

    pub fn new() -> (r: Self)
        ensures
            r.rows().len() == 0,
            r.bytes() == 0,
    {
        RowBuf { rows: Vec::new(), bytes: 0 }
    }

    /// Add a row of so many bytes; the hand-over, if the buffer is full.
    pub fn push(&mut self, row: T, bytes: usize) -> (r: Option<Vec<T>>)
        ensures
            ({
                let rows = old(self).rows().push(row);
                let held = crate::pipeline::reorder::add_clamped(old(self).bytes(), bytes as nat);
                if rows.len() >= DRAIN_CHUNK_ROWS || held >= DECODE_CHUNK_BYTES {
                    &&& r is Some && r->0@ == rows
                    &&& final(self).rows().len() == 0
                    &&& final(self).bytes() == 0
                } else {
                    r is None && final(self).rows() == rows && final(self).bytes() == held
                }
            }),
    {
        self.bytes = self.bytes.saturating_add(bytes);
        self.rows.push(row);
        if self.rows.len() >= DRAIN_CHUNK_ROWS || self.bytes >= DECODE_CHUNK_BYTES {
            return self.flush();
        }
        None
    }

    /// Hand over what is buffered; nothing when there is nothing.
    pub fn flush(&mut self) -> (r: Option<Vec<T>>)
        ensures
            if old(self).rows().len() == 0 {
                r is None && *final(self) == *old(self)
            } else {
                &&& r is Some && r->0@ == old(self).rows()
                &&& final(self).rows().len() == 0
                &&& final(self).bytes() == 0
            },
    {
        if self.rows.len() == 0 {
            return None;
        }
        self.bytes = 0;
        let mut out: Vec<T> = Vec::new();
        std::mem::swap(&mut out, &mut self.rows);
        Some(out)
    }
}

/// The trailing seq of a replay. It is registered with the first row that
/// routes, so that a spool without any leaves no seq to prove.
pub struct ReplaySeq {
    first_seq: u64,
    open: bool,
    placed: u64,
}

impl ReplaySeq {
    pub closed spec fn first_seq(&self) -> nat {
        self.first_seq as nat
    }

    pub closed spec fn open(&self) -> bool {
        self.open
    }

    pub closed spec fn placed(&self) -> nat {
        self.placed as nat
    }

    pub open spec fn wf(&self) -> bool {
        self.open() <==> self.placed() > 0
    }

    pub fn new(first_seq: u64) -> (r: Self)
        ensures
            r.wf(),
            r.first_seq() == first_seq,
            !r.open(),
            r.placed() == 0,
    {
        ReplaySeq { first_seq, open: false, placed: 0 }
    }

    /// A row routes: the seq, and whether it has to be registered first.
    pub fn on_row(&mut self) -> (r: (u64, bool))
        requires
            old(self).wf(),
            old(self).placed() < u64::MAX,
        ensures
            final(self).wf(),
            r.0 == old(self).first_seq(),
            r.1 == !old(self).open(),
            final(self).first_seq() == old(self).first_seq(),
            final(self).open(),
            final(self).placed() == old(self).placed() + 1,
    {
        let register: bool = !self.open;
        self.open = true;
        self.placed = self.placed + 1;
        (self.first_seq, register)
    }

    /// The spool is replayed: the seq to report placed with its rows, and the
    /// next free seq.
    pub fn finish(&self) -> (r: (Option<(u64, u64)>, u64))
        requires
            self.wf(),
            self.first_seq() < u64::MAX,
        ensures
            match r.0 {
                Some((seq, rows)) => self.placed() > 0 && seq == self.first_seq() && rows
                    == self.placed() && r.1 == self.first_seq() + 1,
                None => self.placed() == 0 && r.1 == self.first_seq(),
            },
    {
        if self.open {
            (Some((self.first_seq, self.placed)), self.first_seq + 1)
        } else {
            (None, self.first_seq)
        }
    }
}

/// A chunk of an out-of-line value, as its mirror stores it.
#[derive(Debug)]
pub struct ToastRow {
    pub toast_relid: u32,
    pub blkno: u32,
    pub offnum: u16,
    pub chunk_id: u32,
    pub chunk_seq: i32,
    pub chunk_data: Vec<u8>,
    /// Position of the evidence.
    pub lsn: u64,
}

/// The mirror row of a walked chunk tuple, if its columns are those of a
/// chunk. A backup can be torn, so any row out of the log outranks it.
pub fn row_from_columns(
    chunk: Option<(u32, i32, Vec<u8>)>,
    toast_relid: u32,
    blkno: u32,
    offnum: u16,
) -> (r: Option<ToastRow>)
    ensures
        match chunk {
            None => r is None,
            Some((chunk_id, chunk_seq, chunk_data)) => r == Some(
                ToastRow {
                    toast_relid,
                    blkno,
                    offnum,
                    chunk_id,
                    chunk_seq,
                    chunk_data,
                    lsn: 0,
                },
            ),
        },
{
    match chunk {
        None => None,
        Some((chunk_id, chunk_seq, chunk_data)) => Some(
            ToastRow { toast_relid, blkno, offnum, chunk_id, chunk_seq, chunk_data, lsn: 0 },
        ),
    }
}

/// Whether a round of so many rows and bytes may grow.
pub open spec fn has_room(rows: usize, need: usize, resident: usize) -> bool {
    rows < REPLAY_BATCH_ROWS && need + resident < REPLAY_FETCH_BYTES
}

/// Whether a replay round takes another row: `need` bytes will be fetched for
/// it, `resident` are held.
pub fn round_has_room(rows: usize, need: usize, resident: usize) -> (r: bool)
    ensures
        r == has_room(rows, need, resident),
{
    rows < REPLAY_BATCH_ROWS && need < REPLAY_FETCH_BYTES && resident < REPLAY_FETCH_BYTES - need
}

/// A mapped column that is stored out of line: its place in the tuple, its
/// place in the mapping, and the pointer.
#[derive(Debug, Clone, Copy, PartialEq, Eq, Structural)]
pub struct PointerSite {
    pub idx: usize,
    pub col: usize,
    pub p: ToastPointer,
}

/// The pointer that fills mapping column `col`, if it is one.
pub open spec fn site_at(
    columns: Seq<Option<ColumnValue>>,
    mapped: Seq<ColumnMappingView>,
    col: int,
) -> Option<PointerSite> {
    let idx = mapped[col].src_attnum - 1;
    if 0 <= idx < columns.len() {
        match columns[idx] {
            Some(ColumnValue::ExternalToast(p)) => Some(
                PointerSite { idx: idx as usize, col: col as usize, p },
            ),
            _ => None,
        }
    } else {
        None
    }
}

/// The pointers among the first `n` mapped columns, in mapping order.
pub open spec fn sites(
    columns: Seq<Option<ColumnValue>>,
    mapped: Seq<ColumnMappingView>,
    n: int,
) -> Seq<PointerSite>
    decreases n,
{
    if n <= 0 {
        Seq::empty()
    } else {
        let rest = sites(columns, mapped, n - 1);
        match site_at(columns, mapped, n - 1) {
            Some(s) => rest.push(s),
            None => rest,
        }
    }
}

/// The out-of-line values of a tuple's mapped columns; columns that are not
/// shipped do not count.
pub fn mapped_pointers(columns: &Vec<Option<ColumnValue>>, mapping: &TableMapping) -> (r: Vec<
    PointerSite,
>)
    ensures
        r@ == sites(columns@, column_views(mapping.columns@), mapping.columns@.len() as int),
{
    let ghost mapped = column_views(mapping.columns@);
    let mut out: Vec<PointerSite> = Vec::new();
    let mut i: usize = 0;
    while i < mapping.columns.len()
        invariant
            i <= mapping.columns@.len(),
            mapped == column_views(mapping.columns@),
            out@ == sites(columns@, mapped, i as int),
        decreases mapping.columns@.len() - i,
    {
        proof {
            assert(mapped[i as int] == mapping.columns@[i as int]@);
        }
        let attnum: i16 = mapping.columns[i].src_attnum;
        if attnum >= 1 && ((attnum - 1) as usize) < columns.len() {
            let idx: usize = (attnum - 1) as usize;
            if let Some(ColumnValue::ExternalToast(p)) = &columns[idx] {
                out.push(PointerSite { idx, col: i, p: *p });
            }
        }
        i = i + 1;
    }
    out
}

/// What fetching a value came to.
#[derive(Debug)]
pub enum FetchedCell {
    /// There is no store to consult: the column is filled.
    NoStore,
    /// The value was assembled; decompressing it gave the column and its
    /// size, or an error.
    Finished(Result<(ColumnValue, usize), String>),
    /// The chunks do not add up to the pointer's size.
    Mismatch { got: u64 },
    Missing,
}

/// The error of a value that the store does not have as the pointer says.
pub open spec fn miss_text(
    rel: RelKey,
    target: Seq<char>,
    p: ToastPointer,
    detail: Seq<char>,
) -> Seq<char> {
    "bootstrap: relation "@ + rel.text() + " column "@ + target + " value_id="@ + dec(
        p.va_valueid as nat,
    ) + " on toast relid="@ + dec(p.va_toastrelid as nat) + ": "@ + detail
        + "; remedy: fresher backup, or initial_load='copy'"@
}

pub open spec fn mismatch_detail(got: u64, extsize: u64) -> Seq<char> {
    "chunks sum to "@ + dec(got as nat) + " bytes, pointer says "@ + dec(extsize as nat)
}

/// What one fetch comes to, for its column.
pub open spec fn fetched_column(
    fetched: FetchedCell,
    p: ToastPointer,
    extsize: u64,
    rel: RelKey,
    target: Seq<char>,
    r: Result<(ColumnValue, usize), String>,
) -> bool {
    match fetched {
        FetchedCell::NoStore => r == Ok::<_, String>((ColumnValue::Null, 0usize)),
        FetchedCell::Finished(f) => r == f,
        FetchedCell::Mismatch { got } => r is Err && r->Err_0@ == miss_text(
            rel,
            target,
            p,
            mismatch_detail(got, extsize),
        ),
        FetchedCell::Missing => r is Err && r->Err_0@ == miss_text(
            rel,
            target,
            p,
            "has no chunks in the store"@,
        ),
    }
}

/// Turn a fetch into the column that its row routes, with the bytes that it
/// retains. The walk stored these chunks moments earlier, so a value that is
/// missing is a fault and never filled.
pub fn apply_fetched(
    fetched: FetchedCell,
    p: &ToastPointer,
    extsize: u64,
    rel: &RelName,
    target: &str,
) -> (r: Result<(ColumnValue, usize), String>)
    ensures
        fetched_column(fetched, *p, extsize, rel@, target@, r),
{
    let detail: String = match fetched {
        FetchedCell::NoStore => {
            return Ok((ColumnValue::Null, 0));
        },
        FetchedCell::Finished(f) => {
            return f;
        },
        FetchedCell::Mismatch { got } => {
            let mut d: String = String::from_str("chunks sum to ");
            push_dec(&mut d, got);
            d.append(" bytes, pointer says ");
            push_dec(&mut d, extsize);
            d
        },
        FetchedCell::Missing => String::from_str("has no chunks in the store"),
    };
    let mut m: String = String::from_str("bootstrap: relation ");
    m.append(rel.to_text().as_str());
    m.append(" column ");
    m.append(target);
    m.append(" value_id=");
    push_dec(&mut m, p.va_valueid as u64);
    m.append(" on toast relid=");
    push_dec(&mut m, p.va_toastrelid as u64);
    m.append(": ");
    m.append(detail.as_str());
    m.append("; remedy: fresher backup, or initial_load='copy'");
    Err(m)
}

} // verus!

//! Validated plan spool: one checksummed byte stream per planned transaction.
//!
//! Frame layout after the 4-byte `magic + version` header:
//! `[len:u32][crc32c:u32][body]`, body tag 0 = heap
//! (`dict_id:u32 + route_id:u32 + heap bytes`), tag 1 = seal
//! (`heap_count:u64`). A missing seal means planning never finished; trailing
//! bytes after it mean corruption. `route_id == u32::MAX` is the
//! deterministically unmapped row, a planned and counted discard.
//!
//! Bounded metadata (descriptor dictionary, route table, control entries)
//! stays in the plan header. Descriptors and routes are known by the key that
//! their owner gives them; heap bytes are the owner's encoding.
use vstd::prelude::*;
use vstd::string::*;

use crate::text::{dec, push_dec};
use crate::wire::{append_all, le_bytes, lemma_le_bytes_len, push_u32, push_u64};

verus! {

pub const PLAN_VERSION: u16 = 1;

/// Plans at or below this size stay in memory: the common single-statement
/// commit never touches the filesystem.
pub const DEFAULT_PLAN_MEM_MAX: u64 = 0x10_0000;

pub const TAG_HEAP: u8 = 0;

pub const TAG_SEAL: u8 = 1;

/// `route_id` of an unmapped row.
pub const ROUTE_NONE: u32 = 0xffff_ffff;

/// The CRC-32C checksum of `data`.
pub uninterp spec fn crc32c_of(data: Seq<u8>) -> u32;

/// `crc32c::crc32c` computes the CRC-32C checksum, a function of the bytes
/// alone.
pub assume_specification[ crc32c::crc32c ](data: &[u8]) -> (r: u32)
    ensures
        r == crc32c_of(data@),
;

#[derive(Debug)]
pub enum PlanSpoolError {
    Io(String),
    Format { detail: String },
    Corrupt { offset: u64 },
    DiskBudget { needed: u64, cap: u64 },
    Unsealed,
}

/// A spool error as a mathematical value.
pub enum SpoolErrorView {
    Io(Seq<char>),
    Format(Seq<char>),
    Corrupt(u64),
    DiskBudget(u64, u64),
    Unsealed,
}

impl View for PlanSpoolError {
    type V = SpoolErrorView;

    open spec fn view(&self) -> SpoolErrorView {
        match self {
            PlanSpoolError::Io(m) => SpoolErrorView::Io(m@),
            PlanSpoolError::Format { detail } => SpoolErrorView::Format(detail@),
            PlanSpoolError::Corrupt { offset } => SpoolErrorView::Corrupt(*offset),
            PlanSpoolError::DiskBudget { needed, cap } => SpoolErrorView::DiskBudget(*needed, *cap),
            PlanSpoolError::Unsealed => SpoolErrorView::Unsealed,
        }
    }
}

impl SpoolErrorView {
    /// The error in words.
    pub open spec fn text(self) -> Seq<char> {
        match self {
            SpoolErrorView::Io(m) => "plan spool io: "@ + m,
            SpoolErrorView::Format(m) => "plan spool format: "@ + m,
            SpoolErrorView::Corrupt(o) => "plan frame checksum mismatch at offset "@ + dec(
                o as nat,
            ),
            SpoolErrorView::DiskBudget(n, c) => "plan spool "@ + dec(n as nat)
                + " bytes exceeds disk budget "@ + dec(c as nat),
            SpoolErrorView::Unsealed => "plan spool ends without seal; planning did not finish"@,
        }
    }
}

impl PlanSpoolError {
    /// The error in words.
    pub fn to_text(&self) -> (r: String)
        ensures
            r@ == self@.text(),
    {
        match self {
            PlanSpoolError::Io(m) => String::from_str("plan spool io: ").concat(m.as_str()),
            PlanSpoolError::Format { detail } => String::from_str("plan spool format: ").concat(
                detail.as_str(),
            ),
            PlanSpoolError::Corrupt { offset } => {
                let mut s: String = String::from_str("plan frame checksum mismatch at offset ");
                push_dec(&mut s, *offset);
                s
            },
            PlanSpoolError::DiskBudget { needed, cap } => {
                let mut s: String = String::from_str("plan spool ");
                push_dec(&mut s, *needed);
                s.append(" bytes exceeds disk budget ");
                push_dec(&mut s, *cap);
                s
            },
            PlanSpoolError::Unsealed => String::from_str(
                "plan spool ends without seal; planning did not finish",
            ),
        }
    }

    fn format(detail: String) -> (e: PlanSpoolError)
        ensures
            e@ == SpoolErrorView::Format(detail@),
    {
        PlanSpoolError::Format { detail }
    }
}

/// `a`, `n` in decimal, `b`, `m` in decimal, `c`.
pub open spec fn counted(a: Seq<char>, n: nat, b: Seq<char>, m: nat, c: Seq<char>) -> Seq<char> {
    a + dec(n) + b + dec(m) + c
}

/// A control entry: replays before heap `heap_idx`, and fences the plan's
/// mirror rows below `row_idx`.
#[derive(Debug)]
pub struct OrderedEvent<E> {
    pub heap_idx: u64,
    pub row_idx: usize,
    pub event: E,
}

/// One write of the planner: a control, or a heap by its header ids.
pub enum LogStep<E> {
    Control(OrderedEvent<E>),
    Heap { dict_id: u32, route_id: u32, heap: Seq<u8> },
}

pub open spec fn header() -> Seq<u8> {
    seq![87u8, 80u8] + le_bytes(PLAN_VERSION as int, 2)
}

/// A frame around `body`.
pub open spec fn frame(body: Seq<u8>) -> Seq<u8> {
    le_bytes(body.len() as int, 4) + le_bytes(crc32c_of(body) as int, 4) + body
}

pub open spec fn heap_body(dict_id: u32, route_id: u32, heap: Seq<u8>) -> Seq<u8> {
    seq![TAG_HEAP] + le_bytes(dict_id as int, 4) + le_bytes(route_id as int, 4) + heap
}

pub open spec fn seal_body(heap_count: u64) -> Seq<u8> {
    seq![TAG_SEAL] + le_bytes(heap_count as int, 8)
}

pub open spec fn step_bytes<E>(s: LogStep<E>) -> Seq<u8> {
    match s {
        LogStep::Control(_) => Seq::empty(),
        LogStep::Heap { dict_id, route_id, heap } => frame(heap_body(dict_id, route_id, heap)),
    }
}

/// The frames of a log, in order.
pub open spec fn frames<E>(log: Seq<LogStep<E>>) -> Seq<u8>
    decreases log.len(),
{
    if log.len() == 0 {
        Seq::empty()
    } else {
        frames(log.drop_last()) + step_bytes(log.last())
    }
}

pub open spec fn heaps_in<E>(log: Seq<LogStep<E>>) -> nat
    decreases log.len(),
{
    if log.len() == 0 {
        0
    } else {
        heaps_in(log.drop_last()) + (if log.last() is Heap {
            1nat
        } else {
            0
        })
    }
}

/// The control entries of a log, in order.
pub open spec fn controls_in<E>(log: Seq<LogStep<E>>) -> Seq<OrderedEvent<E>>
    decreases log.len(),
{
    if log.len() == 0 {
        Seq::empty()
    } else {
        match log.last() {
            LogStep::Control(c) => controls_in(log.drop_last()).push(c),
            LogStep::Heap { .. } => controls_in(log.drop_last()),
        }
    }
}

/// A heap frame's ids resolve in the header, its body fits a frame.
pub open spec fn step_ok<E>(s: LogStep<E>, descriptors: nat, routes: nat) -> bool {
    match s {
        LogStep::Control(_) => true,
        LogStep::Heap { dict_id, route_id, heap } => {
            &&& dict_id < descriptors
            &&& route_id == ROUTE_NONE || route_id < routes
            &&& heap.len() + 9 <= u32::MAX
        },
    }
}

/// Each control is pinned behind the heaps that were written before it.
pub open spec fn log_ok<E>(log: Seq<LogStep<E>>, descriptors: nat, routes: nat) -> bool {
    &&& forall|i: int| 0 <= i < log.len() ==> step_ok(#[trigger] log[i], descriptors, routes)
    &&& forall|i: int|
        0 <= i < log.len() ==> match #[trigger] log[i] {
            LogStep::Control(c) => c.heap_idx == heaps_in(log.subrange(0, i)),
            LogStep::Heap { .. } => true,
        }
}

/// `list` with `key` at its end unless it holds it already.
pub open spec fn with_key<K>(list: Seq<K>, key: K) -> Seq<K> {
    if list.contains(key) {
        list
    } else {
        list.push(key)
    }
}

/// The write is of this heap, under the header's entries for its descriptor
/// and route.
pub open spec fn writes_heap<E>(
    step: LogStep<E>,
    descriptors: Seq<(u64, u64)>,
    routes: Seq<u64>,
    desc: (u64, u64),
    route: Option<u64>,
    heap: Seq<u8>,
) -> bool {
    match step {
        LogStep::Heap { dict_id, route_id, heap: h } => {
            &&& h == heap
            &&& dict_id < descriptors.len() && descriptors[dict_id as int] == desc
            &&& match route {
                None => route_id == ROUTE_NONE,
                Some(k) => route_id != ROUTE_NONE && route_id < routes.len()
                    && routes[route_id as int] == k,
            }
        },
        LogStep::Control(_) => false,
    }
}

/// Streams one transaction's validated heaps while it gathers the bounded
/// plan header. Bytes gather in memory; once the plan outgrows `mem_max` they
/// belong in the file at `path`, and [`PlanWriter::take_spilled`] hands them
/// over.
pub struct PlanWriter<E> {
    path: String,
    mem_max: u64,
    cap: u64,
    spilled: bool,
    /// Bytes not handed over yet.
    pending: Vec<u8>,
    handed_over: Ghost<Seq<u8>>,
    bytes: u64,
    heap_count: u64,
    routed_count: u64,
    descriptors: Vec<(u64, u64)>,
    routes: Vec<u64>,
    controls: Vec<OrderedEvent<E>>,
    row_batches: Vec<Vec<u64>>,
    truncate_rows: Vec<usize>,
    log: Ghost<Seq<LogStep<E>>>,
}

/// A writer as a mathematical value.
pub struct WriterView<E> {
    pub path: Seq<char>,
    pub mem_max: u64,
    pub cap: u64,
    /// The plan belongs in its file.
    pub spilled: bool,
    /// Everything written so far, header first.
    pub bytes: Seq<u8>,
    /// How many of the bytes have been handed over for the file.
    pub handed_over: nat,
    /// The writes so far.
    pub log: Seq<LogStep<E>>,
    pub routed_count: u64,
    pub descriptors: Seq<(u64, u64)>,
    pub routes: Seq<u64>,
    pub row_batches: Seq<Seq<u64>>,
    pub truncate_rows: Seq<usize>,
}

impl<E> WriterView<E> {
    pub open spec fn wf(self) -> bool {
        &&& self.bytes == header() + frames(self.log)
        &&& log_ok(self.log, self.descriptors.len(), self.routes.len())
        &&& self.bytes.len() <= u64::MAX
        &&& self.handed_over <= self.bytes.len()
        &&& !self.spilled ==> self.handed_over == 0
        &&& self.spilled == (heaps_in(self.log) > 0 && self.bytes.len() > self.mem_max)
        &&& self.descriptors.no_duplicates()
        &&& self.routes.no_duplicates()
    }

    /// The bytes of the plan with its seal.
    pub open spec fn sealed(self) -> Seq<u8> {
        self.bytes + frame(seal_body(heaps_in(self.log) as u64))
    }

    /// `plan` is what is written so far, sealed: in memory as long as it fits
    /// there, else in the file, of which `rest` is not handed over yet.
    pub open spec fn seals_to(
        self,
        commit_lsn: u64,
        commit_ts: i64,
        plan: SealedPlan<E>,
        rest: Seq<u8>,
    ) -> bool {
        &&& plan@ == (PlanView::<E> {
            descriptors: self.descriptors,
            routes: self.routes,
            controls: controls_in(self.log),
            heap_count: heaps_in(self.log) as u64,
            size_bytes: self.sealed().len() as u64,
        })
        &&& plan.row_batches@.map_values(|v: Vec<u64>| v@) == self.row_batches
        &&& plan.truncate_rows@ == self.truncate_rows
        &&& plan.routed_count == self.routed_count
        &&& plan.commit_lsn == commit_lsn
        &&& plan.commit_ts == commit_ts
        &&& encodes(plan@, self.sealed(), self.log)
        &&& match plan.store {
            PlanStore::Mem(bytes) => {
                &&& self.sealed().len() <= self.mem_max
                &&& bytes@ == self.sealed()
                &&& rest.len() == 0
            },
            PlanStore::File(path) => {
                &&& self.sealed().len() > self.mem_max
                &&& path@ == self.path
                &&& rest == self.sealed().subrange(
                    self.handed_over as int,
                    self.sealed().len() as int,
                )
            },
        }
    }

    /// The frame that a heap write adds.
    pub open spec fn heap_frame_len(heap: Seq<u8>) -> nat {
        (8 + 9 + heap.len()) as nat
    }

    /// Why the disk budget does not allow the heap, if it does not.
    pub open spec fn over_budget(self, heap: Seq<u8>) -> Option<SpoolErrorView> {
        let needed = self.bytes.len() + Self::heap_frame_len(heap);
        if needed > self.cap {
            Some(SpoolErrorView::DiskBudget(needed as u64, self.cap))
        } else {
            None
        }
    }

    /// The writer with a descriptor and a route in its header; what is there
    /// already keeps its place.
    pub open spec fn with_keys(self, desc: (u64, u64), route: Option<u64>) -> WriterView<E> {
        WriterView {
            descriptors: with_key(self.descriptors, desc),
            routes: match route {
                Some(k) => with_key(self.routes, k),
                None => self.routes,
            },
            ..self
        }
    }

    /// `post` is the writer with one more heap, under its descriptor and route.
    pub open spec fn took_heap(
        self,
        desc: (u64, u64),
        route: Option<u64>,
        heap: Seq<u8>,
        post: WriterView<E>,
    ) -> bool {
        let needed = self.bytes.len() + Self::heap_frame_len(heap);
        &&& post.log.len() == self.log.len() + 1
        &&& post.log.drop_last() == self.log
        &&& post.writes_last(desc, route, heap)
        &&& post.bytes == self.bytes + step_bytes(post.log.last())
        &&& post.bytes.len() == needed
        &&& post.routed_count == self.routed_count + (if route is Some {
            1int
        } else {
            0
        })
        &&& post == (WriterView::<E> {
            routed_count: post.routed_count,
            spilled: self.spilled || needed > self.mem_max,
            bytes: post.bytes,
            log: post.log,
            ..self.with_keys(desc, route)
        })
    }

    /// The last write is of this heap.
    pub open spec fn writes_last(
        self,
        desc: (u64, u64),
        route: Option<u64>,
        heap: Seq<u8>,
    ) -> bool {
        writes_heap(self.log.last(), self.descriptors, self.routes, desc, route, heap)
    }

    /// The writer with a control pinned behind the heaps so far.
    pub open spec fn with_control(self, event: E, row_idx: usize) -> WriterView<E> {
        WriterView {
            log: self.log.push(
                LogStep::Control(
                    OrderedEvent { heap_idx: heaps_in(self.log) as u64, row_idx, event },
                ),
            ),
            ..self
        }
    }

    /// The writer with one more batch of mirror rows; an empty one is not
    /// carried.
    pub open spec fn with_rows(self, rows: Seq<u64>) -> WriterView<E> {
        WriterView {
            row_batches: if rows.len() == 0 {
                self.row_batches
            } else {
                self.row_batches.push(rows)
            },
            ..self
        }
    }

    /// The writer with one more truncate fence.
    pub open spec fn with_fence(self, upto: usize) -> WriterView<E> {
        WriterView { truncate_rows: self.truncate_rows.push(upto), ..self }
    }

    /// `chunk` is what belongs in the file and was not handed over, and `post`
    /// the writer behind it.
    pub open spec fn hands_over(self, chunk: Seq<u8>, post: WriterView<E>) -> bool {
        if self.spilled {
            &&& chunk == self.bytes.subrange(self.handed_over as int, self.bytes.len() as int)
            &&& post == (WriterView::<E> { handed_over: self.bytes.len(), ..self })
        } else {
            chunk.len() == 0 && post == self
        }
    }

    /// A writer that has written nothing.
    pub open spec fn fresh(path: Seq<char>, cap: u64, mem_max: u64) -> WriterView<E> {
        WriterView {
            path,
            mem_max,
            cap,
            spilled: false,
            bytes: header(),
            handed_over: 0,
            log: Seq::empty(),
            routed_count: 0,
            descriptors: Seq::empty(),
            routes: Seq::empty(),
            row_batches: Seq::empty(),
            truncate_rows: Seq::empty(),
        }
    }

    /// Ids, lengths and offsets are wide enough for a heap of `len` bytes.
    pub open spec fn has_room(self, len: nat) -> bool {
        &&& self.descriptors.len() < u32::MAX
        &&& self.routes.len() < ROUTE_NONE
        &&& len + 9 <= u32::MAX
        &&& self.bytes.len() + 17 + len <= u64::MAX
    }

    /// Offsets are wide enough for the seal.
    pub open spec fn has_seal_room(self) -> bool {
        self.bytes.len() + 17 <= u64::MAX
    }
}

impl<E> View for PlanWriter<E> {
    type V = WriterView<E>;

    closed spec fn view(&self) -> WriterView<E> {
        WriterView {
            path: self.path@,
            mem_max: self.mem_max,
            cap: self.cap,
            spilled: self.spilled,
            bytes: self.handed_over@ + self.pending@,
            handed_over: self.handed_over@.len(),
            log: self.log@,
            routed_count: self.routed_count,
            descriptors: self.descriptors@,
            routes: self.routes@,
            row_batches: self.row_batches@.map_values(|v: Vec<u64>| v@),
            truncate_rows: self.truncate_rows@,
        }
    }
}

impl<E> PlanWriter<E> {
    pub closed spec fn wf(&self) -> bool {
        &&& self@.wf()
        &&& self.bytes == self@.bytes.len()
        &&& self.heap_count == heaps_in(self.log@)
        &&& self.routed_count <= self.heap_count
        &&& self.controls@ == controls_in(self.log@)
    }

    pub proof fn lemma_wf_view(&self)
        requires
            self.wf(),
        ensures
            self@.wf(),
    {
    }

    /// Starts in memory; the file at `path` is only needed once the plan
    /// outgrows `mem_max`.
    pub fn create(path: String, cap: u64, mem_max: u64) -> (w: Self)
        ensures
            w.wf(),
            w@ == WriterView::<E>::fresh(path@, cap, mem_max),
    {
        let mut pending: Vec<u8> = Vec::new();
        pending.push(87u8);
        pending.push(80u8);
        crate::wire::push_le(&mut pending, PLAN_VERSION as u64, 2);
        proof {
            lemma_le_bytes_len(PLAN_VERSION as int, 2);
            assert(pending@ =~= header());
            assert(header() + frames(Seq::<LogStep<E>>::empty()) =~= header());
        }
        let w = PlanWriter {
            path,
            mem_max,
            cap,
            spilled: false,
            pending,
            handed_over: Ghost(Seq::empty()),
            bytes: 4,
            heap_count: 0,
            routed_count: 0,
            descriptors: Vec::new(),
            routes: Vec::new(),
            controls: Vec::new(),
            row_batches: Vec::new(),
            truncate_rows: Vec::new(),
            log: Ghost(Seq::empty()),
        };
        proof {
            assert(w@.bytes =~= header());
            assert(w@.row_batches =~= Seq::empty());
        }
        w
    }

    /// Bytes written so far, header included.
    pub fn bytes(&self) -> (n: u64)
        requires
            self.wf(),
        ensures
            n == self@.bytes.len(),
    {
        self.bytes
    }

    /// Whether a heap of `len` bytes can be written.
    pub fn room_for(&self, len: usize) -> (r: bool)
        requires
            self.wf(),
        ensures
            r == self@.has_room(len as nat),
    {
        (self.descriptors.len() as u64) < u32::MAX as u64 && (self.routes.len() as u64)
            < ROUTE_NONE as u64 && len as u128 + 9 <= u32::MAX as u128 && self.bytes as u128 + 17
            + len as u128 <= u64::MAX as u128
    }

    /// Whether the plan can be sealed.
    pub fn room_to_seal(&self) -> (r: bool)
        requires
            self.wf(),
        ensures
            r == self@.has_seal_room(),
    {
        self.bytes as u128 + 17 <= u64::MAX as u128
    }

    /// Append one validated heap with the route it planned under. Descriptor
    /// and route enter the plan header once per key.
    #[verifier::spinoff_prover]
    #[verifier::rlimit(60)]
    pub fn push_heap(
        &mut self,
        desc: (u64, u64),
        route: Option<u64>,
        heap: &[u8],
    ) -> (r: Result<(), PlanSpoolError>)
        requires
            old(self).wf(),
            old(self)@.has_room(heap@.len()),
        ensures
            final(self).wf(),
            written(old(self)@, final(self)@),
            match old(self)@.over_budget(heap@) {
                Some(e) => {
                    &&& r is Err && r->Err_0@ == e
                    &&& final(self)@ == old(self)@.with_keys(desc, route)
                },
                None => r is Ok && old(self)@.took_heap(desc, route, heap@, final(self)@),
            },
    {
        let ghost pre = self@;
        let dict_id: u32 = intern_desc(&mut self.descriptors, desc);
        let route_id: u32 = match route {
            Some(k) => intern_route(&mut self.routes, k),
            None => ROUTE_NONE,
        };
        proof {
            lemma_with_key(pre.descriptors, desc);
            if let Some(k) = route {
                lemma_with_key(pre.routes, k);
            }
            assert forall|i: int| 0 <= i < self.log@.len() implies step_ok(
                #[trigger] self.log@[i],
                self.descriptors@.len(),
                self.routes@.len(),
            ) by {
                assert(step_ok(pre.log[i], pre.descriptors.len(), pre.routes.len()));
            }
            lemma_le_bytes_len(dict_id as int, 4);
            lemma_le_bytes_len(route_id as int, 4);
        }
        let mut body: Vec<u8> = Vec::new();
        body.push(TAG_HEAP);
        push_u32(&mut body, dict_id);
        push_u32(&mut body, route_id);
        append_all(&mut body, heap);
        proof {
            assert(body@ =~= heap_body(dict_id, route_id, heap@));
        }
        let ghost mid = self@;
        match self.write_frame(&body, false) {
            Ok(()) => {},
            Err(e) => {
                return Err(e);
            },
        }
        proof {
            let step = LogStep::<E>::Heap { dict_id, route_id, heap: heap@ };
            let next = pre.log.push(step);
            assert(next.drop_last() =~= pre.log);
            assert(frames(next) == frames(pre.log) + frame(body@));
            assert(self@.bytes =~= header() + frames(next));
            assert forall|i: int| 0 <= i < next.len() implies match #[trigger] next[i] {
                LogStep::Control(c) => c.heap_idx == heaps_in(next.subrange(0, i)),
                LogStep::Heap { .. } => true,
            } by {
                if i < pre.log.len() {
                    assert(next[i] == pre.log[i]);
                    assert(next.subrange(0, i) =~= pre.log.subrange(0, i));
                }
            }
            lemma_heaps_bounded(pre.log);
            lemma_frame_len(body@);
            assert forall|i: int| 0 <= i < next.len() implies step_ok(
                #[trigger] next[i],
                self.descriptors@.len(),
                self.routes@.len(),
            ) by {
                if i < pre.log.len() {
                    assert(next[i] == self.log@[i]);
                }
            }
            self.log@ = next;
        }
        self.heap_count = self.heap_count + 1;
        if route.is_some() {
            self.routed_count = self.routed_count + 1;
        }
        Ok(())
    }


    /// Pin a control entry before the next heap: replay yields it ahead of
    /// the heap that is written next. `row_idx` is the plan-global mirror-row
    /// position that it fences.
    pub fn push_control(&mut self, event: E, row_idx: usize)
        requires
            old(self).wf(),
        ensures
            final(self).wf(),
            written(old(self)@, final(self)@),
            final(self)@ == old(self)@.with_control(event, row_idx),
    {
        let ghost pre = self@;
        let c = OrderedEvent { heap_idx: self.heap_count, row_idx, event };
        proof {
            let next = pre.log.push(LogStep::Control(c));
            assert(next.drop_last() =~= pre.log);
            assert(frames(next) =~= frames(pre.log));
            assert forall|i: int| 0 <= i < next.len() implies match #[trigger] next[i] {
                LogStep::Control(c) => c.heap_idx == heaps_in(next.subrange(0, i)),
                LogStep::Heap { .. } => true,
            } by {
                assert(next.subrange(0, i) =~= pre.log.subrange(0, i));
                if i < pre.log.len() {
                    assert(next[i] == pre.log[i]);
                } else {
                    assert(pre.log.subrange(0, i) =~= pre.log);
                }
            }
            assert forall|i: int| 0 <= i < next.len() implies step_ok(
                #[trigger] next[i],
                pre.descriptors.len(),
                pre.routes.len(),
            ) by {
                if i < pre.log.len() {
                    assert(step_ok(pre.log[i], pre.descriptors.len(), pre.routes.len()));
                }
            }
            self.log@ = next;
        }
        self.controls.push(c);
    }

    /// Carry one batch's mirror-row references. Control and truncate fences
    /// index the concatenation of the carried batches; an empty batch is not
    /// carried.
    pub fn push_rows(&mut self, rows: Vec<u64>)
        requires
            old(self).wf(),
        ensures
            final(self).wf(),
            written(old(self)@, final(self)@),
            final(self)@ == old(self)@.with_rows(rows@),
    {
        if rows.len() > 0 {
            self.row_batches.push(rows);
            proof {
                assert(self@.row_batches =~= old(self)@.row_batches.push(rows@));
            }
        }
    }

    /// Mirror-row fence for the next truncate heap: rows up to `upto` are put
    /// before the truncate applies.
    pub fn note_truncate_cursor(&mut self, upto: usize)
        requires
            old(self).wf(),
        ensures
            final(self).wf(),
            written(old(self)@, final(self)@),
            final(self)@ == old(self)@.with_fence(upto),
    {
        self.truncate_rows.push(upto);
    }

    /// Hand over the bytes that belong in the file and are not there yet.
    pub fn take_spilled(&mut self) -> (chunk: Vec<u8>)
        requires
            old(self).wf(),
        ensures
            final(self).wf(),
            old(self)@.hands_over(chunk@, final(self)@),
    {
        let mut chunk: Vec<u8> = Vec::new();
        if self.spilled {
            chunk.append(&mut self.pending);
            proof {
                let before = self.handed_over@;
                self.handed_over@ = before + chunk@;
                assert(self@.bytes =~= old(self)@.bytes);
                assert(chunk@ =~= old(self)@.bytes.subrange(
                    old(self)@.handed_over as int,
                    old(self)@.bytes.len() as int,
                ));
            }
        }
        chunk
    }

    /// Write the seal frame and freeze the header. The seal is exempt from
    /// the disk budget so a boundary-sized transaction still closes cleanly.
    /// Also returns the bytes that still belong in the file.
    pub fn seal(self, commit_lsn: u64, commit_ts: i64) -> (r: (SealedPlan<E>, Vec<u8>))
        requires
            self.wf(),
            self@.has_seal_room(),
        ensures
            self@.seals_to(commit_lsn, commit_ts, r.0, r.1@),
    {
        let mut w = self;
        let ghost pre = self@;
        proof {
            lemma_le_bytes_len(w.heap_count as int, 8);
        }
        let mut body: Vec<u8> = Vec::new();
        body.push(TAG_SEAL);
        push_u64(&mut body, w.heap_count);
        proof {
            assert(body@ =~= seal_body(w.heap_count));
        }
        let exempt: Result<(), PlanSpoolError> = w.write_frame(&body, true);
        let ghost sealed = w@.bytes;
        let mut pending: Vec<u8> = Vec::new();
        pending.append(&mut w.pending);
        let store = if w.spilled {
            let mut chunk: Vec<u8> = Vec::new();
            chunk.append(&mut pending);
            pending = chunk;
            PlanStore::File(w.path)
        } else {
            let mut buf: Vec<u8> = Vec::new();
            buf.append(&mut pending);
            PlanStore::Mem(buf)
        };
        let plan = SealedPlan {
            store,
            descriptors: w.descriptors,
            routes: w.routes,
            controls: w.controls,
            row_batches: w.row_batches,
            truncate_rows: w.truncate_rows,
            heap_count: w.heap_count,
            routed_count: w.routed_count,
            size_bytes: w.bytes,
            commit_lsn,
            commit_ts,
        };
        proof {
            lemma_frame_len(body@);
            assert(sealed == pre.sealed());
            assert(plan.row_batches@.map_values(|v: Vec<u64>| v@) =~= pre.row_batches);
            assert(encodes(plan@, sealed, pre.log));
            if plan.store is Mem {
                assert(plan.store->Mem_0@ =~= sealed);
            } else {
                assert(pending@ =~= sealed.subrange(pre.handed_over as int, sealed.len() as int));
            }
        }
        (plan, pending)
    }

    fn write_frame(&mut self, body: &Vec<u8>, budget_exempt: bool) -> (r: Result<
        (),
        PlanSpoolError,
    >)
        requires
            old(self).bytes == old(self)@.bytes.len(),
            body@.len() <= u32::MAX,
            old(self).bytes + 8 + body@.len() <= u64::MAX,
        ensures
            ({
                let needed = old(self).bytes + 8 + body@.len();
                if !budget_exempt && needed > old(self).cap {
                    &&& r is Err
                    &&& r->Err_0@ == SpoolErrorView::DiskBudget(needed as u64, old(self).cap)
                    &&& *final(self) == *old(self)
                } else {
                    &&& r is Ok
                    &&& final(self)@.bytes == old(self)@.bytes + frame(body@)
                    &&& final(self).bytes == needed
                    &&& *final(self) == (PlanWriter {
                        pending: final(self).pending,
                        bytes: final(self).bytes,
                        spilled: old(self).spilled || needed > old(self).mem_max,
                        ..*old(self)
                    })
                }
            }),
    {
        let needed: u64 = self.bytes + 8 + body.len() as u64;
        if !budget_exempt && needed > self.cap {
            return Err(PlanSpoolError::DiskBudget { needed, cap: self.cap });
        }
        if needed > self.mem_max {
            self.spilled = true;
        }
        let crc: u32 = crc32c::crc32c(body.as_slice());
        push_u32(&mut self.pending, body.len() as u32);
        push_u32(&mut self.pending, crc);
        append_all(&mut self.pending, body.as_slice());
        proof {
            assert(self@.bytes =~= old(self)@.bytes + frame(body@));
        }
        self.bytes = needed;
        Ok(())
    }
}

fn intern_desc(list: &mut Vec<(u64, u64)>, key: (u64, u64)) -> (id: u32)
    requires
        old(list)@.len() < u32::MAX,
    ensures
        final(list)@ == with_key(old(list)@, key),
        id < final(list)@.len(),
        final(list)@[id as int] == key,
{
    let mut i: usize = 0;
    while i < list.len()
        invariant
            i <= list@.len() < u32::MAX,
            forall|k: int| 0 <= k < i ==> list@[k] != key,
        decreases list@.len() - i,
    {
        if list[i].0 == key.0 && list[i].1 == key.1 {
            proof {
                assert(list@.contains(list@[i as int]));
            }
            return i as u32;
        }
        i = i + 1;
    }
    list.push(key);
    i as u32
}

fn intern_route(list: &mut Vec<u64>, key: u64) -> (id: u32)
    requires
        old(list)@.len() < ROUTE_NONE,
    ensures
        final(list)@ == with_key(old(list)@, key),
        id < final(list)@.len(),
        id != ROUTE_NONE,
        final(list)@[id as int] == key,
{
    let mut i: usize = 0;
    while i < list.len()
        invariant
            i <= list@.len() < ROUTE_NONE,
            forall|k: int| 0 <= k < i ==> list@[k] != key,
        decreases list@.len() - i,
    {
        if list[i] == key {
            proof {
                assert(list@.contains(list@[i as int]));
            }
            return i as u32;
        }
        i = i + 1;
    }
    list.push(key);
    i as u32
}

/// A log's frames take at least 17 bytes per heap.
/// A key enters once.
proof fn lemma_with_key<K>(list: Seq<K>, key: K)
    requires
        list.no_duplicates(),
    ensures
        with_key(list, key).no_duplicates(),
{
    let next = with_key(list, key);
    assert forall|i: int, j: int|
        0 <= i < next.len() && 0 <= j < next.len() && i != j implies next[i] != next[j] by {
        if i < list.len() && j < list.len() {
            assert(list[i] != list[j]);
        } else if i < list.len() {
            assert(list.contains(list[i]));
        } else if j < list.len() {
            assert(list.contains(list[j]));
        }
    }
}

proof fn lemma_heaps_bounded<E>(log: Seq<LogStep<E>>)
    ensures
        17 * heaps_in(log) <= frames(log).len(),
    decreases log.len(),
{
    if log.len() > 0 {
        lemma_heaps_bounded(log.drop_last());
        if let LogStep::Heap { dict_id, route_id, heap } = log.last() {
            lemma_heap_frame_len(dict_id, route_id, heap);
        }
    }
}

proof fn lemma_heap_frame_len(dict_id: u32, route_id: u32, heap: Seq<u8>)
    ensures
        heap_body(dict_id, route_id, heap).len() == 9 + heap.len(),
        frame(heap_body(dict_id, route_id, heap)).len() == 17 + heap.len(),
{
    lemma_le_bytes_len(dict_id as int, 4);
    lemma_le_bytes_len(route_id as int, 4);
    lemma_frame_len(heap_body(dict_id, route_id, heap));
}

proof fn lemma_frame_len(body: Seq<u8>)
    ensures
        frame(body).len() == 8 + body.len(),
{
    lemma_le_bytes_len(body.len() as int, 4);
    lemma_le_bytes_len(crc32c_of(body) as int, 4);
}

/// One write: the plan grows, and where it belongs stays.
pub open spec fn written<E>(pre: WriterView<E>, post: WriterView<E>) -> bool {
    &&& post.wf()
    &&& post.path == pre.path
    &&& post.mem_max == pre.mem_max
    &&& post.cap == pre.cap
    &&& pre.bytes.len() <= post.bytes.len()
}

/// Whatever was written, a sealed plan has a file exactly if it outgrew the
/// memory that it may take, seal included; and the seal takes 17 bytes.
pub proof fn only_outgrown_plans_have_a_file<E>(
    states: Seq<WriterView<E>>,
    path: Seq<char>,
    mem_max: u64,
    commit_lsn: u64,
    commit_ts: i64,
    plan: SealedPlan<E>,
    rest: Seq<u8>,
)
    requires
        states.len() > 0,
        states[0].path == path,
        states[0].mem_max == mem_max,
        forall|i: int, j: int|
            0 <= i && j == i + 1 && j < states.len() ==> written(
                #[trigger] states[i],
                #[trigger] states[j],
            ),
        states.last().has_seal_room(),
        states.last().seals_to(commit_lsn, commit_ts, plan, rest),
    ensures
        plan.size_bytes == states.last().bytes.len() + 17,
        match plan.store {
            PlanStore::Mem(_) => plan.size_bytes <= mem_max,
            PlanStore::File(p) => plan.size_bytes > mem_max && p@ == path,
        },
{
    lemma_settings_stay(states, states.len() - 1);
    let count = heaps_in(states.last().log) as u64;
    lemma_le_bytes_len(count as int, 8);
    lemma_frame_len(seal_body(count));
    assert(plan@.size_bytes == plan.size_bytes);
}

proof fn lemma_settings_stay<E>(states: Seq<WriterView<E>>, n: int)
    requires
        0 <= n < states.len(),
        forall|i: int, j: int|
            0 <= i && j == i + 1 && j < states.len() ==> written(
                #[trigger] states[i],
                #[trigger] states[j],
            ),
    ensures
        states[n].path == states[0].path,
        states[n].mem_max == states[0].mem_max,
    decreases n,
{
    if n > 0 {
        lemma_settings_stay(states, n - 1);
        assert(written(states[n - 1], states[n]));
    }
}

/// Backing bytes of a sealed plan: memory for small plans, the spool file
/// once spilled.
pub enum PlanStore {
    Mem(Vec<u8>),
    File(String),
}

/// Complete validated plan: the bounded header plus the sealed frame bytes.
pub struct SealedPlan<E> {
    pub store: PlanStore,
    /// Dictionary in first-use order, `(descriptor, valid_from)`.
    pub descriptors: Vec<(u64, u64)>,
    /// Route table in first-use order.
    pub routes: Vec<u64>,
    /// The entry at `heap_idx` replays before that heap.
    pub controls: Vec<OrderedEvent<E>>,
    /// Mirror-row references in plan order.
    pub row_batches: Vec<Vec<u64>>,
    /// Mirror-row fence per truncate heap, in heap order.
    pub truncate_rows: Vec<usize>,
    pub heap_count: u64,
    /// `heap_count` minus unmapped discards.
    pub routed_count: u64,
    /// Sealed bytes, header and seal included.
    pub size_bytes: u64,
    pub commit_lsn: u64,
    pub commit_ts: i64,
}

/// What replay reads of a plan's header.
pub struct PlanView<E> {
    pub descriptors: Seq<(u64, u64)>,
    pub routes: Seq<u64>,
    pub controls: Seq<OrderedEvent<E>>,
    pub heap_count: u64,
    pub size_bytes: u64,
}

impl<E> View for SealedPlan<E> {
    type V = PlanView<E>;

    open spec fn view(&self) -> PlanView<E> {
        PlanView {
            descriptors: self.descriptors@,
            routes: self.routes@,
            controls: self.controls@,
            heap_count: self.heap_count,
            size_bytes: self.size_bytes,
        }
    }
}

/// `input` is the sealed byte stream of `log`, and `p` its header.
pub open spec fn encodes<E>(p: PlanView<E>, input: Seq<u8>, log: Seq<LogStep<E>>) -> bool {
    &&& input == header() + frames(log) + frame(seal_body(heaps_in(log) as u64))
    &&& heaps_in(log) <= u64::MAX
    &&& log_ok(log, p.descriptors.len(), p.routes.len())
    &&& p.controls == controls_in(log)
    &&& p.heap_count == heaps_in(log)
    &&& p.size_bytes == input.len()
}

} // verus!

//! Linear replay of a sealed plan: verifies every frame checksum, resolves
//! dictionary and route ids against the header, and interleaves controls at
//! their pinned positions.
use vstd::prelude::*;
use vstd::string::*;

use crate::pipeline::plan_spool::{
    counted, crc32c_of, OrderedEvent, PlanSpoolError, PlanStore, PlanView, SealedPlan,
    SpoolErrorView, PLAN_VERSION, ROUTE_NONE, TAG_HEAP, TAG_SEAL,
};
use crate::text::{dec, push_dec};
use crate::u256::le_nat;
use crate::wire::{copy_range, read_le, read_u32};

verus! {

/// A replayed heap, with the header entries it resolved to.
#[derive(Debug)]
pub struct RoutedHeap {
    pub descriptor: (u64, u64),
    pub route: Option<u64>,
    pub heap: Vec<u8>,
    /// Where its frame starts in the plan.
    pub frame_offset: u64,
}

pub struct HeapView {
    pub descriptor: (u64, u64),
    pub route: Option<u64>,
    pub heap: Seq<u8>,
    pub frame_offset: u64,
}

impl View for RoutedHeap {
    type V = HeapView;

    open spec fn view(&self) -> HeapView {
        HeapView {
            descriptor: self.descriptor,
            route: self.route,
            heap: self.heap@,
            frame_offset: self.frame_offset,
        }
    }
}

/// One replayed plan step, in the order of planning.
pub enum PlanItem<'p, E> {
    Control(&'p OrderedEvent<E>),
    Heap(RoutedHeap),
}

pub enum ItemView<E> {
    Control(OrderedEvent<E>),
    Heap(HeapView),
}

impl<'p, E> View for PlanItem<'p, E> {
    type V = ItemView<E>;

    open spec fn view(&self) -> ItemView<E> {
        match self {
            PlanItem::Control(c) => ItemView::Control(**c),
            PlanItem::Heap(h) => ItemView::Heap(h@),
        }
    }
}

/// Where a replay stands.
pub struct ReadState {
    pub offset: nat,
    pub next_heap: nat,
    pub next_control: nat,
    pub done: bool,
}

pub open spec fn start_state() -> ReadState {
    ReadState { offset: 4, next_heap: 0, next_control: 0, done: false }
}

/// What a frame's body says.
pub enum FrameView {
    Heap(HeapView),
    Seal,
}

/// A heap frame before its ids are looked up in the header.
#[derive(Debug)]
pub struct HeapBody {
    pub dict_id: u32,
    pub route_id: u32,
    pub heap: Vec<u8>,
    /// Where its frame starts in the plan.
    pub frame_offset: u64,
}

pub struct HeapBodyView {
    pub dict_id: u32,
    pub route_id: u32,
    pub heap: Seq<u8>,
    pub frame_offset: u64,
}

impl View for HeapBody {
    type V = HeapBodyView;

    open spec fn view(&self) -> HeapBodyView {
        HeapBodyView {
            dict_id: self.dict_id,
            route_id: self.route_id,
            heap: self.heap@,
            frame_offset: self.frame_offset,
        }
    }
}

/// What a frame's body holds.
pub enum BodyView {
    Heap(HeapBodyView),
    Seal,
}

pub open spec fn format_err<T>(detail: Seq<char>) -> Result<T, SpoolErrorView> {
    Err(SpoolErrorView::Format(detail))
}

/// What a body whose checksum held holds, or what is wrong with it.
pub open spec fn body_content<E>(
    p: PlanView<E>,
    at: nat,
    next_heap: nat,
    body: Seq<u8>,
) -> Result<BodyView, SpoolErrorView> {
    if body.len() == 0 {
        format_err("empty plan frame"@)
    } else if body[0] == TAG_HEAP {
        if body.len() < 9 {
            format_err("short heap frame"@)
        } else {
            Ok(
                BodyView::Heap(
                    HeapBodyView {
                        dict_id: le_nat(body.subrange(1, 5)) as u32,
                        route_id: le_nat(body.subrange(5, 9)) as u32,
                        heap: body.subrange(9, body.len() as int),
                        frame_offset: at as u64,
                    },
                ),
            )
        }
    } else if body[0] == TAG_SEAL {
        let count = le_nat(body.subrange(1, 9));
        if body.len() < 9 {
            format_err("short seal frame"@)
        } else if count != next_heap || count != p.heap_count {
            format_err(
                counted(
                    "seal count "@,
                    count as nat,
                    " vs replayed "@,
                    next_heap,
                    " / header "@ + dec(p.heap_count as nat),
                ),
            )
        } else {
            Ok(BodyView::Seal)
        }
    } else {
        format_err("unknown plan frame tag "@ + dec(body[0] as nat))
    }
}

/// A heap with the header entries that its ids stand for, or which of them the
/// header lacks.
pub open spec fn looked_up<E>(p: PlanView<E>, b: HeapBodyView) -> Result<HeapView, SpoolErrorView> {
    if b.dict_id >= p.descriptors.len() {
        format_err(
            counted(
                "heap references dict id "@,
                b.dict_id as nat,
                ", header has "@,
                p.descriptors.len(),
                ""@,
            ),
        )
    } else if b.route_id != ROUTE_NONE && b.route_id >= p.routes.len() {
        format_err(
            counted(
                "heap references route id "@,
                b.route_id as nat,
                ", header has "@,
                p.routes.len(),
                ""@,
            ),
        )
    } else {
        Ok(
            HeapView {
                descriptor: p.descriptors[b.dict_id as int],
                route: if b.route_id == ROUTE_NONE {
                    None
                } else {
                    Some(p.routes[b.route_id as int])
                },
                heap: b.heap,
                frame_offset: b.frame_offset,
            },
        )
    }
}

/// The meaning of a body whose checksum held, or what is wrong with it.
pub open spec fn body_meaning<E>(
    p: PlanView<E>,
    at: nat,
    next_heap: nat,
    body: Seq<u8>,
) -> Result<FrameView, SpoolErrorView> {
    match body_content(p, at, next_heap, body) {
        Err(e) => Err(e),
        Ok(BodyView::Seal) => Ok(FrameView::Seal),
        Ok(BodyView::Heap(b)) => match looked_up(p, b) {
            Err(e) => Err(e),
            Ok(h) => Ok(FrameView::Heap(h)),
        },
    }
}

/// The control that is due before the next heap, if one is.
pub open spec fn control_due<E>(p: PlanView<E>, st: ReadState) -> bool {
    st.next_control < p.controls.len() && p.controls[st.next_control as int].heap_idx
        <= st.next_heap
}

/// A due control, or the end.
pub open spec fn control_or_end<E>(p: PlanView<E>, st: ReadState) -> (
    Result<Option<ItemView<E>>, SpoolErrorView>,
    ReadState,
) {
    if control_due(p, st) {
        (
            Ok(Some(ItemView::Control(p.controls[st.next_control as int]))),
            ReadState { next_control: st.next_control + 1, ..st },
        )
    } else {
        (Ok(None), st)
    }
}

pub open spec fn bytes_left<E>(p: PlanView<E>, at: nat) -> nat {
    if p.size_bytes >= at + 8 {
        (p.size_bytes - (at + 8)) as nat
    } else {
        0
    }
}

/// The outcome of reading the next item from `input` at `st`.
pub open spec fn next_outcome<E>(p: PlanView<E>, input: Seq<u8>, st: ReadState) -> (
    Result<Option<ItemView<E>>, SpoolErrorView>,
    ReadState,
) {
    let at = st.offset as int;
    let len = le_nat(input.subrange(at, at + 4));
    let crc = le_nat(input.subrange(at + 4, at + 8));
    let body = input.subrange(at + 8, at + 8 + len);
    let past = ReadState { offset: (at + 8 + len) as nat, ..st };
    if control_due(p, st) || st.done {
        control_or_end(p, st)
    } else if input.len() < at + 8 {
        (Err(SpoolErrorView::Unsealed), st)
    } else if len > bytes_left(p, st.offset) {
        (
            format_err(
                counted(
                    "frame at "@,
                    st.offset,
                    " claims "@,
                    len as nat,
                    " bytes, "@ + dec(bytes_left(p, st.offset)) + " left in plan"@,
                ),
            ),
            st,
        )
    } else if input.len() < at + 8 + len {
        (Err(SpoolErrorView::Unsealed), st)
    } else if crc32c_of(body) != crc {
        (Err(SpoolErrorView::Corrupt(st.offset as u64)), past)
    } else {
        match body_meaning(p, st.offset, st.next_heap, body) {
            Err(e) => (Err(e), past),
            Ok(FrameView::Heap(h)) => (
                Ok(Some(ItemView::Heap(h))),
                ReadState { next_heap: st.next_heap + 1, ..past },
            ),
            Ok(FrameView::Seal) => if input.len() > past.offset {
                (format_err("trailing bytes after seal"@), past)
            } else {
                control_or_end(p, ReadState { done: true, ..past })
            },
        }
    }
}

/// What is left to read; every item makes it smaller.
pub open spec fn work_left<E>(p: PlanView<E>, input: Seq<u8>, st: ReadState) -> int {
    (input.len() - st.offset) + (p.controls.len() - st.next_control) + (if st.done {
        0int
    } else {
        1
    })
}

pub open spec fn state_ok<E>(p: PlanView<E>, input: Seq<u8>, st: ReadState) -> bool {
    &&& st.offset <= input.len()
    &&& st.next_control <= p.controls.len()
    &&& st.next_heap <= st.offset
}

/// Every item leaves less to read.
pub proof fn lemma_next_progress<E>(p: PlanView<E>, input: Seq<u8>, st: ReadState)
    requires
        state_ok(p, input, st),
    ensures
        state_ok(p, input, next_outcome(p, input, st).1),
        next_outcome(p, input, st).0 matches Ok(Some(_)) ==> work_left(
            p,
            input,
            next_outcome(p, input, st).1,
        ) < work_left(p, input, st),
{
    let at = st.offset as int;
    if at + 8 <= input.len() {
        crate::u256::lemma_le_nat_bound(input.subrange(at, at + 4));
    }
}

/// Reading on from `st` until the end or the first error.
pub open spec fn walk<E>(p: PlanView<E>, input: Seq<u8>, st: ReadState) -> Result<
    (),
    SpoolErrorView,
>
    decreases work_left(p, input, st),
    when state_ok(p, input, st)
{
    proof {
        lemma_next_progress(p, input, st);
    }
    let (r, next) = next_outcome(p, input, st);
    match r {
        Err(e) => Err(e),
        Ok(None) => Ok(()),
        Ok(Some(_)) => walk(p, input, next),
    }
}

/// What is wrong with a plan's first four bytes, if anything.
pub open spec fn header_fault(input: Seq<u8>) -> Option<SpoolErrorView> {
    if input.len() < 4 {
        Some(SpoolErrorView::Unsealed)
    } else if input[0] != 87 || input[1] != 80 {
        Some(SpoolErrorView::Format("bad plan magic"@))
    } else if le_nat(input.subrange(2, 4)) != PLAN_VERSION {
        Some(
            SpoolErrorView::Format(
                counted(
                    "unsupported plan version "@,
                    le_nat(input.subrange(2, 4)) as nat,
                    ", expected "@,
                    PLAN_VERSION as nat,
                    ""@,
                ),
            ),
        )
    } else {
        None
    }
}

/// A reader over a plan and its byte stream.
pub struct PlanReader<'p, E> {
    plan: &'p SealedPlan<E>,
    input: &'p [u8],
    offset: usize,
    next_heap: u64,
    next_control: usize,
    done: bool,
}

/// What a frame holds.
pub(crate) enum Frame {
    Heap(HeapBody),
    Seal,
}

fn text2(a: &str, n: u64, b: &str, m: u64) -> (s: String)
    ensures
        s@ == counted(a@, n as nat, b@, m as nat, ""@),
{
    let mut s: String = String::from_str(a);
    push_dec(&mut s, n);
    s.append(b);
    push_dec(&mut s, m);
    s.append("");
    s
}

impl<'p, E> PlanReader<'p, E> {
    pub closed spec fn plan(&self) -> PlanView<E> {
        self.plan@
    }

    pub closed spec fn input(&self) -> Seq<u8> {
        self.input@
    }

    pub closed spec fn state(&self) -> ReadState {
        ReadState {
            offset: self.offset as nat,
            next_heap: self.next_heap as nat,
            next_control: self.next_control as nat,
            done: self.done,
        }
    }

    pub open spec fn wf(&self) -> bool {
        state_ok(self.plan(), self.input(), self.state())
    }

    /// The next item: a due control first, else the next frame's heap; `None`
    /// behind the seal.
    pub fn next_item(&mut self) -> (r: Result<Option<PlanItem<'p, E>>, PlanSpoolError>)
        requires
            old(self).wf(),
        ensures
            final(self).wf(),
            final(self).plan() == old(self).plan(),
            final(self).input() == old(self).input(),
            ({
                let (want, next) = next_outcome(
                    old(self).plan(),
                    old(self).input(),
                    old(self).state(),
                );
                &&& final(self).state() == next
                &&& match r {
                    Ok(Some(item)) => want == Ok::<_, SpoolErrorView>(Some(item@)),
                    Ok(None) => want == Ok::<_, SpoolErrorView>(None::<ItemView<E>>),
                    Err(e) => want == Err::<Option<ItemView<E>>, _>(e@),
                }
            }),
    {
        proof {
            lemma_next_progress(self.plan@, self.input@, self.state());
        }
        if self.control_is_due() || self.done {
            return Ok(self.take_control());
        }
        let total: usize = self.input.len();
        let at: usize = self.offset;
        if total - at < 8 {
            return Err(PlanSpoolError::Unsealed);
        }
        let len: u32 = read_u32(self.input, at);
        let crc: u32 = read_u32(self.input, at + 4);
        let left: u64 = if self.plan.size_bytes >= at as u64 + 8 {
            self.plan.size_bytes - (at as u64 + 8)
        } else {
            0
        };
        // The length sits outside the body checksum, so it is held against the
        // sealed size: garbage reads as a format error.
        if len as u64 > left {
            let mut s: String = String::from_str("frame at ");
            push_dec(&mut s, at as u64);
            s.append(" claims ");
            push_dec(&mut s, len as u64);
            let mut t: String = String::from_str(" bytes, ");
            push_dec(&mut t, left);
            t.append(" left in plan");
            s.append(t.as_str());
            return Err(PlanSpoolError::Format { detail: s });
        }
        if total - at - 8 < len as usize {
            return Err(PlanSpoolError::Unsealed);
        }
        let body: Vec<u8> = copy_range(self.input, at + 8, at + 8 + len as usize);
        self.offset = at + 8 + len as usize;
        if crc32c::crc32c(body.as_slice()) != crc {
            return Err(PlanSpoolError::Corrupt { offset: at as u64 });
        }
        match read_body(self.plan, self.next_heap, at as u64, body.as_slice()) {
            Err(e) => Err(e),
            Ok(Frame::Heap(b)) => match look_up(self.plan, b) {
                Err(e) => Err(e),
                Ok(h) => {
                    self.next_heap = self.next_heap + 1;
                    Ok(Some(PlanItem::Heap(h)))
                },
            },
            Ok(Frame::Seal) => {
                if total > self.offset {
                    return Err(
                        PlanSpoolError::Format {
                            detail: String::from_str("trailing bytes after seal"),
                        },
                    );
                }
                self.done = true;
                Ok(self.take_control())
            },
        }
    }

    fn control_is_due(&self) -> (r: bool)
        ensures
            r == control_due(self.plan@, self.state()),
    {
        self.next_control < self.plan.controls.len()
            && self.plan.controls[self.next_control].heap_idx <= self.next_heap
    }

    fn take_control(&mut self) -> (r: Option<PlanItem<'p, E>>)
        requires
            old(self).next_control <= old(self).plan@.controls.len(),
        ensures
            final(self).plan == old(self).plan,
            final(self).input == old(self).input,
            ({
                let (want, next) = control_or_end(old(self).plan@, old(self).state());
                &&& final(self).state() == next
                &&& match r {
                    Some(item) => want == Ok::<_, SpoolErrorView>(Some(item@)),
                    None => want == Ok::<_, SpoolErrorView>(None::<ItemView<E>>),
                }
            }),
    {
        if self.next_control < self.plan.controls.len() && self.control_is_due() {
            let c = &self.plan.controls[self.next_control];
            self.next_control = self.next_control + 1;
            Some(PlanItem::Control(c))
        } else {
            None
        }
    }
}

/// What a frame's body holds.
pub(crate) fn read_body<E>(plan: &SealedPlan<E>, next_heap: u64, at: u64, body: &[u8]) -> (r: Result<
    Frame,
    PlanSpoolError,
>)
    ensures
        ({
            let want = body_content(plan@, at as nat, next_heap as nat, body@);
            match r {
                Ok(Frame::Heap(h)) => want == Ok::<_, SpoolErrorView>(BodyView::Heap(h@)),
                Ok(Frame::Seal) => want == Ok::<_, SpoolErrorView>(BodyView::Seal),
                Err(e) => want == Err::<BodyView, _>(e@),
            }
        }),
{
    if body.len() == 0 {
        return Err(PlanSpoolError::Format { detail: String::from_str("empty plan frame") });
    }
    let tag: u8 = body[0];
    if tag == TAG_HEAP {
        if body.len() < 9 {
            return Err(PlanSpoolError::Format { detail: String::from_str("short heap frame") });
        }
        Ok(
            Frame::Heap(
                HeapBody {
                    dict_id: read_u32(body, 1),
                    route_id: read_u32(body, 5),
                    heap: copy_range(body, 9, body.len()),
                    frame_offset: at,
                },
            ),
        )
    } else if tag == TAG_SEAL {
        if body.len() < 9 {
            return Err(PlanSpoolError::Format { detail: String::from_str("short seal frame") });
        }
        let count: u64 = read_le(body, 1, 8);
        if count != next_heap || count != plan.heap_count {
            let mut s: String = String::from_str("seal count ");
            push_dec(&mut s, count);
            s.append(" vs replayed ");
            push_dec(&mut s, next_heap);
            let mut t: String = String::from_str(" / header ");
            push_dec(&mut t, plan.heap_count);
            s.append(t.as_str());
            return Err(PlanSpoolError::Format { detail: s });
        }
        Ok(Frame::Seal)
    } else {
        let mut s: String = String::from_str("unknown plan frame tag ");
        push_dec(&mut s, tag as u64);
        Err(PlanSpoolError::Format { detail: s })
    }
}

/// Look a heap's ids up in the plan's header.
pub(crate) fn look_up<E>(plan: &SealedPlan<E>, body: HeapBody) -> (r: Result<
    RoutedHeap,
    PlanSpoolError,
>)
    ensures
        match r {
            Ok(h) => looked_up(plan@, body@) == Ok::<_, SpoolErrorView>(h@),
            Err(e) => looked_up(plan@, body@) == Err::<HeapView, _>(e@),
        },
{
    if body.dict_id as usize >= plan.descriptors.len() {
        return Err(
            PlanSpoolError::Format {
                detail: text2(
                    "heap references dict id ",
                    body.dict_id as u64,
                    ", header has ",
                    plan.descriptors.len() as u64,
                ),
            },
        );
    }
    if body.route_id != ROUTE_NONE && body.route_id as usize >= plan.routes.len() {
        return Err(
            PlanSpoolError::Format {
                detail: text2(
                    "heap references route id ",
                    body.route_id as u64,
                    ", header has ",
                    plan.routes.len() as u64,
                ),
            },
        );
    }
    let route: Option<u64> = if body.route_id == ROUTE_NONE {
        None
    } else {
        Some(plan.routes[body.route_id as usize])
    };
    Ok(
        RoutedHeap {
            descriptor: plan.descriptors[body.dict_id as usize],
            route,
            heap: body.heap,
            frame_offset: body.frame_offset,
        },
    )
}

impl<E> SealedPlan<E> {
    /// Spool file path; `None` while the plan is in memory.
    pub fn path(&self) -> (r: Option<&str>)
        ensures
            match self.store {
                PlanStore::Mem(_) => r is None,
                PlanStore::File(p) => r is Some && r->0@ == p@,
            },
    {
        match &self.store {
            PlanStore::Mem(_) => None,
            PlanStore::File(p) => Some(p.as_str()),
        }
    }

    /// The plan's bytes while it is in memory.
    pub fn resident(&self) -> (r: Option<&[u8]>)
        ensures
            match self.store {
                PlanStore::Mem(b) => r is Some && r->0@ == b@,
                PlanStore::File(_) => r is None,
            },
    {
        match &self.store {
            PlanStore::Mem(b) => Some(b.as_slice()),
            PlanStore::File(_) => None,
        }
    }

    /// A reader at the first item of `input`, the plan's byte stream.
    pub fn replay<'p>(&'p self, input: &'p [u8]) -> (r: Result<PlanReader<'p, E>, PlanSpoolError>)
        ensures
            match r {
                Ok(rd) => header_fault(input@) is None && rd.wf() && rd.plan() == self@
                    && rd.input() == input@ && rd.state() == start_state(),
                Err(e) => header_fault(input@) == Some(e@),
            },
    {
        if let Err(e) = check_header(input) {
            return Err(e);
        }
        Ok(
            PlanReader {
                plan: self,
                input,
                offset: 4,
                next_heap: 0,
                next_control: 0,
                done: false,
            },
        )
    }

    /// Walk every frame of `input` without acting on it: checksums, id
    /// resolution, seal cross-check. File-backed plans are verified before
    /// the first side effect, so disk corruption fails the whole transaction
    /// instead of a prefix emitting.
    pub fn verify(&self, input: &[u8]) -> (r: Result<(), PlanSpoolError>)
        ensures
            match r {
                Ok(()) => header_fault(input@) is None && walk(self@, input@, start_state()) is Ok,
                Err(e) => match header_fault(input@) {
                    Some(f) => f == e@,
                    None => walk(self@, input@, start_state()) == Err::<(), _>(e@),
                },
            },
    {
        let mut rd = match self.replay(input) {
            Ok(rd) => rd,
            Err(e) => {
                return Err(e);
            },
        };
        loop
            invariant
                rd.wf(),
                rd.plan() == self@,
                rd.input() == input@,
                header_fault(input@) is None,
                walk(self@, input@, rd.state()) == walk(self@, input@, start_state()),
            decreases work_left(self@, input@, rd.state()),
        {
            proof {
                lemma_next_progress(self@, input@, rd.state());
            }
            match rd.next_item() {
                Err(e) => {
                    return Err(e);
                },
                Ok(None) => {
                    return Ok(());
                },
                Ok(Some(_)) => {},
            }
        }
    }
}

/// A plan starts with its magic and a version that can be read.
pub(crate) fn check_header(input: &[u8]) -> (r: Result<(), PlanSpoolError>)
    ensures
        match r {
            Ok(()) => header_fault(input@) is None,
            Err(e) => header_fault(input@) == Some(e@),
        },
{
    if input.len() < 4 {
        return Err(PlanSpoolError::Unsealed);
    }
    if input[0] != 87 || input[1] != 80 {
        return Err(PlanSpoolError::Format { detail: String::from_str("bad plan magic") });
    }
    let version: u64 = read_le(input, 2, 2);
    if version != PLAN_VERSION as u64 {
        return Err(
            PlanSpoolError::Format {
                detail: text2(
                    "unsupported plan version ",
                    version,
                    ", expected ",
                    PLAN_VERSION as u64,
                ),
            },
        );
    }
    Ok(())
}

/// What is wrong with a heap frame whose decoder left `remaining` bytes.
pub open spec fn trailing_fault(frame_offset: u64, remaining: usize) -> Option<SpoolErrorView> {
    if remaining != 0 {
        Some(
            SpoolErrorView::Format(
                counted(
                    "heap frame at "@,
                    frame_offset as nat,
                    " has "@,
                    remaining as nat,
                    " trailing bytes"@,
                ),
            ),
        )
    } else {
        None
    }
}

/// A heap's decoder must consume its frame.
pub fn check_heap_consumed(frame_offset: u64, remaining: usize) -> (r: Result<(), PlanSpoolError>)
    ensures
        match r {
            Ok(()) => trailing_fault(frame_offset, remaining) is None,
            Err(e) => trailing_fault(frame_offset, remaining) == Some(e@),
        },
{
    if remaining != 0 {
        let mut s: String = String::from_str("heap frame at ");
        push_dec(&mut s, frame_offset);
        s.append(" has ");
        push_dec(&mut s, remaining as u64);
        s.append(" trailing bytes");
        return Err(PlanSpoolError::Format { detail: s });
    }
    Ok(())
}

/// A plan whose bytes were all walked is read to its end: no item of it fails
/// afterwards.
pub proof fn verified_plan_reads_to_its_end<E>(p: PlanView<E>, input: Seq<u8>, st: ReadState)
    requires
        state_ok(p, input, st),
        walk(p, input, st) is Ok,
    ensures
        next_outcome(p, input, st).0 is Ok,
        walk(p, input, next_outcome(p, input, st).1) is Ok,
{
    lemma_next_progress(p, input, st);
    let (r, next) = next_outcome(p, input, st);
    if r == Ok::<_, SpoolErrorView>(None::<ItemView<E>>) {
        assert(next.done && !control_due(p, next));
        assert(next_outcome(p, input, next) == (r, next));
    }
}

} // verus!

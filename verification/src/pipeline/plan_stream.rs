//! Reading a sealed plan piece by piece, so that one in a file need not stand
//! in memory: its first bytes, then every frame's head, body and decoded heap.
use vstd::prelude::*;
use vstd::string::*;

use crate::pipeline::plan_replay::{
    body_content, bytes_left, check_header, check_heap_consumed, control_due, control_or_end,
    format_err, header_fault, lemma_next_progress, look_up, looked_up, next_outcome, read_body,
    start_state, state_ok, trailing_fault, walk, work_left, BodyView, Frame, HeapBody, HeapBodyView,
    HeapView, ItemView, ReadState, RoutedHeap,
};
use crate::pipeline::plan_spool::{
    counted, crc32c_of, OrderedEvent, PlanSpoolError, PlanView, SealedPlan, SpoolErrorView,
};
use crate::text::{dec, push_dec};
use crate::u256::le_nat;
use crate::wire::read_u32;

verus! {

/// Bytes of a plan before its first frame.
pub const PLAN_HEADER_BYTES: usize = 4;

/// Bytes of a frame before its body.
pub const FRAME_HEAD_BYTES: usize = 8;

/// The length of the body behind a frame's head, or why there is none. `head`
/// is what could be read of it.
pub open spec fn head_outcome<E>(p: PlanView<E>, at: nat, head: Seq<u8>) -> Result<
    nat,
    SpoolErrorView,
> {
    let len = le_nat(head.subrange(0, 4)) as nat;
    if head.len() < FRAME_HEAD_BYTES {
        Err(SpoolErrorView::Unsealed)
    } else if len > bytes_left(p, at) {
        format_err(
            counted(
                "frame at "@,
                at,
                " claims "@,
                len,
                " bytes, "@ + dec(bytes_left(p, at)) + " left in plan"@,
            ),
        )
    } else {
        Ok(len)
    }
}

/// What the body behind `head` holds, or what is wrong with it. `body` is what
/// could be read of it, and `more` whether anything follows it.
pub open spec fn body_outcome<E>(
    p: PlanView<E>,
    st: ReadState,
    head: Seq<u8>,
    body: Seq<u8>,
    more: bool,
) -> Result<BodyView, SpoolErrorView> {
    if body.len() < le_nat(head.subrange(0, 4)) {
        Err(SpoolErrorView::Unsealed)
    } else if crc32c_of(body) != le_nat(head.subrange(4, 8)) {
        Err(SpoolErrorView::Corrupt(st.offset as u64))
    } else {
        match body_content(p, st.offset, st.next_heap, body) {
            Ok(BodyView::Seal) if more => format_err("trailing bytes after seal"@),
            r => r,
        }
    }
}

/// What a heap frame stands for once its decoder has left `left` bytes of it.
pub open spec fn heap_outcome<E>(p: PlanView<E>, b: HeapBodyView, left: usize) -> Result<
    HeapView,
    SpoolErrorView,
> {
    match trailing_fault(b.frame_offset, left) {
        Some(e) => Err(e),
        None => looked_up(p, b),
    }
}

/// Where reading stands behind a heap frame.
pub open spec fn past_heap(st: ReadState, b: HeapBodyView) -> ReadState {
    ReadState { offset: st.offset + 17 + b.heap.len(), next_heap: st.next_heap + 1, ..st }
}

/// Where reading stands behind the seal.
pub open spec fn past_seal(st: ReadState, body: Seq<u8>) -> ReadState {
    ReadState { offset: st.offset + 8 + body.len(), done: true, ..st }
}

/// A frame is read next.
pub open spec fn wants_frame<E>(p: PlanView<E>, st: ReadState) -> bool {
    !control_due(p, st) && !st.done
}

/// What a plan is read for.
#[derive(Debug, Clone, Copy, PartialEq, Eq, Structural)]
pub enum PlanPass {
    /// To check all of it before the first side effect.
    Verify,
    Replay,
}

impl PlanPass {
    pub open spec fn prefix(self) -> Seq<char> {
        match self {
            PlanPass::Verify => "plan verify: "@,
            PlanPass::Replay => "plan replay: "@,
        }
    }

    /// How an error of the plan is told.
    pub fn fault(self, e: &PlanSpoolError) -> (m: String)
        ensures
            m@ == self.prefix() + e@.text(),
    {
        let mut m: String = match self {
            PlanPass::Verify => String::from_str("plan verify: "),
            PlanPass::Replay => String::from_str("plan replay: "),
        };
        m.append(e.to_text().as_str());
        m
    }
}

/// A plan that may be executed: in memory, where its bytes were validated as
/// they were written, or in a file that was checked from end to end.
pub struct ReadyPlan<'p, E> {
    plan: &'p SealedPlan<E>,
}

impl<'p, E> ReadyPlan<'p, E> {
    pub closed spec fn plan(&self) -> SealedPlan<E> {
        *self.plan
    }

    /// A plan in memory is ready; one in a file is not.
    pub fn resident(plan: &'p SealedPlan<E>) -> (r: Option<Self>)
        ensures
            r is Some == plan.store is Mem,
            r matches Some(ready) ==> ready.plan() == *plan,
    {
        match plan.path() {
            None => Some(ReadyPlan { plan }),
            Some(_) => None,
        }
    }

    pub(crate) fn sealed(&self) -> (r: &'p SealedPlan<E>)
        ensures
            *r == self.plan(),
    {
        self.plan
    }
}

/// What comes next of a plan.
pub enum StreamTurn<'p, E> {
    Control(&'p OrderedEvent<E>),
    /// A frame: its head has to be read, then its body.
    Frame,
    End,
}

/// What a frame's body asks for.
#[derive(Debug)]
pub enum BodyTurn {
    /// Decode this heap and say what is left of it.
    Decode(HeapBody),
    /// It was the seal.
    Sealed,
}

enum Stage {
    Between,
    /// A body of this length and checksum is read.
    Body { len: u32, crc: u32 },
    /// A heap out of a body of this length is decoded.
    Heap { len: u32 },
}

/// Which piece of a plan is awaited.
pub enum StageView {
    /// The next item.
    Between,
    /// The body behind this head.
    Body(Seq<u8>),
    /// What is left of this heap.
    Heap(HeapBodyView),
}

/// A plan that is read piece by piece.
pub struct PlanStream<'p, E> {
    plan: &'p SealedPlan<E>,
    pass: PlanPass,
    offset: u64,
    next_heap: u64,
    next_control: usize,
    done: bool,
    stage: Stage,
    seen: Ghost<StageView>,
}

impl<'p, E> PlanStream<'p, E> {
    pub closed spec fn plan(&self) -> SealedPlan<E> {
        *self.plan
    }

    pub closed spec fn pass(&self) -> PlanPass {
        self.pass
    }

    /// Where reading stands; inside of a frame, where it stood before it.
    pub closed spec fn state(&self) -> ReadState {
        ReadState {
            offset: self.offset as nat,
            next_heap: self.next_heap as nat,
            next_control: self.next_control as nat,
            done: self.done,
        }
    }

    pub closed spec fn stage(&self) -> StageView {
        self.seen@
    }

    pub closed spec fn wf(&self) -> bool {
        &&& self.next_control <= self.plan@.controls.len()
        &&& self.next_heap <= self.offset
        &&& self.offset <= self.plan.size_bytes || self.offset == PLAN_HEADER_BYTES
        &&& match (self.stage, self.seen@) {
            (Stage::Between, StageView::Between) => true,
            (Stage::Body { len, crc }, StageView::Body(head)) => {
                &&& wants_frame(self.plan@, self.state())
                &&& len <= bytes_left(self.plan@, self.offset as nat)
                &&& len == le_nat(head.subrange(0, 4))
                &&& crc == le_nat(head.subrange(4, 8))
            },
            (Stage::Heap { len }, StageView::Heap(b)) => {
                &&& wants_frame(self.plan@, self.state())
                &&& len <= bytes_left(self.plan@, self.offset as nat)
                &&& len == 9 + b.heap.len()
                &&& b.frame_offset == self.offset
            },
            _ => false,
        }
    }

    fn at_start(plan: &'p SealedPlan<E>, pass: PlanPass) -> (s: Self)
        ensures
            s.wf(),
            s.plan() == *plan,
            s.pass() == pass,
            s.state() == start_state(),
            s.stage() is Between,
    {
        PlanStream {
            plan,
            pass,
            offset: 4,
            next_heap: 0,
            next_control: 0,
            done: false,
            stage: Stage::Between,
            seen: Ghost(StageView::Between),
        }
    }

    /// Start to check a plan; `first` is what could be read of its first
    /// bytes.
    pub fn verify(plan: &'p SealedPlan<E>, first: &[u8]) -> (r: Result<Self, String>)
        ensures
            match r {
                Ok(s) => {
                    &&& header_fault(first@) is None
                    &&& s.wf()
                    &&& s.plan() == *plan
                    &&& s.pass() == PlanPass::Verify
                    &&& s.state() == start_state()
                    &&& s.stage() is Between
                },
                Err(m) => header_fault(first@) is Some && m@ == PlanPass::Verify.prefix()
                    + header_fault(first@)->0.text(),
            },
    {
        let s = Self::at_start(plan, PlanPass::Verify);
        match check_header(first) {
            Ok(()) => Ok(s),
            Err(e) => Err(s.pass.fault(&e)),
        }
    }

    /// Start to read a plan that is ready.
    pub fn replay(ready: ReadyPlan<'p, E>, first: &[u8]) -> (r: Result<Self, String>)
        ensures
            match r {
                Ok(s) => {
                    &&& header_fault(first@) is None
                    &&& s.wf()
                    &&& s.plan() == ready.plan()
                    &&& s.pass() == PlanPass::Replay
                    &&& s.state() == start_state()
                    &&& s.stage() is Between
                },
                Err(m) => header_fault(first@) is Some && m@ == PlanPass::Replay.prefix()
                    + header_fault(first@)->0.text(),
            },
    {
        let s = Self::at_start(ready.plan, PlanPass::Replay);
        match check_header(first) {
            Ok(()) => Ok(s),
            Err(e) => Err(s.pass.fault(&e)),
        }
    }

    /// What comes next: a due control first, then the next frame, until the
    /// seal.
    pub fn next(&mut self) -> (r: StreamTurn<'p, E>)
        requires
            old(self).wf(),
            old(self).stage() is Between,
        ensures
            final(self).wf(),
            final(self).plan() == old(self).plan(),
            final(self).pass() == old(self).pass(),
            final(self).stage() is Between,
            ({
                let p = old(self).plan()@;
                let st = old(self).state();
                match r {
                    StreamTurn::Frame => wants_frame(p, st) && final(self).state() == st,
                    StreamTurn::Control(c) => control_or_end(p, st) == (
                        Ok::<_, SpoolErrorView>(Some(ItemView::Control(*c))),
                        final(self).state(),
                    ),
                    StreamTurn::End => st.done && control_or_end(p, st) == (
                        Ok::<_, SpoolErrorView>(None::<ItemView<E>>),
                        final(self).state(),
                    ),
                }
            }),
    {
        if self.next_control < self.plan.controls.len()
            && self.plan.controls[self.next_control].heap_idx <= self.next_heap {
            let c = &self.plan.controls[self.next_control];
            self.next_control = self.next_control + 1;
            return StreamTurn::Control(c);
        }
        if self.done {
            StreamTurn::End
        } else {
            StreamTurn::Frame
        }
    }

    /// The head of a frame was read, as far as it is there: how many bytes of
    /// body follow.
    pub fn on_head(&mut self, head: &[u8]) -> (r: Result<usize, String>)
        requires
            old(self).wf(),
            old(self).stage() is Between,
            wants_frame(old(self).plan()@, old(self).state()),
        ensures
            final(self).wf(),
            final(self).plan() == old(self).plan(),
            final(self).pass() == old(self).pass(),
            final(self).state() == old(self).state(),
            ({
                let want = head_outcome(old(self).plan()@, old(self).state().offset, head@);
                match r {
                    Ok(len) => want == Ok::<nat, SpoolErrorView>(len as nat) && final(self).stage()
                        == StageView::Body(head@),
                    Err(m) => want is Err && m@ == old(self).pass().prefix() + want->Err_0.text()
                        && final(self).stage() is Between,
                }
            }),
    {
        if head.len() < FRAME_HEAD_BYTES {
            return Err(self.pass.fault(&PlanSpoolError::Unsealed));
        }
        let at: u64 = self.offset;
        let len: u32 = read_u32(head, 0);
        let crc: u32 = read_u32(head, 4);
        let left: u64 = if self.plan.size_bytes >= 8 && self.plan.size_bytes - 8 >= at {
            self.plan.size_bytes - 8 - at
        } else {
            0
        };
        // The length sits outside the body checksum, so it is held against the
        // sealed size: garbage reads as a format error.
        if len as u64 > left {
            let mut s: String = String::from_str("frame at ");
            push_dec(&mut s, at);
            s.append(" claims ");
            push_dec(&mut s, len as u64);
            let mut t: String = String::from_str(" bytes, ");
            push_dec(&mut t, left);
            t.append(" left in plan");
            s.append(t.as_str());
            return Err(self.pass.fault(&PlanSpoolError::Format { detail: s }));
        }
        self.stage = Stage::Body { len, crc };
        self.seen = Ghost(StageView::Body(head@));
        Ok(len as usize)
    }

    /// The body of a frame was read, as far as it is there, and whether
    /// anything follows it. A frame that is refused ends the reading.
    pub fn on_body(&mut self, body: &[u8], more: bool) -> (r: Result<BodyTurn, String>)
        requires
            old(self).wf(),
            old(self).stage() is Body,
            body@.len() <= le_nat(old(self).stage()->Body_0.subrange(0, 4)),
        ensures
            final(self).plan() == old(self).plan(),
            final(self).pass() == old(self).pass(),
            r is Ok ==> final(self).wf(),
            ({
                let st = old(self).state();
                let want = body_outcome(
                    old(self).plan()@,
                    st,
                    old(self).stage()->Body_0,
                    body@,
                    more,
                );
                match r {
                    Err(m) => want is Err && m@ == old(self).pass().prefix() + want->Err_0.text()
                        && *final(self) == *old(self),
                    Ok(BodyTurn::Decode(b)) => {
                        &&& want == Ok::<_, SpoolErrorView>(BodyView::Heap(b@))
                        &&& final(self).stage() == StageView::Heap(b@)
                        &&& final(self).state() == st
                    },
                    Ok(BodyTurn::Sealed) => {
                        &&& want == Ok::<_, SpoolErrorView>(BodyView::Seal)
                        &&& final(self).stage() is Between
                        &&& final(self).state() == past_seal(st, body@)
                    },
                }
            }),
    {
        let (len, crc): (u32, u32) = match self.stage {
            Stage::Body { len, crc } => (len, crc),
            _ => (0, 0),
        };
        if body.len() < len as usize {
            return Err(self.pass.fault(&PlanSpoolError::Unsealed));
        }
        if crc32c::crc32c(body) != crc {
            return Err(self.pass.fault(&PlanSpoolError::Corrupt { offset: self.offset }));
        }
        match read_body(self.plan, self.next_heap, self.offset, body) {
            Err(e) => Err(self.pass.fault(&e)),
            Ok(Frame::Heap(b)) => {
                self.stage = Stage::Heap { len };
                self.seen = Ghost(StageView::Heap(b@));
                Ok(BodyTurn::Decode(b))
            },
            Ok(Frame::Seal) => {
                if more {
                    let e = PlanSpoolError::Format {
                        detail: String::from_str("trailing bytes after seal"),
                    };
                    return Err(self.pass.fault(&e));
                }
                self.offset = self.offset + 8 + len as u64;
                self.done = true;
                self.stage = Stage::Between;
                self.seen = Ghost(StageView::Between);
                Ok(BodyTurn::Sealed)
            },
        }
    }

    /// The heap was decoded with `left` bytes left of it: the heap with its
    /// header entries. One that is refused ends the reading.
    pub fn on_decoded(&mut self, body: HeapBody, left: usize) -> (r: Result<RoutedHeap, String>)
        requires
            old(self).wf(),
            old(self).stage() == StageView::Heap(body@),
        ensures
            final(self).plan() == old(self).plan(),
            final(self).pass() == old(self).pass(),
            r is Ok ==> final(self).wf(),
            ({
                let want = heap_outcome(old(self).plan()@, body@, left);
                match r {
                    Err(m) => want is Err && m@ == old(self).pass().prefix() + want->Err_0.text()
                        && *final(self) == *old(self),
                    Ok(h) => {
                        &&& want == Ok::<_, SpoolErrorView>(h@)
                        &&& final(self).stage() is Between
                        &&& final(self).state() == past_heap(old(self).state(), body@)
                    },
                }
            }),
    {
        if let Err(e) = check_heap_consumed(body.frame_offset, left) {
            return Err(self.pass.fault(&e));
        }
        let len: u32 = match self.stage {
            Stage::Heap { len } => len,
            _ => 0,
        };
        match look_up(self.plan, body) {
            Err(e) => Err(self.pass.fault(&e)),
            Ok(h) => {
                self.offset = self.offset + 8 + len as u64;
                self.next_heap = self.next_heap + 1;
                self.stage = Stage::Between;
                self.seen = Ghost(StageView::Between);
                Ok(h)
            },
        }
    }

    /// A plan that was checked to its end may be executed.
    pub fn into_ready(self) -> (r: Option<ReadyPlan<'p, E>>)
        requires
            self.wf(),
        ensures
            r is Some == (self.stage() is Between && self.state().done && !control_due(
                self.plan()@,
                self.state(),
            )),
            r matches Some(ready) ==> ready.plan() == self.plan(),
    {
        let due: bool = self.next_control < self.plan.controls.len()
            && self.plan.controls[self.next_control].heap_idx <= self.next_heap;
        match self.stage {
            Stage::Between if self.done && !due => Some(ReadyPlan { plan: self.plan }),
            _ => None,
        }
    }
}

/// What can be read of `n` bytes from `at` on.
pub open spec fn piece(input: Seq<u8>, at: nat, n: nat) -> Seq<u8> {
    if at + n <= input.len() {
        input.subrange(at as int, (at + n) as int)
    } else if at <= input.len() {
        input.subrange(at as int, input.len() as int)
    } else {
        Seq::empty()
    }
}

/// The outcome of reading the next item in pieces from `input` at `st`;
/// `decoder` says of a heap how many bytes it leaves, or why it fails.
pub open spec fn next_decoded<E>(
    p: PlanView<E>,
    input: Seq<u8>,
    decoder: spec_fn(Seq<u8>) -> Result<usize, SpoolErrorView>,
    st: ReadState,
) -> (Result<Option<ItemView<E>>, SpoolErrorView>, ReadState) {
    let head = piece(input, st.offset, 8);
    if !wants_frame(p, st) {
        control_or_end(p, st)
    } else {
        match head_outcome(p, st.offset, head) {
            Err(e) => (Err(e), st),
            Ok(len) => {
                let body = piece(input, st.offset + 8, len);
                match body_outcome(p, st, head, body, input.len() > st.offset + 8 + len) {
                    Err(e) => (Err(e), st),
                    Ok(BodyView::Seal) => control_or_end(p, past_seal(st, body)),
                    Ok(BodyView::Heap(b)) => match decoder(b.heap) {
                        Err(e) => (Err(e), st),
                        Ok(left) => match heap_outcome(p, b, left) {
                            Err(e) => (Err(e), st),
                            Ok(h) => (Ok(Some(ItemView::Heap(h))), past_heap(st, b)),
                        },
                    },
                }
            },
        }
    }
}

/// What is read in pieces is what stands in the whole: an item comes out
/// alike, and one fails only if it fails in the whole too, or if its heap does
/// not decode to its last byte.
pub proof fn pieces_read_like_the_whole<E>(
    p: PlanView<E>,
    input: Seq<u8>,
    decoder: spec_fn(Seq<u8>) -> Result<usize, SpoolErrorView>,
    st: ReadState,
)
    requires
        state_ok(p, input, st),
    ensures
        match (next_decoded(p, input, decoder, st), next_outcome(p, input, st)) {
            ((Ok(item), to), whole) => whole == (Ok::<_, SpoolErrorView>(item), to),
            ((Err(_), _), (Err(_), _)) => true,
            ((Err(_), _), (Ok(Some(ItemView::Heap(h))), _)) => decoder(h.heap) != Ok::<
                usize,
                SpoolErrorView,
            >(0),
            _ => false,
        },
{
    let at = st.offset as int;
    let head = piece(input, st.offset, 8);
    if wants_frame(p, st) && input.len() >= at + 8 {
        assert(head.subrange(0, 4) =~= input.subrange(at, at + 4));
        assert(head.subrange(4, 8) =~= input.subrange(at + 4, at + 8));
        crate::u256::lemma_le_nat_bound(head.subrange(0, 4));
    }
}

/// Reading on from `st` in pieces until the end or the first error.
pub open spec fn walk_decoded<E>(
    p: PlanView<E>,
    input: Seq<u8>,
    decoder: spec_fn(Seq<u8>) -> Result<usize, SpoolErrorView>,
    st: ReadState,
) -> Result<(), SpoolErrorView>
    decreases work_left(p, input, st),
    when state_ok(p, input, st)
{
    proof {
        lemma_next_progress(p, input, st);
        pieces_read_like_the_whole(p, input, decoder, st);
    }
    let (r, next) = next_decoded(p, input, decoder, st);
    match r {
        Err(e) => Err(e),
        Ok(None) => Ok(()),
        Ok(Some(_)) => walk_decoded(p, input, decoder, next),
    }
}

/// A plan that was checked from end to end is read to its end: no item of it
/// fails once the execution has begun, so a corrupt file fails its whole
/// transaction and never emits a part of it.
pub proof fn checked_plan_reads_to_its_end<E>(
    p: PlanView<E>,
    input: Seq<u8>,
    decoder: spec_fn(Seq<u8>) -> Result<usize, SpoolErrorView>,
    st: ReadState,
)
    requires
        state_ok(p, input, st),
        walk_decoded(p, input, decoder, st) is Ok,
    ensures
        next_decoded(p, input, decoder, st).0 is Ok,
        walk_decoded(p, input, decoder, next_decoded(p, input, decoder, st).1) is Ok,
{
    lemma_next_progress(p, input, st);
    pieces_read_like_the_whole(p, input, decoder, st);
    let (r, next) = next_decoded(p, input, decoder, st);
    if r == Ok::<_, SpoolErrorView>(None::<ItemView<E>>) {
        assert(next.done && !control_due(p, next));
        assert(next_decoded(p, input, decoder, next) == (r, next));
    }
}

/// What passes the check in pieces passes `SealedPlan::verify` too.
pub proof fn checked_plan_is_verified<E>(
    p: PlanView<E>,
    input: Seq<u8>,
    decoder: spec_fn(Seq<u8>) -> Result<usize, SpoolErrorView>,
    st: ReadState,
)
    requires
        state_ok(p, input, st),
        walk_decoded(p, input, decoder, st) is Ok,
    ensures
        walk(p, input, st) is Ok,
    decreases work_left(p, input, st),
{
    lemma_next_progress(p, input, st);
    pieces_read_like_the_whole(p, input, decoder, st);
    let (r, next) = next_decoded(p, input, decoder, st);
    if r matches Ok(Some(_)) {
        checked_plan_is_verified(p, input, decoder, next);
    }
}

} // verus!

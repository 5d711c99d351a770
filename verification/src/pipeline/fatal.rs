//! One-shot fatal-error slot shared by the pipeline stages.
use vstd::prelude::*;

verus! {

/// The first fatal error of the pipeline. Later errors keep the first, so
/// the root cause is what surfaces.
pub struct Fatal {
    slot: Option<String>,
}

impl View for Fatal {
    type V = Option<Seq<char>>;

    closed spec fn view(&self) -> Option<Seq<char>> {
        match self.slot {
            Some(s) => Some(s@),
            None => None,
        }
    }
}

impl Default for Fatal {
    fn default() -> (r: Self)
        ensures
            r@ is None,
    {
        Fatal { slot: None }
    }
}

impl Fatal {
    pub fn new() -> (r: Self)
        ensures
            r@ is None,
    {
        Fatal { slot: None }
    }

    /// Record `msg` unless an earlier message stands. Returns whether `msg`
    /// was recorded, so that a caller wakes its waiters once.
    pub fn set(&mut self, msg: String) -> (first: bool)
        ensures
            first == (old(self)@ is None),
            final(self)@ == first_of(old(self)@, msg@),
    {
        if self.slot.is_some() {
            return false;
        }
        self.slot = Some(msg);
        true
    }

    pub fn is_set(&self) -> (r: bool)
        ensures
            r == (self@ is Some),
    {
        self.slot.is_some()
    }

    pub fn message(&self) -> (r: Option<String>)
        ensures
            match r {
                Some(s) => self@ == Some(s@),
                None => self@ is None,
            },
    {
        match &self.slot {
            Some(s) => Some(s.clone()),
            None => None,
        }
    }
}

/// What the slot holds after `msg` was offered to it.
pub open spec fn first_of(held: Option<Seq<char>>, msg: Seq<char>) -> Option<Seq<char>> {
    match held {
        Some(first) => Some(first),
        None => Some(msg),
    }
}

/// Once a message stands, no later one replaces it.
pub proof fn first_message_stays(held: Option<Seq<char>>, a: Seq<char>, b: Seq<char>)
    ensures
        first_of(first_of(held, a), b) == first_of(held, a),
        first_of(held, a) is Some,
{
}

} // verus!

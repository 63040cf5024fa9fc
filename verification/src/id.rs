//! Opaque identifiers that correlate an emitted output with the input that
//! later answers it.

use vstd::prelude::*;

verus! {

/// Unique identifier for DNS queries and connection attempts.
///
/// Used to correlate requests (output events) with their responses (input
/// events).
#[derive(Debug, Clone, Copy, PartialEq, Eq, Structural, Hash)]
pub struct Id(pub u64);

impl Id {
    /// The raw 64-bit value of this identifier.
    pub fn value(&self) -> (v: u64)
        ensures
            v == self.0,
    {
        self.0
    }
}

impl From<u64> for Id {
    fn from(value: u64) -> (r: Self)
        ensures
            r == Id(value),
    {
        Id(value)
    }
}

impl vstd::std_specs::convert::FromSpecImpl<u64> for Id {
    open spec fn obeys_from_spec() -> bool {
        true
    }

    open spec fn from_spec(value: u64) -> Self {
        Id(value)
    }
}

impl From<Id> for u64 {
    fn from(id: Id) -> (r: u64)
        ensures
            r == id.0,
    {
        id.0
    }
}

impl vstd::std_specs::convert::FromSpecImpl<Id> for u64 {
    open spec fn obeys_from_spec() -> bool {
        true
    }

    open spec fn from_spec(id: Id) -> u64 {
        id.0
    }
}

/// Generator for unique identifiers.
///
/// Uses an incrementing counter. The counter never wraps: the engine stops
/// minting identifiers in the (practically unreachable) case that all 2^64
/// values have been handed out, so that an identifier is never reused.
#[derive(Debug)]
pub struct IdGenerator {
    next: u64,
}

impl View for IdGenerator {
    type V = u64;

    closed spec fn view(&self) -> u64 {
        self.next
    }
}

impl IdGenerator {
    /// Creates a new generator; the first identifier handed out is 0.
    pub fn new() -> (r: Self)
        ensures
            r@ == 0,
    {
        Self { next: 0 }
    }

    /// Whether another identifier can still be minted.
    pub fn can_mint(&self) -> (r: bool)
        ensures
            r == (self@ < u64::MAX),
    {
        self.next < u64::MAX
    }

    /// Generates the next unique identifier.
    pub fn next_id(&mut self) -> (r: Id)
        requires
            old(self)@ < u64::MAX,
        ensures
            r == Id(old(self)@),
            final(self)@ == old(self)@ + 1,
    {
        let id = self.next;
        self.next = self.next + 1;
        Id(id)
    }
}

} // verus!

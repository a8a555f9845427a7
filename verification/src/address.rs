//! Addresses and the allocator that issues them.

use vstd::prelude::*;

verus! {

/// A handle to a node of one arena. Two addresses are the same handle exactly
/// when their numbers are equal.
#[derive(PartialEq, Eq, Structural, PartialOrd, Ord, Hash, Debug, Clone, Copy)]
pub struct Address(pub u16);

/// The number from which an allocator counts. Numbers up to and including it
/// are never issued, so they stay free for fixed, well-known handles.
pub const FIRST_RESERVED: u16 = 1000;

/// Issues addresses in strictly increasing order.
pub struct Counter {
    value: u16,
}

impl Counter {
    /// The number of the address issued last, or `FIRST_RESERVED` if none was.
    pub closed spec fn last(&self) -> u16 {
        self.value
    }

    /// A counter that has issued nothing yet.
    pub fn new() -> (counter: Counter)
        ensures
            counter.last() == FIRST_RESERVED,
    {
        Counter { value: FIRST_RESERVED }
    }

    /// Whether another address can still be issued.
    pub fn has_next(&self) -> (more: bool)
        ensures
            more == (self.last() < u16::MAX),
    {
        self.value < u16::MAX
    }

    /// Issues the next address: the successor of the one issued last.
    pub fn next(&mut self) -> (address: Address)
        requires
            old(self).last() < u16::MAX,
        ensures
            address.0 == old(self).last() + 1,
            final(self).last() == address.0,
    {
        self.value += 1;
        Address(self.value)
    }
}

} // verus!

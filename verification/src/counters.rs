//! Diagnostic counters.

use vstd::prelude::*;

verus! {

/// A count of events that wraps around at the end of its range.
#[derive(Copy, Clone, Debug, PartialEq, Eq, Structural)]
pub struct Counter {
    count: u32,
}

/// One event more than `n`, in the range of a counter.
pub open spec fn bumped(n: u32) -> u32 {
    if n == u32::MAX {
        0
    } else {
        (n + 1) as u32
    }
}

impl View for Counter {
    type V = u32;

    closed spec fn view(&self) -> u32 {
        self.count
    }
}

impl Counter {
    /// A count of nothing yet.
    pub fn new() -> (r: Self)
        ensures
            r@ == 0,
    {
        Counter { count: 0 }
    }

    /// Counts one event.
    pub fn bump(&mut self)
        ensures
            final(self)@ == bumped(old(self)@),
    {
        self.count = self.count.wrapping_add(1);
    }

    /// The count.
    pub fn get(&self) -> (r: u32)
        ensures
            r == self@,
    {
        self.count
    }
}

} // verus!

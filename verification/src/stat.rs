//! Shared counter used for operational visibility of the ingestion queue depth.

use vstd::prelude::*;

verus! {

/// The counter value after adding `n`, with the machine's wrap-around on
/// overflow (both arguments are at most `usize::MAX`).
pub open spec fn counter_add(v: int, n: int) -> int {
    if v + n <= usize::MAX {
        v + n
    } else {
        v + n - usize::MAX - 1
    }
}

/// The counter value after subtracting `n`, with the machine's wrap-around
/// below zero (both arguments are at most `usize::MAX`).
pub open spec fn counter_sub(v: int, n: int) -> int {
    if v - n >= 0 {
        v - n
    } else {
        v - n + usize::MAX + 1
    }
}

/// A running tally, starting at zero.  Its view is the current value.
pub struct Stat {
    value: usize,
}

impl View for Stat {
    type V = int;

    closed spec fn view(&self) -> int {
        self.value as int
    }
}

impl Stat {
    /// A fresh counter at zero.
    pub fn new() -> (s: Stat)
        ensures
            s@ == 0,
    {
        Stat { value: 0 }
    }

    /// Adds `n`, wrapping on overflow, and returns the previous value.
    pub fn add(&mut self, n: usize) -> (prev: usize)
        ensures
            prev == old(self)@,
            final(self)@ == counter_add(old(self)@, n as int),
    {
        let prev = self.value;
        self.value = if n <= usize::MAX - self.value {
            self.value + n
        } else {
            n - (usize::MAX - self.value) - 1
        };
        prev
    }

    /// Subtracts `n`, wrapping below zero, and returns the previous value.
    pub fn sub(&mut self, n: usize) -> (prev: usize)
        ensures
            prev == old(self)@,
            final(self)@ == counter_sub(old(self)@, n as int),
    {
        let prev = self.value;
        self.value = if n <= self.value {
            self.value - n
        } else {
            self.value + 1 + (usize::MAX - n)
        };
        prev
    }

    /// The current value.
    pub fn count(&self) -> (n: usize)
        ensures
            n == self@,
    {
        self.value
    }
}

} // verus!

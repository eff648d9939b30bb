//! Process-unique identifiers and wall-clock time.

use vstd::prelude::*;

verus! {

/// Source of process-unique connection identifiers.
///
/// Identifiers start above zero, so zero can serve as a sentinel, and grow
/// monotonically: no two draws return the same value.
pub struct IdGen {
    next: u64,
}

impl IdGen {
    /// The identifier the next draw will return.
    pub closed spec fn spec_next(&self) -> u64 {
        self.next
    }

    /// Identifiers stay above zero.
    pub open spec fn well_formed(&self) -> bool {
        self.spec_next() >= 1
    }

    /// The identifier the next draw will return, for callers that must
    /// check the space is not exhausted before drawing.
    pub fn current(&self) -> (id: u64)
        ensures
            id == self.spec_next(),
    {
        self.next
    }

    /// A fresh source whose first identifier is 1.
    pub fn new() -> (g: IdGen)
        ensures
            g.well_formed(),
            g.spec_next() == 1,
    {
        IdGen { next: 1 }
    }
}

/// Draws the next process-unique identifier: each call returns the current
/// counter and advances it, so no two calls on one source agree.
pub fn uniqid(gen: &mut IdGen) -> (id: u64)
    requires
        old(gen).well_formed(),
        old(gen).spec_next() < u64::MAX,
    ensures
        id == old(gen).spec_next(),
        id >= 1,
        final(gen).spec_next() == old(gen).spec_next() + 1,
        final(gen).well_formed(),
{
    let id = gen.next;
    gen.next = gen.next + 1;
    id
}

/// Relies on std's `SystemTime::now` and `Duration::as_secs`: the current
/// wall-clock time as whole seconds since the Unix epoch, or zero if the
/// clock reads before the epoch.  Nothing is promised of the value.
#[verifier::external_body]
pub fn unix_time() -> u64 {
    let start = std::time::SystemTime::now();
    let since_the_epoch = start.duration_since(std::time::UNIX_EPOCH).unwrap_or_default();
    since_the_epoch.as_secs()
}

} // verus!

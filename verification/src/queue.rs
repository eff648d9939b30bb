//! FIFO hand-off queue between ingestion producers and the dispatcher.

use std::collections::VecDeque;
use vstd::prelude::*;

verus! {

/// Capacity of the ingestion queue: producers beyond this are refused
/// until the dispatcher drains items.
pub const INGEST_CAPACITY: usize = 1024;

/// An ordered first-in-first-out queue.
///
/// Its view is the sequence of queued items, oldest first.
pub struct Queue<T> {
    data: VecDeque<T>,
}

impl<T> View for Queue<T> {
    type V = Seq<T>;

    closed spec fn view(&self) -> Seq<T> {
        self.data@
    }
}

impl<T> Queue<T> {
    /// The empty queue.
    pub fn new() -> (q: Queue<T>)
        ensures
            q@ == Seq::<T>::empty(),
    {
        Queue { data: VecDeque::new() }
    }

    /// Appends an item at the back.
    pub fn push(&mut self, item: T)
        ensures
            final(self)@ == old(self)@.push(item),
    {
        self.data.push_back(item);
    }

    /// Appends an item at the back only while the queue holds fewer than
    /// `capacity` items; reports whether the item was taken.
    pub fn offer(&mut self, item: T, capacity: usize) -> (accepted: bool)
        ensures
            accepted == (old(self)@.len() < capacity),
            accepted ==> final(self)@ == old(self)@.push(item),
            !accepted ==> final(self)@ == old(self)@,
    {
        if self.data.len() < capacity {
            self.data.push_back(item);
            true
        } else {
            false
        }
    }

    /// Removes and returns the oldest item, or `None` when empty.
    pub fn pop(&mut self) -> (r: Option<T>)
        ensures
            match r {
                Some(x) => {
                    &&& old(self)@.len() > 0
                    &&& x == old(self)@[0]
                    &&& final(self)@ == old(self)@.subrange(1, old(self)@.len() as int)
                },
                None => {
                    &&& old(self)@.len() == 0
                    &&& final(self)@ == old(self)@
                },
            },
    {
        self.data.pop_front()
    }

    /// The number of queued items.
    pub fn len(&self) -> (n: usize)
        ensures
            n == self@.len(),
    {
        self.data.len()
    }

    /// Whether the queue holds no item.
    pub fn is_empty(&self) -> (r: bool)
        ensures
            r == (self@.len() == 0),
    {
        self.data.len() == 0
    }
}

/// The contents after `k` oldest items have been removed.
pub open spec fn after_removals<T>(s: Seq<T>, k: int) -> Seq<T> {
    s.skip(k)
}

/// FIFO law: items leave the queue in arrival order.  With contents `s`,
/// the item removed by the `k`-th following `pop` is `s[k]`, so of two
/// items enqueued by one producer the earlier one is always delivered first.
pub proof fn lemma_fifo_order<T>(s: Seq<T>, k: int)
    requires
        0 <= k < s.len(),
    ensures
        after_removals(s, k).len() > 0,
        after_removals(s, k)[0] == s[k],
{
}

/// Bounded-queue law: `offer` never drops a queued item and never lets the
/// queue grow beyond the capacity it is given.
pub proof fn lemma_offer_bounded<T>(before: Seq<T>, after: Seq<T>, item: T, capacity: int)
    requires
        before.len() <= capacity,
        after == if before.len() < capacity {
            before.push(item)
        } else {
            before
        },
    ensures
        after.len() <= capacity,
        forall|i: int| 0 <= i < before.len() ==> after[i] == before[i],
{
}

} // verus!

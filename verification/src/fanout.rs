//! Non-blocking delivery of discovered items to a consumer queue.
//!
//! Discovered transactions and blocks are handed to consumers through a
//! bounded queue.  A producer never blocks on a full queue: the offered
//! item is dropped and counted instead of delivered, trading completeness
//! for producer liveness.

use vstd::prelude::*;

verus! {

/// A bounded consumer queue whose producer side never blocks.
pub struct FanoutQueue<T> {
    items: Vec<T>,
    capacity: usize,
    dropped: u64,
}

impl<T> FanoutQueue<T> {
    /// The items awaiting the consumer, in delivery order.
    pub closed spec fn queued(&self) -> Seq<T> {
        self.items@
    }

    /// The queue's capacity.
    pub closed spec fn cap(&self) -> nat {
        self.capacity as nat
    }

    /// How many items were dropped against a full queue.
    pub closed spec fn drop_count(&self) -> nat {
        self.dropped as nat
    }

    pub fn new(capacity: usize) -> (q: FanoutQueue<T>)
        ensures
            q.queued() == Seq::<T>::empty(),
            q.cap() == capacity,
            q.drop_count() == 0,
    {
        FanoutQueue { items: Vec::new(), capacity, dropped: 0 }
    }

    pub fn len(&self) -> (n: usize)
        ensures
            n == self.queued().len(),
    {
        self.items.len()
    }

    pub fn dropped_count(&self) -> (n: u64)
        ensures
            n == self.drop_count(),
    {
        self.dropped
    }

    /// Offer one item.  It is delivered exactly when the queue has room;
    /// against a full queue it is dropped and counted, and the call returns
    /// at once either way — the producer is never blocked.
    pub fn emit(&mut self, item: T) -> (delivered: bool)
        requires
            old(self).drop_count() < u64::MAX,
        ensures
            delivered == (old(self).queued().len() < old(self).cap()),
            final(self).cap() == old(self).cap(),
            delivered ==> final(self).queued() == old(self).queued().push(item)
                && final(self).drop_count() == old(self).drop_count(),
            !delivered ==> final(self).queued() == old(self).queued() && final(self).drop_count()
                == old(self).drop_count() + 1,
    {
        if self.items.len() < self.capacity {
            self.items.push(item);
            true
        } else {
            self.dropped = self.dropped + 1;
            false
        }
    }

    /// Hand everything currently queued to the consumer, in delivery order.
    pub fn drain(&mut self) -> (taken: Vec<T>)
        ensures
            taken@ == old(self).queued(),
            final(self).queued() == Seq::<T>::empty(),
            final(self).cap() == old(self).cap(),
            final(self).drop_count() == old(self).drop_count(),
    {
        let mut taken: Vec<T> = Vec::new();
        core::mem::swap(&mut taken, &mut self.items);
        taken
    }
}

} // verus!

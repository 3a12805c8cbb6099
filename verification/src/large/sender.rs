//! The sending side of a large-item channel.
use vstd::prelude::*;
use crate::markers::{NotSync, not_sync};
use crate::ring::RingModel;
use crate::shared::{SharedLargeRing, share};
use super::receiver::Receiver;

verus! {

/// The single sender of a large-item channel. Not `Clone`.
pub struct Sender<T: Copy> {
    ring: SharedLargeRing<T>,
    spin_iterations: usize,
    allow_yield: bool,
    _not_sync: NotSync,
}

impl<T: Copy> Sender<T> {
    /// The capacity of the channel.
    pub closed spec fn capacity(&self) -> nat {
        self.ring.pred().capacity as nat
    }

    /// The spin budget handed to new receivers.
    pub closed spec fn spin_budget(&self) -> usize {
        self.spin_iterations
    }

    /// Whether new receivers may yield while waiting.
    pub closed spec fn yields(&self) -> bool {
        self.allow_yield
    }

    pub(crate) fn new(ring: SharedLargeRing<T>, spin_iterations: usize, allow_yield: bool) -> (s: Self)
        ensures
            s.capacity() == ring.pred().capacity,
            s.spin_budget() == spin_iterations,
            s.yields() == allow_yield,
    {
        Sender { ring, spin_iterations, allow_yield, _not_sync: not_sync() }
    }

    /// Sends a single item. Overwrites the oldest slot if the ring is full.
    /// Takes the ring's write lock, so it waits for reads in progress to
    /// finish; it never waits for a receiver to catch up.
    ///
    /// The write head is advanced, the item is written into its slot
    /// between the two position tags, then the head is published.
    pub fn send(&self, item: T) {
        let (mut ring, handle) = self.ring.acquire_write();
        ring.send(item);
        handle.release_write(ring);
    }

    /// Sends a batch of items with a single publish. Returns `items.len()`.
    pub fn send_batch(&self, items: &[T]) -> (n: usize)
        ensures
            n == items@.len(),
    {
        let n = items.len();
        if n == 0 {
            return 0;
        }
        let (mut ring, handle) = self.ring.acquire_write();
        let sent = ring.send_batch(items);
        handle.release_write(ring);
        sent
    }

    /// Creates a new receiver positioned at the current write head.
    pub fn subscribe(&self) -> (r: Receiver<T>)
        ensures
            r.capacity() == self.capacity(),
            r.spin_budget() == self.spin_budget(),
            r.yields() == self.yields(),
            exists|m: RingModel<T>|
                #![trigger m.head]
                m.wf() && m.capacity == self.capacity() && m.head == r.position(),
    {
        let handle = self.ring.acquire_read();
        let ring = handle.borrow();
        let pos = ring.w_top();
        proof {
            ring.lemma_wf();
        }
        handle.release_read();
        Receiver::new(share(&self.ring), pos, self.spin_iterations, self.allow_yield)
    }
}

} // verus!

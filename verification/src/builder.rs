//! Channel construction with tuning options.
use std::marker::PhantomData;
use std::sync::Arc;
use vstd::prelude::*;
use vstd::rwlock::RwLock;
use crate::position::is_ring_capacity;
use crate::receiver::Receiver;
use crate::ring::RingBuf;
use crate::sender::Sender;
use crate::shared::{RingPred, share};

verus! {

/// Configures and builds a channel.
pub struct Builder<T: Copy> {
    capacity: Option<usize>,
    spin_iterations: usize,
    allow_yield: bool,
    _marker: PhantomData<T>,
}

impl<T: Copy> Builder<T> {
    /// The requested capacity, if one has been set.
    pub closed spec fn requested_capacity(&self) -> Option<usize> {
        self.capacity
    }

    /// The spin budget receivers will use.
    pub closed spec fn spin_budget(&self) -> usize {
        self.spin_iterations
    }

    /// Whether receivers may yield while waiting.
    pub closed spec fn yields(&self) -> bool {
        self.allow_yield
    }

    /// A builder with no capacity set, 64 spin iterations and no yielding.
    pub fn new() -> (b: Self)
        ensures
            b.requested_capacity() is None,
            b.spin_budget() == 64,
            !b.yields(),
    {
        Builder { capacity: None, spin_iterations: 64, allow_yield: false, _marker: PhantomData }
    }

    /// Sets the ring buffer capacity. Required; must be > 0.
    /// Non-power-of-two values are rounded up to the next power of two.
    pub fn capacity(self, capacity: usize) -> (b: Self)
        ensures
            b.requested_capacity() == Some(capacity),
            b.spin_budget() == self.spin_budget(),
            b.yields() == self.yields(),
    {
        Builder { capacity: Some(capacity), ..self }
    }

    /// Sets the number of spin-pause iterations before escalation.
    /// Default: 64.
    pub fn spin_iterations(self, iterations: usize) -> (b: Self)
        ensures
            b.requested_capacity() == self.requested_capacity(),
            b.spin_budget() == iterations,
            b.yields() == self.yields(),
    {
        Builder { spin_iterations: iterations, ..self }
    }

    /// Allows yielding the thread as a last-resort backoff.
    /// Default: false.
    pub fn allow_yield(self, allow: bool) -> (b: Self)
        ensures
            b.requested_capacity() == self.requested_capacity(),
            b.spin_budget() == self.spin_budget(),
            b.yields() == allow,
    {
        Builder { allow_yield: allow, ..self }
    }

    /// Builds the channel, returning `(Sender, Receiver)`. The capacity is
    /// the requested one rounded up to a power of two; the receiver starts
    /// at position 0.
    pub fn build(self) -> (r: (Sender<T>, Receiver<T>))
        requires
            self.requested_capacity() matches Some(c) && 1 <= c <= usize::MAX / 2 + 1,
        ensures
            r.0.capacity() == r.1.capacity(),
            is_ring_capacity(r.0.capacity()),
            self.requested_capacity()->Some_0 <= r.0.capacity() < 2 * self.requested_capacity()->Some_0,
            r.1.position() == 0,
            r.0.spin_budget() == self.spin_budget() && r.1.spin_budget() == self.spin_budget(),
            r.0.yields() == self.yields() && r.1.yields() == self.yields(),
    {
        let requested = match self.capacity {
            Some(c) => c,
            None => 0,
        };
        let ring = RingBuf::<T>::new(requested);
        let pred = Ghost(RingPred { capacity: ring@.capacity as usize });
        let ring = Arc::new(RwLock::new(ring, pred));
        let sender = Sender::new(share(&ring), self.spin_iterations, self.allow_yield);
        let receiver = Receiver::new(ring, 0, self.spin_iterations, self.allow_yield);
        (sender, receiver)
    }
}

impl<T: Copy> Default for Builder<T> {
    fn default() -> (b: Self)
        ensures
            b.requested_capacity() is None,
            b.spin_budget() == 64,
            !b.yields(),
    {
        Self::new()
    }
}

} // verus!

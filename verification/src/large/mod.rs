//! Channels for large item types, whose slots are tagged with the
//! position they were written at.
mod receiver;
mod ring;
mod sender;

pub use receiver::Receiver;
pub use ring::{LargeRingBuf, Slot, lemma_slot_holds_one_position};
pub use sender::Sender;

use std::sync::Arc;
use vstd::prelude::*;
use vstd::rwlock::RwLock;
use crate::position::is_ring_capacity;
use crate::shared::{RingPred, share};

verus! {

/// Creates a bounded broadcast channel for large types. The capacity is
/// rounded up to the next power of two; receivers spin 64 times before
/// escalating and do not yield.
pub fn bounded<T: Copy>(capacity: usize) -> (r: (Sender<T>, Receiver<T>))
    requires
        1 <= capacity <= usize::MAX / 2 + 1,
    ensures
        r.0.capacity() == r.1.capacity(),
        is_ring_capacity(r.0.capacity()),
        capacity <= r.0.capacity() < 2 * capacity,
        r.1.position() == 0,
        r.0.spin_budget() == 64 && r.1.spin_budget() == 64,
        !r.0.yields() && !r.1.yields(),
{
    let ring = LargeRingBuf::<T>::new(capacity);
    let pred = Ghost(RingPred { capacity: ring@.capacity as usize });
    let ring = Arc::new(RwLock::new(ring, pred));
    let sender = Sender::new(share(&ring), 64, false);
    let receiver = Receiver::new(ring, 0, 64, false);
    (sender, receiver)
}

} // verus!

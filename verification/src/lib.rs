//! Broadcast ring buffer: one sender, many receivers.
//!
//! A single [`Sender`] publishes messages that are received by all
//! [`Receiver`]s. Slow receivers that fall behind are detected, not waited
//! for, and the lost count is reported via [`RecvError::Overrun`].
pub mod allocator;
mod builder;
mod hint;
pub mod large;
pub mod laws;
mod markers;
mod poll;
mod position;
mod receiver;
mod ring;
mod sender;
mod shared;

pub use allocator::HugePageAllocator;
pub use builder::Builder;
pub use hint::{Backoff, backoff};
pub use poll::Poll;
pub use position::is_ring_capacity;
pub use receiver::{Receiver, RecvError};
pub use ring::{RingBuf, RingModel};
pub use sender::Sender;

use vstd::prelude::*;

verus! {

/// Creates a bounded broadcast channel with the given capacity, rounded
/// up to the next power of two. Further receivers come from
/// `sender.subscribe()`.
pub fn bounded<T: Copy>(capacity: usize) -> (r: (Sender<T>, Receiver<T>))
    requires
        1 <= capacity <= usize::MAX / 2 + 1,
    ensures
        r.0.capacity() == r.1.capacity(),
        is_ring_capacity(r.0.capacity()),
        capacity <= r.0.capacity() < 2 * capacity,
        r.1.position() == 0,
        r.0.spin_budget() == 64 && r.1.spin_budget() == 64,
        !r.0.yields() && !r.1.yields(),
{
    Builder::new().capacity(capacity).build()
}

/// Creates a builder for advanced channel configuration.
pub fn builder<T: Copy>() -> (b: Builder<T>)
    ensures
        b.requested_capacity() is None,
        b.spin_budget() == 64,
        !b.yields(),
{
    Builder::new()
}

} // verus!

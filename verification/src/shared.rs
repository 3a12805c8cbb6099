//! How a ring is shared between one sender and its receivers.
use std::sync::Arc;
use vstd::prelude::*;
use vstd::rwlock::{RwLock, RwLockPredicate};
use crate::large::LargeRingBuf;
use crate::ring::RingBuf;

verus! {

/// The lock invariant of a shared ring: the ring is well formed and keeps
/// the capacity it was created with.
pub struct RingPred {
    pub capacity: usize,
}

impl<T: Copy> RwLockPredicate<RingBuf<T>> for RingPred {
    open spec fn inv(self, ring: RingBuf<T>) -> bool {
        &&& ring.wf()
        &&& ring@.capacity == self.capacity
    }
}

/// A ring shared by a sender and its receivers.
pub type SharedRing<T> = Arc<RwLock<RingBuf<T>, RingPred>>;

/// A large-item ring shared by a sender and its receivers.
pub type SharedLargeRing<T> = Arc<RwLock<LargeRingBuf<T>, RingPred>>;

/// Another handle on the same shared value (`Arc::clone`).
#[verifier::external_body]
pub fn share<V>(handle: &Arc<V>) -> (other: Arc<V>)
    ensures
        other == *handle,
{
    Arc::clone(handle)
}

} // verus!

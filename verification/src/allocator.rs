//! Allocation policy for ring storage.
use vstd::prelude::*;

verus! {

/// Prefers huge pages for the ring's backing memory where the platform
/// offers them.
pub struct HugePageAllocator;

impl HugePageAllocator {
    /// Creates a new `HugePageAllocator`.
    pub fn new() -> Self {
        HugePageAllocator
    }
}

impl Default for HugePageAllocator {
    fn default() -> (a: Self)
        ensures
            a == HugePageAllocator,
    {
        Self::new()
    }
}

} // verus!

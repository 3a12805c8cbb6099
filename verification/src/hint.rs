//! Branch hints.
use vstd::prelude::*;

verus! {

/// Marks the unexpected side of a branch.
fn cold_path() {
}

/// Returns `b`, hinting that it is usually `true`.
pub fn likely(b: bool) -> (r: bool)
    ensures
        r == b,
{
    if !b {
        cold_path();
    }
    b
}

/// Returns `b`, hinting that it is usually `false`.
pub fn unlikely(b: bool) -> (r: bool)
    ensures
        r == b,
{
    if b {
        cold_path();
    }
    b
}

/// What a waiting receiver does between polls.
#[derive(Debug, Clone, Copy, PartialEq, Eq, Structural)]
pub enum Backoff {
    /// Issue a spin-loop hint and poll again.
    Spin,
    /// Give up the rest of the thread's time slice.
    Yield,
}

/// Tiered backoff: spin for the first `spin_iterations` polls, then yield
/// if allowed, else keep spinning.
pub open spec fn spec_backoff(spin_count: u32, spin_iterations: usize, allow_yield: bool) -> Backoff {
    if (spin_count as nat) < (spin_iterations as nat) {
        Backoff::Spin
    } else if allow_yield {
        Backoff::Yield
    } else {
        Backoff::Spin
    }
}

/// Chooses how to wait after `spin_count` unsuccessful polls.
pub fn backoff(spin_count: u32, spin_iterations: usize, allow_yield: bool) -> (b: Backoff)
    ensures
        b == spec_backoff(spin_count, spin_iterations, allow_yield),
{
    if (spin_count as usize) < spin_iterations {
        Backoff::Spin
    } else if allow_yield {
        Backoff::Yield
    } else {
        Backoff::Spin
    }
}

} // verus!

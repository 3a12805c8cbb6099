//! Position arithmetic shared by both ring variants.
//!
//! Positions are `u64` counters that only ever grow by wrapping addition.
//! A ring's capacity is a power of two no larger than 2^63, so it divides
//! 2^64 and the slot of a position (`position & mask`) is unaffected by
//! the counters wrapping around.
use vstd::prelude::*;
use vstd::arithmetic::power2::{pow2, lemma_pow2_pos, lemma_pow2_adds, lemma2_to64, lemma_pow2_strictly_increases};
use vstd::arithmetic::div_mod::lemma_mod_multiples_vanish;
use vstd::bits::{low_bits_mask, lemma_u64_low_bits_mask_is_mod};
use crate::hint::unlikely;

verus! {

/// The number of distinct `u64` positions, 2^64.
pub open spec fn position_modulus() -> int {
    0x1_0000_0000_0000_0000
}

/// A valid ring capacity: a power of two between 1 and 2^63.
pub open spec fn is_ring_capacity(capacity: nat) -> bool {
    exists|k: nat| k <= 63 && capacity == pow2(k)
}

/// How many positions `head` is ahead of `pos`, counted modulo 2^64.
pub open spec fn lag(head: u64, pos: u64) -> u64 {
    head.wrapping_sub(pos)
}

/// A receiver at `pos` has been lapped: the slot it would read next has
/// been overwritten.
pub open spec fn is_overrun(head: u64, pos: u64, capacity: u64) -> bool {
    lag(head, pos) > capacity
}

/// Where a lapped receiver is moved to: the oldest position that survives.
pub open spec fn reposition(head: u64, capacity: u64) -> u64 {
    head.wrapping_sub(capacity)
}

/// How many items a lapped receiver at `pos` has lost.
pub open spec fn lost_count(head: u64, pos: u64, capacity: u64) -> usize {
    reposition(head, capacity).wrapping_sub(pos) as usize
}

/// The overrun outcome for a receiver at `pos`: `Some((new_pos, lost))`
/// when it has been lapped, `None` otherwise.
pub open spec fn overrun_outcome(head: u64, pos: u64, capacity: u64) -> Option<(u64, usize)> {
    if is_overrun(head, pos, capacity) {
        Some((reposition(head, capacity), lost_count(head, pos, capacity)))
    } else {
        None
    }
}

/// Checks whether a receiver at `pos` has been lapped by the write head
/// `head` of a ring with `capacity` slots.
pub fn overrun(head: u64, pos: u64, capacity: u64) -> (r: Option<(u64, usize)>)
    ensures
        r == overrun_outcome(head, pos, capacity),
{
    if unlikely(head.wrapping_sub(pos) > capacity) {
        let new_pos = head.wrapping_sub(capacity);
        #[verifier::truncate]
        let lost = new_pos.wrapping_sub(pos) as usize;
        Some((new_pos, lost))
    } else {
        None
    }
}

/// Exponent of a ring capacity.
pub open spec fn capacity_log2(capacity: nat) -> nat
    recommends
        is_ring_capacity(capacity),
{
    choose|k: nat| k <= 63 && capacity == pow2(k)
}

/// A ring capacity divides 2^64 and fits in a `u64`.
pub proof fn lemma_capacity_divides_modulus(capacity: nat)
    requires
        is_ring_capacity(capacity),
    ensures
        0 < capacity <= 0x8000_0000_0000_0000,
        position_modulus() == capacity * (position_modulus() / capacity as int),
        position_modulus() % (capacity as int) == 0,
{
    let k = capacity_log2(capacity);
    lemma_pow2_pos(k);
    lemma_pow2_adds(k, (64 - k) as nat);
    lemma2_to64();
    assert(pow2(64) == 0x1_0000_0000_0000_0000);
    lemma_pow2_pos((64 - k) as nat);
    if k < 63 {
        lemma_pow2_strictly_increases(k, 63);
    }
    assert(pow2(63) == 0x8000_0000_0000_0000) by {
        vstd::arithmetic::power2::lemma2_to64_rest();
    }
    let q = pow2((64 - k) as nat) as int;
    assert(position_modulus() == (capacity as int) * q);
    lemma_mod_multiples_vanish(q, 0, capacity as int);
    vstd::arithmetic::div_mod::lemma_div_multiples_vanish(q, capacity as int);
}

/// Masking a position with `capacity - 1` gives its slot.
pub proof fn lemma_mask_is_slot(pos: u64, capacity: nat)
    requires
        is_ring_capacity(capacity),
    ensures
        pos & ((capacity - 1) as u64) == (pos as int) % (capacity as int),
{
    let k = capacity_log2(capacity);
    lemma_pow2_pos(k);
    lemma_capacity_divides_modulus(capacity);
    lemma_u64_low_bits_mask_is_mod(pos, k);
    assert(low_bits_mask(k) == capacity - 1);
}

/// Rounds a requested capacity up to the next power of two.
///
/// The result is the smallest power of two that is at least `requested`:
/// it lies in `[requested, 2 * requested)`.
pub fn round_capacity(requested: usize) -> (capacity: usize)
    requires
        1 <= requested <= usize::MAX / 2 + 1,
    ensures
        is_ring_capacity(capacity as nat),
        requested <= capacity < 2 * requested,
{
    let mut capacity: usize = 1;
    let ghost mut k: nat = 0;
    proof {
        lemma2_to64();
    }
    while capacity < requested
        invariant
            1 <= requested <= usize::MAX / 2 + 1,
            k <= 63,
            capacity == pow2(k),
            1 <= capacity < 2 * requested,
        decreases 2 * requested - capacity,
    {
        proof {
            vstd::arithmetic::power2::lemma2_to64_rest();
            assert(pow2(63) == 0x8000_0000_0000_0000);
            if k >= 63 {
                if k > 63 {
                    lemma_pow2_strictly_increases(63, k);
                }
                assert(false);
            }
            vstd::arithmetic::power2::lemma_pow2_unfold(k + 1);
        }
        capacity = capacity * 2;
        proof {
            k = k + 1;
        }
    }
    capacity
}

} // verus!

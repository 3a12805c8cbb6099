//! Zero-sized marker fields for the channel handles.
use core::arch::x86_64::__m512i;
use std::cell::Cell;
use std::marker::PhantomData;
use vstd::prelude::*;

verus! {

/// A 64-byte SIMD register type, used only for its alignment.
#[verifier::external_type_specification]
#[verifier::external_body]
pub struct ExM512i(__m512i);

/// A zero-sized field that aligns the struct holding it to a 64-byte
/// cache line, so handles used by different threads never share a line.
pub type CacheLineAlign = [__m512i; 0];

/// The value of a `CacheLineAlign` field.
pub fn cache_line_align() -> CacheLineAlign {
    []
}

/// Interior-mutable cell; named here only to borrow its `!Sync`.
#[verifier::external_type_specification]
#[verifier::external_body]
#[verifier::reject_recursive_types(T)]
pub struct ExCell<T: ?Sized>(Cell<T>);

/// A zero-sized field that keeps a handle `Send` but not `Sync`: a handle
/// can move to another thread but not be shared between threads.
pub type NotSync = PhantomData<Cell<()>>;

/// The value of a `NotSync` field.
pub fn not_sync() -> NotSync {
    PhantomData
}

} // verus!

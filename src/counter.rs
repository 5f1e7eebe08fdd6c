//! A cache-line-aligned atomic event counter.

use vstd::prelude::*;
use core::ops::Deref;
use core::sync::atomic::{AtomicU64, Ordering};
use cache_padded::CachePadded;

verus! {

#[verifier::external_type_specification]
#[verifier::external_body]
#[verifier::reject_recursive_types(V)]
pub struct ExCachePadded<V>(CachePadded<V>);

/// Relies on `CachePadded::new`: pads and aligns the value it is given.
pub assume_specification<W>[ CachePadded::<W>::new ](t: W) -> CachePadded<W>;

/// Relies on `CachePadded`'s `Deref`: a reference to the wrapped value.
pub assume_specification<W>[ <CachePadded<W> as Deref>::deref ](c: &CachePadded<W>) -> &W;

/// An atomic counter, aligned to a cache line so that updating it does not
/// evict its neighbours. Updates are relaxed: the value is for statistics,
/// not for synchronising logic.
#[derive(Debug)]
pub struct Counter(CachePadded<AtomicU64>);

impl Counter {
    /// A counter at zero.
    pub fn new() -> Counter {
        Counter(CachePadded::new(AtomicU64::new(0)))
    }

    /// Adds one and returns the value before the addition.
    pub fn incr(&self) -> u64 {
        self.add(1)
    }

    /// Adds `value` (wrapping around) and returns the value before the addition.
    pub fn add(&self, value: u64) -> u64 {
        self.0.deref().fetch_add(value, Ordering::Relaxed)
    }

    /// The current value.
    pub fn get(&self) -> u64 {
        self.0.deref().load(Ordering::Relaxed)
    }
}

} // verus!

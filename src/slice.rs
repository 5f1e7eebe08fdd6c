//! Indexed access whose bound is a precondition.

use vstd::prelude::*;

verus! {

/// Element access whose index bound is the caller's obligation, stated as a
/// precondition instead of being tested on each call.
pub trait SliceExt<T>: View<V = Seq<T>> {
    fn get_unchecked_debug_checked(&self, index: usize) -> (r: &T)
        requires
            index < self@.len(),
        ensures
            *r == self@[index as int],
    ;

    fn get_unchecked_debug_checked_mut(&mut self, index: usize) -> (r: &mut T)
        requires
            index < old(self)@.len(),
        ensures
            *r == old(self)@[index as int],
            final(self)@ == old(self)@.update(index as int, *final(r)),
    ;
}

impl<T> SliceExt<T> for [T] {
    fn get_unchecked_debug_checked(&self, index: usize) -> (r: &T) {
        &self[index]
    }

    fn get_unchecked_debug_checked_mut(&mut self, index: usize) -> (r: &mut T) {
        &mut self[index]
    }
}

} // verus!

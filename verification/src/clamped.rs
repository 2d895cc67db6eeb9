//! Wrapper for binding `Uint8ClampedArray` values.

use core::ops::{Deref, DerefMut};
use vstd::prelude::*;

verus! {

/// A wrapper around byte vectors and slices that binds the JavaScript
/// `Uint8ClampedArray`.
#[derive(Copy, Clone, PartialEq, Debug, Eq)]
pub struct Clamped<T>(pub T);

impl<T> Deref for Clamped<T> {
    type Target = T;

    fn deref(&self) -> (r: &T)
        ensures
            *r == self.0,
    {
        &self.0
    }
}

impl<T> DerefMut for Clamped<T> {
    fn deref_mut(&mut self) -> (r: &mut T)
        ensures
            *r == old(self).0,
            final(self).0 == *final(r),
    {
        &mut self.0
    }
}

} // verus!

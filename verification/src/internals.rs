//! Marker traits that close the sets of array and integer types.
use vstd::prelude::*;

verus! {

/// Implemented only by the array types of this crate.
pub trait ArraySealed {}

/// Implemented only by the integer type of this crate.
pub trait UintSealed {}

impl<T> ArraySealed for crate::array::ArrApi<T> {}

impl<A, B> ArraySealed for crate::array::Concat<A, B> {}

impl<A> ArraySealed for crate::array::Flatten<A> {}

impl<A, P> ArraySealed for crate::array::ArrBisect<A, P> {}

impl UintSealed for crate::uint::Uint {}

} // verus!

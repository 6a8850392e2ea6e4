//! Dropping the items of an array, vector or deque one by one.
use vstd::prelude::*;
use crate::array::{ArrApi, ArrVecApi, ArrDeqApi};

verus! {

/// Whether values of type `T` have drop glue, by `core::mem::needs_drop`. Its
/// documentation only says that `false` is a guarantee of no drop glue and that `true` may
/// be answered either way, so nothing is claimed of the result.
#[verifier::external_body]
fn needs_drop_of<T>() -> bool {
    core::mem::needs_drop::<T>()
}

/// A container whose items are being dropped one by one.
pub struct ArrDrop<T>(pub T);

impl<T> ArrDrop<ArrApi<T>> {
    /// Starts dropping the items of an array, by way of a full vector.
    pub fn enter(self) -> (r: ArrDrop<ArrVecApi<T>>)
        ensures
            r.0.wf(),
            r.0@ == self.0@,
            r.0.cap() == self.0@.len(),
    {
        ArrDrop(ArrVecApi::new_full(self.0))
    }
}

impl<T> ArrDrop<ArrVecApi<T>> {
    /// Whether the items have drop glue.
    pub fn needs_drop(&self) -> bool {
        needs_drop_of::<T>()
    }

    /// Starts dropping the items of a vector.
    pub fn enter(self) -> (r: Self)
        ensures
            r == self,
    {
        self
    }

    /// Whether there are items left.
    pub fn has_next(&self) -> (r: bool)
        ensures
            r == (self.0@.len() > 0),
    {
        !self.0.is_empty()
    }

    /// Removes the next item, from the back of the vector.
    pub fn pop_next(&mut self) -> (r: Option<T>)
        requires
            old(self).0.wf(),
        ensures
            final(self).0.wf(),
            old(self).0@.len() == 0 ==> r is None && final(self).0@ == old(self).0@,
            old(self).0@.len() > 0 ==> r == Some(old(self).0@.last()) && final(self).0@ == old(
                self,
            ).0@.drop_last(),
    {
        self.0.pop()
    }

    /// Ends dropping; all items must have been removed.
    pub fn discard(self)
        requires
            self.0@.len() == 0,
    {
        self.0.assert_empty()
    }
}

impl<T> ArrDrop<ArrDeqApi<T>> {
    /// Whether the items have drop glue.
    pub fn needs_drop(&self) -> bool {
        needs_drop_of::<T>()
    }

    /// Starts dropping the items of a deque.
    pub fn enter(self) -> (r: Self)
        ensures
            r == self,
    {
        self
    }

    /// Whether there are items left.
    pub fn has_next(&self) -> (r: bool)
        ensures
            r == (self.0@.len() > 0),
    {
        !self.0.is_empty()
    }

    /// Removes the next item, from the front of the deque.
    pub fn pop_next(&mut self) -> (r: Option<T>)
        requires
            old(self).0.wf(),
        ensures
            final(self).0.wf(),
            old(self).0@.len() == 0 ==> r is None && final(self).0@ == old(self).0@,
            old(self).0@.len() > 0 ==> r == Some(old(self).0@[0]) && final(self).0@ == old(
                self,
            ).0@.drop_first(),
    {
        self.0.pop_front()
    }

    /// Ends dropping; all items must have been removed.
    pub fn discard(self)
        requires
            self.0@.len() == 0,
    {
        self.0.assert_empty()
    }
}

} // verus!

//! Iterators over the items of arrays, vectors and deques, and the error of a failed
//! conversion from a slice.
use vstd::prelude::*;
use crate::array::{ArrApi, ArrVecApi, ArrDeqApi};

verus! {

/// The error of a conversion from a slice of the wrong length.
pub struct TryFromSliceError(pub ());

/// An iterator that moves the items out of an array or vector, from either end.
pub struct IntoIter<T> {
    deq: ArrDeqApi<T>,
}

/// An iterator that moves the items out of a deque, from either end.
pub struct IntoIterDeq<T> {
    deq: ArrDeqApi<T>,
}

impl<T> View for IntoIter<T> {
    type V = Seq<T>;

    closed spec fn view(&self) -> Seq<T> {
        self.deq@
    }
}

impl<T> View for IntoIterDeq<T> {
    type V = Seq<T>;

    closed spec fn view(&self) -> Seq<T> {
        self.deq@
    }
}

impl<T> IntoIter<T> {
    /// The iterator's internal invariant.
    pub closed spec fn wf(&self) -> bool {
        self.deq.wf()
    }

    /// The next item from the front.
    pub fn next(&mut self) -> (r: Option<T>)
        requires
            old(self).wf(),
        ensures
            final(self).wf(),
            old(self)@.len() == 0 ==> r is None && final(self)@ == old(self)@,
            old(self)@.len() > 0 ==> r == Some(old(self)@[0]) && final(self)@ == old(self)@.drop_first(),
    {
        self.deq.pop_front()
    }

    /// The next item from the back.
    pub fn next_back(&mut self) -> (r: Option<T>)
        requires
            old(self).wf(),
        ensures
            final(self).wf(),
            old(self)@.len() == 0 ==> r is None && final(self)@ == old(self)@,
            old(self)@.len() > 0 ==> r == Some(old(self)@.last()) && final(self)@ == old(self)@.drop_last(),
    {
        self.deq.pop_back()
    }

    /// The exact number of items left, as lower and upper bound.
    pub fn size_hint(&self) -> (r: (usize, Option<usize>))
        ensures
            r.0 == self@.len(),
            r.1 == Some(self@.len() as usize),
    {
        let len = self.deq.len();
        (len, Some(len))
    }
}

impl<T> IntoIterDeq<T> {
    /// The iterator's internal invariant.
    pub closed spec fn wf(&self) -> bool {
        self.deq.wf()
    }

    /// The next item from the front.
    pub fn next(&mut self) -> (r: Option<T>)
        requires
            old(self).wf(),
        ensures
            final(self).wf(),
            old(self)@.len() == 0 ==> r is None && final(self)@ == old(self)@,
            old(self)@.len() > 0 ==> r == Some(old(self)@[0]) && final(self)@ == old(self)@.drop_first(),
    {
        self.deq.pop_front()
    }

    /// The next item from the back.
    pub fn next_back(&mut self) -> (r: Option<T>)
        requires
            old(self).wf(),
        ensures
            final(self).wf(),
            old(self)@.len() == 0 ==> r is None && final(self)@ == old(self)@,
            old(self)@.len() > 0 ==> r == Some(old(self)@.last()) && final(self)@ == old(self)@.drop_last(),
    {
        self.deq.pop_back()
    }

    /// The exact number of items left, as lower and upper bound.
    pub fn size_hint(&self) -> (r: (usize, Option<usize>))
        ensures
            r.0 == self@.len(),
            r.1 == Some(self@.len() as usize),
    {
        let len = self.deq.len();
        (len, Some(len))
    }
}

impl<T> ArrApi<T> {
    /// An iterator that moves out the items, in order.
    pub fn into_iter(self) -> (r: IntoIter<T>)
        ensures
            r.wf(),
            r@ == self@,
    {
        IntoIter { deq: ArrDeqApi::new_full(self) }
    }
}

impl<T> ArrVecApi<T> {
    /// An iterator that moves out the items, in order.
    pub fn into_iter(self) -> (r: IntoIter<T>)
        requires
            self.wf(),
        ensures
            r.wf(),
            r@ == self@,
    {
        IntoIter { deq: self.into_arr_deq() }
    }
}

impl<T> ArrDeqApi<T> {
    /// An iterator that moves out the items, in order.
    pub fn into_iter(self) -> (r: IntoIterDeq<T>)
        requires
            self.wf(),
        ensures
            r.wf(),
            r@ == self@,
    {
        IntoIterDeq { deq: self }
    }
}

} // verus!

//! A vector with a fixed capacity, backed by an array.
use vstd::prelude::*;
use crate::uint::{Uint, from_usize, to_usize};
use crate::ops;
use crate::array::{ArrApi, ArrDeqApi, arr_len};

verus! {

/// The fields of an [`ArrVecApi`].
pub struct ArrVecRepr<T> {
    /// The items, in order.
    pub items: Vec<T>,
    /// The number of items the vector can hold.
    pub cap: usize,
}

/// Owner of the items of an [`ArrVecRepr`].
pub struct ArrVecDrop<T>(pub ArrVecRepr<T>);

/// A vector with a fixed capacity, backed by an array.
pub struct ArrVecApi<T>(ArrVecDrop<T>);

impl<T> View for ArrVecApi<T> {
    type V = Seq<T>;

    closed spec fn view(&self) -> Seq<T> {
        self.0.0.items@
    }
}

impl<T> ArrVecApi<T> {
    /// The vector's internal invariant: it holds at most its capacity.
    pub closed spec fn wf(&self) -> bool {
        self.0.0.items@.len() <= self.0.0.cap
    }

    /// The number of items the vector can hold.
    pub closed spec fn cap(&self) -> nat {
        self.0.0.cap as nat
    }

    /// A vector with capacity `cap` holding `items`.
    pub fn from_parts(items: Vec<T>, cap: usize) -> (r: Self)
        requires
            items@.len() <= cap,
        ensures
            r.wf(),
            r@ == items@,
            r.cap() == cap,
    {
        ArrVecApi(ArrVecDrop(ArrVecRepr { items, cap }))
    }

    /// The items and the capacity of the vector.
    pub fn into_parts(self) -> (r: (Vec<T>, usize))
        ensures
            r.0@ == self@,
            r.1 == self.cap(),
    {
        let ArrVecApi(ArrVecDrop(ArrVecRepr { items, cap })) = self;
        (items, cap)
    }

    /// Creates an empty vector with capacity `n`.
    pub fn new(n: &Uint) -> (r: Self)
        requires
            n@ <= usize::MAX,
        ensures
            r.wf(),
            r@ == Seq::<T>::empty(),
            r.cap() == n@,
    {
        ArrVecApi(ArrVecDrop(ArrVecRepr { items: Vec::new(), cap: arr_len(n) }))
    }

    /// Creates a full vector holding the items of `arr`.
    pub fn new_full(arr: ArrApi<T>) -> (r: Self)
        ensures
            r.wf(),
            r@ == arr@,
            r.cap() == arr@.len(),
    {
        let cap = arr.inner.len();
        ArrVecApi(ArrVecDrop(ArrVecRepr { items: arr.inner, cap }))
    }

    /// The items, as a slice.
    pub fn as_slice(&self) -> (r: &[T])
        ensures
            r@ == self@,
    {
        self.0.0.items.as_slice()
    }

    /// The items, as a mutable slice.
    pub fn as_mut_slice(&mut self) -> (r: &mut [T])
        ensures
            r@ == old(self)@,
            final(self)@ == final(r)@,
            final(self).cap() == old(self).cap(),
    {
        self.0.0.items.as_mut_slice()
    }

    /// The number of items.
    pub fn len(&self) -> (r: usize)
        ensures
            r == self@.len(),
    {
        self.0.0.items.len()
    }

    /// Whether there are no items.
    pub fn is_empty(&self) -> (r: bool)
        ensures
            r == (self@.len() == 0),
    {
        self.len() == 0
    }

    /// The number of items the vector can hold.
    pub fn capacity(&self) -> (r: usize)
        ensures
            r == self.cap(),
    {
        self.0.0.cap
    }

    /// The number of items that can still be pushed, `capacity - len`.
    pub fn spare_len(&self) -> (r: usize)
        requires
            self.wf(),
        ensures
            r == self.cap() - self@.len(),
    {
        self.capacity() - self.len()
    }

    /// Whether the vector holds as many items as it can.
    pub fn is_full(&self) -> (r: bool)
        requires
            self.wf(),
        ensures
            r == (self@.len() == self.cap()),
    {
        self.spare_len() == 0
    }

    /// Moves the items into a full array. The vector must be full.
    pub fn assert_full(self) -> (r: ArrApi<T>)
        requires
            self.wf(),
            self@.len() == self.cap(),
        ensures
            r@ == self@,
    {
        ArrApi::new(self.into_parts().0)
    }

    /// Discards the vector, which must be empty.
    pub fn assert_empty(self)
        requires
            self@.len() == 0,
    {
    }

    /// Adds `item` at the end, or hands it back if the vector is full.
    pub fn try_push(&mut self, item: T) -> (r: Result<(), T>)
        requires
            old(self).wf(),
        ensures
            final(self).wf(),
            final(self).cap() == old(self).cap(),
            old(self)@.len() == old(self).cap() ==> r == Err::<(), T>(item) && final(self)@ == old(self)@,
            old(self)@.len() < old(self).cap() ==> r is Ok && final(self)@ == old(self)@.push(item),
    {
        if self.is_full() {
            Err(item)
        } else {
            self.0.0.items.push(item);
            Ok(())
        }
    }

    /// Adds `item` at the end. The vector must not be full.
    pub fn push(&mut self, item: T)
        requires
            old(self).wf(),
            old(self)@.len() < old(self).cap(),
        ensures
            final(self).wf(),
            final(self).cap() == old(self).cap(),
            final(self)@ == old(self)@.push(item),
    {
        let _ = self.try_push(item);
    }

    /// Removes and returns the last item, if any.
    pub fn pop(&mut self) -> (r: Option<T>)
        requires
            old(self).wf(),
        ensures
            final(self).wf(),
            final(self).cap() == old(self).cap(),
            old(self)@.len() == 0 ==> r is None && final(self)@ == old(self)@,
            old(self)@.len() > 0 ==> r == Some(old(self)@.last()) && final(self)@ == old(self)@.drop_last(),
    {
        self.0.0.items.pop()
    }

    /// Pushes the items of `items` in order until the vector is full; the rest are dropped.
    pub fn extend(&mut self, items: Vec<T>)
        requires
            old(self).wf(),
        ensures
            final(self).wf(),
            final(self).cap() == old(self).cap(),
            final(self)@ == old(self)@ + items@.take(
                if items@.len() < old(self).cap() - old(self)@.len() {
                    items@.len() as int
                } else {
                    old(self).cap() - old(self)@.len()
                },
            ),
    {
        let ghost orig = self@;
        let ghost all = items@;
        let mut i: usize = 0;
        let mut rest = items;
        // reverse so that the next item is at the end
        let mut rev: Vec<T> = Vec::new();
        while rest.len() > 0
            invariant
                rest@ == all.take(rest@.len() as int),
                rest@.len() + rev@.len() == all.len(),
                forall|j: int| 0 <= j < rev@.len() ==> #[trigger] rev@[j] == all[all.len() - 1 - j],
            decreases rest@.len(),
        {
            let x = rest.pop().unwrap();
            rev.push(x);
        }
        while !self.is_full() && rev.len() > 0
            invariant
                self.wf(),
                self.cap() == old(self).cap(),
                i + rev@.len() == all.len(),
                self@ == orig + all.take(i as int),
                forall|j: int| 0 <= j < rev@.len() ==> #[trigger] rev@[j] == all[all.len() - 1 - j],
            decreases rev@.len(),
        {
            let x = rev.pop().unwrap();
            proof {
                assert(x == all[i as int]);
            }
            self.push(x);
            i = i + 1;
            proof {
                assert(all.take(i as int) =~= all.take(i - 1).push(x));
            }
        }
    }

    /// Moves the items into a contiguous [`ArrDeqApi`] with the same capacity.
    pub fn into_arr_deq(self) -> (r: ArrDeqApi<T>)
        requires
            self.wf(),
        ensures
            r.wf(),
            r@ == self@,
            r.cap() == self.cap(),
            r.is_contiguous(),
    {
        let (items, cap) = self.into_parts();
        ArrDeqApi::from_items(items, cap)
    }

    /// Splits the vector of capacity `N` at `i` into a vector of capacity `min(N, i)` holding
    /// the first items, and one of capacity `N - i` (saturating) holding the rest.
    pub fn split_at_uint(self, i: &Uint) -> (r: (ArrVecApi<T>, ArrVecApi<T>))
        requires
            self.wf(),
        ensures
            r.0.wf(),
            r.1.wf(),
            r.0.cap() == if self.cap() < i@ { self.cap() } else { i@ },
            r.1.cap() == if i@ < self.cap() { (self.cap() - i@) as nat } else { 0 },
            r.0@ + r.1@ == self@,
            r.0@.len() == if self@.len() < i@ { self@.len() } else { i@ },
    {
        let (items, cap) = self.into_parts();
        let n = from_usize(cap);
        let lcap = arr_len(&ops::min(&n, i));
        let rcap = arr_len(&ops::sat_sub(&n, i));
        let len = items.len();
        let rlen = match to_usize(i) {
            Some(i) => if len > i {
                len - i
            } else {
                0
            },
            None => 0,
        };
        let llen = len - rlen;
        let mut lhs = items;
        let rhs = lhs.split_off(llen);
        proof {
            assert(lhs@ + rhs@ =~= self@);
        }
        (ArrVecApi::from_parts(lhs, lcap), ArrVecApi::from_parts(rhs, rcap))
    }

    /// Splits off the items from index `i` on into a vector of capacity `N - i` (saturating).
    ///
    /// If `i` is past the last item, nothing is split off.
    pub fn split_off_at_uint(&mut self, i: &Uint) -> (r: ArrVecApi<T>)
        requires
            old(self).wf(),
        ensures
            final(self).wf(),
            r.wf(),
            final(self).cap() == old(self).cap(),
            r.cap() == if i@ < old(self).cap() { (old(self).cap() - i@) as nat } else { 0 },
            i@ <= old(self)@.len() ==> final(self)@ == old(self)@.take(i@ as int) && r@ == old(
                self,
            )@.skip(i@ as int),
            i@ > old(self)@.len() ==> final(self)@ == old(self)@ && r@.len() == 0,
    {
        let n = from_usize(self.0.0.cap);
        let rcap = arr_len(&ops::sat_sub(&n, i));
        let len = self.len();
        let at = match to_usize(i) {
            Some(at) => if at <= len {
                at
            } else {
                return ArrVecApi::from_parts(Vec::new(), rcap);
            },
            None => {
                return ArrVecApi::from_parts(Vec::new(), rcap);
            },
        };
        let ghost orig = self@;
        let rest = self.0.0.items.split_off(at);
        proof {
            assert(self@ =~= orig.take(at as int));
            assert(rest@ =~= orig.skip(at as int));
        }
        ArrVecApi::from_parts(rest, rcap)
    }

    /// Moves the items into a vector of capacity `m`, if they fit; else hands the vector back.
    pub fn try_grow(self, m: &Uint) -> (r: Result<ArrVecApi<T>, Self>)
        requires
            self.wf(),
        ensures
            (m@ <= usize::MAX && m@ >= self@.len()) == (r is Ok),
            r matches Ok(v) ==> v.wf() && v@ == self@ && v.cap() == m@,
            r matches Err(v) ==> v == self,
    {
        match to_usize(m) {
            Some(cap) => {
                if cap >= self.len() {
                    let (items, _) = self.into_parts();
                    Ok(ArrVecApi::from_parts(items, cap))
                } else {
                    Err(self)
                }
            },
            None => Err(self),
        }
    }
}

} // verus!

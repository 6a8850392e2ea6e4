//! Arrays whose length is given by a [`Uint`], and fixed-capacity vector
//! ([`ArrVecApi`]) and double-ended queue ([`ArrDeqApi`]) containers backed by
//! such arrays.
use vstd::prelude::*;
use crate::uint::{Uint, from_usize, to_usize};
use crate::ops;

pub mod arr_utils;
pub mod arr_vec;
pub mod arr_deq;
pub mod helper;
pub mod extra;

pub use arr_vec::{ArrVecApi, ArrVecDrop, ArrVecRepr};
pub use arr_deq::{ArrDeqApi, ArrDeqDrop, ArrDeqRepr};




verus! {

/// A type that holds a fixed number of items in order.
pub trait Array {
    /// The item type.
    type Item;

    /// The items, in order.
    spec fn items(&self) -> Seq<Self::Item>;
}

/// An array, i.e. a sequence of items with a fixed length.
#[derive(Clone, Debug)]
pub struct ArrApi<T> {
    /// The items of the array.
    pub inner: Vec<T>,
}

/// Two arrays with the same item type, one after the other.
pub struct Concat<A, B>(pub A, pub B);

/// An array of arrays, read as one long array of items.
pub struct Flatten<A>(pub A);

/// Two arrays of the same type followed by a third one: the layout of an array of
/// length `2 * n + p` built from two halves of length `n` and a rest of length `p`.
pub struct ArrBisect<A, P>(pub A, pub A, pub P);

impl<T> Array for ArrApi<T> {
    type Item = T;

    open spec fn items(&self) -> Seq<T> {
        self.inner@
    }
}

impl<T, A: Array<Item = T>, B: Array<Item = T>> Array for Concat<A, B> {
    type Item = T;

    open spec fn items(&self) -> Seq<T> {
        self.0.items() + self.1.items()
    }
}

impl<T, A: Array<Item = T>, P: Array<Item = T>> Array for ArrBisect<A, P> {
    type Item = T;

    open spec fn items(&self) -> Seq<T> {
        self.0.items() + self.1.items() + self.2.items()
    }
}

impl<T> Array for Flatten<ArrApi<ArrApi<T>>> {
    type Item = T;

    open spec fn items(&self) -> Seq<T> {
        self.0.inner@.map_values(|a: ArrApi<T>| a.inner@).flatten()
    }
}

/// The length that an array of length `n` has as a `usize`.
///
/// Array lengths beyond `usize::MAX` are not allowed.
pub fn arr_len(n: &Uint) -> (r: usize)
    requires
        n@ <= usize::MAX,
    ensures
        r == n@,
{
    match to_usize(n) {
        Some(r) => r,
        None => 0,
    }
}

impl<T> View for ArrApi<T> {
    type V = Seq<T>;

    open spec fn view(&self) -> Seq<T> {
        self.inner@
    }
}

impl<T> ArrApi<T> {
    /// Alias for `Self { inner }`.
    pub fn new(inner: Vec<T>) -> (r: Self)
        ensures
            r@ == inner@,
    {
        ArrApi { inner }
    }

    /// The number of items of this array.
    pub fn length(&self) -> (r: usize)
        ensures
            r == self@.len(),
    {
        self.inner.len()
    }

    /// The length of this array as a `Uint`.
    pub fn length_uint(&self) -> (r: Uint)
        ensures
            r@ == self@.len(),
    {
        from_usize(self.inner.len())
    }

    /// Returns the wrapped items.
    pub fn into_inner(self) -> (r: Vec<T>)
        ensures
            r@ == self@,
    {
        self.inner
    }

    /// The items as a slice.
    pub fn as_slice(&self) -> (r: &[T])
        ensures
            r@ == self@,
    {
        self.inner.as_slice()
    }

    /// The items as a mutable slice.
    pub fn as_mut_slice(&mut self) -> (r: &mut [T])
        ensures
            r@ == old(self)@,
            final(self)@ == final(r)@,
    {
        self.inner.as_mut_slice()
    }

    /// Converts into an array with the same items and length.
    pub fn retype(self) -> (r: ArrApi<T>)
        ensures
            r@ == self@,
    {
        self
    }

    /// Builds this array from another array with the same items and length.
    pub fn retype_from(from: ArrApi<T>) -> (r: Self)
        ensures
            r@ == from@,
    {
        from
    }

    /// The same as [`retype_from`](Self::retype_from).
    pub fn from_arr(from: ArrApi<T>) -> (r: Self)
        ensures
            r@ == from@,
    {
        from
    }

    /// Tries to convert into an array of length `len`.
    ///
    /// Succeeds exactly when `len` is the length of this array; otherwise the
    /// array is handed back.
    pub fn try_retype(self, len: &Uint) -> (r: crate::condty::CondResult<ArrApi<T>, ArrApi<T>>)
        ensures
            r.is_ok_spec() == (len@ == self@.len()),
            r.direct_spec() == if len@ == self@.len() {
                Ok::<ArrApi<T>, ArrApi<T>>(self)
            } else {
                Err::<ArrApi<T>, ArrApi<T>>(self)
            },
    {
        let same = ops::eq(&from_usize(self.inner.len()), len);
        if crate::uint::to_bool(&same) {
            crate::condty::CondResult::make_ok(&same, self)
        } else {
            crate::condty::CondResult::make_err(&same, self)
        }
    }

    /// Builds an array of length `n` whose item at index `i` is `f(i)`.
    pub fn from_fn<F: Fn(usize) -> T>(n: &Uint, f: F) -> (r: Self)
        requires
            n@ <= usize::MAX,
            forall|i: usize| i < n@ ==> #[trigger] f.requires((i,)),
        ensures
            r@.len() == n@,
            forall|i: int| 0 <= i < n@ ==> #[trigger] f.ensures((i as usize,), r@[i]),
    {
        let len = arr_len(n);
        let mut out: Vec<T> = Vec::new();
        while out.len() < len
            invariant
                len == n@,
                out@.len() <= len,
                forall|i: usize| i < n@ ==> #[trigger] f.requires((i,)),
                forall|i: int| 0 <= i < out@.len() ==> #[trigger] f.ensures((i as usize,), out@[i]),
            decreases len - out@.len(),
        {
            let i = out.len();
            let item = f(i);
            out.push(item);
        }
        ArrApi { inner: out }
    }

    /// Concatenates this array with `rhs`.
    pub fn concat(self, rhs: ArrApi<T>) -> (r: ArrApi<T>)
        ensures
            r@ == self@ + rhs@,
    {
        let mut inner = self.inner;
        let mut rest = rhs.inner;
        inner.append(&mut rest);
        ArrApi { inner }
    }

    /// Splits the array at position `i`.
    ///
    /// The output is a pair of arrays with lengths `min(N, i)` and `N - i` (saturating),
    /// where `N` is the length of this array. Concatenating them gives back this array.
    pub fn split_at_uint(self, i: &Uint) -> (r: (ArrApi<T>, ArrApi<T>))
        ensures
            r.0@.len() == if self@.len() < i@ { self@.len() } else { i@ },
            r.1@.len() == if i@ < self@.len() { (self@.len() - i@) as nat } else { 0 },
            r.0@ + r.1@ == self@,
    {
        let len = self.inner.len();
        let at = match to_usize(i) {
            Some(i) => if i < len {
                i
            } else {
                len
            },
            None => len,
        };
        let mut lhs = self.inner;
        let rhs = lhs.split_off(at);
        proof {
            assert(lhs@ + rhs@ =~= self@);
        }
        (ArrApi { inner: lhs }, ArrApi { inner: rhs })
    }

    /// References to the items, in order.
    pub fn each_ref(&self) -> (r: ArrApi<&T>)
        ensures
            r@.len() == self@.len(),
            forall|i: int| 0 <= i < self@.len() ==> *(#[trigger] r@[i]) == self@[i],
    {
        let mut out: Vec<&T> = Vec::new();
        let mut i: usize = 0;
        while i < self.inner.len()
            invariant
                i <= self@.len(),
                out@.len() == i,
                forall|j: int| 0 <= j < i ==> *(#[trigger] out@[j]) == self@[j],
            decreases self@.len() - i,
        {
            out.push(&self.inner[i]);
            i = i + 1;
        }
        ArrApi { inner: out }
    }

    /// Applies `f` to every item, in order.
    pub fn map<U, F: Fn(T) -> U>(self, f: F) -> (r: ArrApi<U>)
        requires
            forall|i: int| 0 <= i < self@.len() ==> #[trigger] f.requires((self@[i],)),
        ensures
            r@.len() == self@.len(),
            forall|i: int| 0 <= i < self@.len() ==> #[trigger] f.ensures((self@[i],), r@[i]),
    {
        let ghost orig = self@;
        let mut src = self.inner;
        // move the items into reverse order, so that popping gives them front to back
        let mut rev: Vec<T> = Vec::new();
        while src.len() > 0
            invariant
                src@ == orig.take(src@.len() as int),
                src@.len() + rev@.len() == orig.len(),
                forall|j: int| 0 <= j < rev@.len() ==> #[trigger] rev@[j] == orig[orig.len() - 1 - j],
            decreases src@.len(),
        {
            let item = src.pop().unwrap();
            proof {
                assert(item == orig[src@.len() as int]);
            }
            rev.push(item);
        }
        let mut out: Vec<U> = Vec::new();
        while rev.len() > 0
            invariant
                out@.len() + rev@.len() == orig.len(),
                forall|j: int| 0 <= j < rev@.len() ==> #[trigger] rev@[j] == orig[orig.len() - 1 - j],
                forall|i: int| 0 <= i < orig.len() ==> #[trigger] f.requires((orig[i],)),
                forall|i: int| 0 <= i < out@.len() ==> #[trigger] f.ensures((orig[i],), out@[i]),
            decreases rev@.len(),
        {
            let item = rev.pop().unwrap();
            proof {
                assert(item == orig[out@.len() as int]);
            }
            out.push(f(item));
        }
        ArrApi { inner: out }
    }

    /// An array of length `n` with no items initialized.
    pub fn uninit(n: &Uint) -> (r: ArrApi<Option<T>>)
        requires
            n@ <= usize::MAX,
        ensures
            r@.len() == n@,
            forall|i: int| 0 <= i < r@.len() ==> r@[i] is None,
    {
        let len = arr_len(n);
        let mut out: Vec<Option<T>> = Vec::new();
        while out.len() < len
            invariant
                out@.len() <= len,
                forall|i: int| 0 <= i < out@.len() ==> out@[i] is None,
            decreases len - out@.len(),
        {
            out.push(None);
        }
        ArrApi { inner: out }
    }
}

impl<T: Copy> ArrApi<T> {
    /// An array of length `n` with every item equal to `item`.
    pub fn of(n: &Uint, item: T) -> (r: Self)
        requires
            n@ <= usize::MAX,
        ensures
            r@.len() == n@,
            forall|i: int| 0 <= i < r@.len() ==> r@[i] == item,
    {
        let len = arr_len(n);
        let mut out: Vec<T> = Vec::new();
        while out.len() < len
            invariant
                out@.len() <= len,
                forall|i: int| 0 <= i < out@.len() ==> out@[i] == item,
            decreases len - out@.len(),
        {
            out.push(item);
        }
        ArrApi { inner: out }
    }

    /// The array resized to length `m`: cut short, or filled up with copies of `item`.
    pub fn resize_with_fill(self, m: &Uint, item: T) -> (r: ArrApi<T>)
        requires
            m@ <= usize::MAX,
        ensures
            r@.len() == m@,
            forall|i: int| 0 <= i < r@.len() && i < self@.len() ==> r@[i] == self@[i],
            forall|i: int| self@.len() <= i < r@.len() ==> r@[i] == item,
    {
        let new_len = arr_len(m);
        let mut v = self.inner;
        if v.len() > new_len {
            v.truncate(new_len);
        } else {
            let ghost orig = v@;
            while v.len() < new_len
                invariant
                    orig.len() <= v@.len() <= new_len,
                    forall|i: int| 0 <= i < orig.len() ==> v@[i] == orig[i],
                    forall|i: int| orig.len() <= i < v@.len() ==> v@[i] == item,
                decreases new_len - v@.len(),
            {
                v.push(item);
            }
        }
        ArrApi { inner: v }
    }

    /// Copies a slice into an array of length `n`, if the slice has that length.
    pub fn from_slice(slice: &[T], n: &Uint) -> (r: Option<Self>)
        ensures
            r is Some <==> slice@.len() == n@,
            r matches Some(a) ==> a@ == slice@,
    {
        match to_usize(n) {
            Some(len) => {
                if len == slice.len() {
                    let mut out: Vec<T> = Vec::new();
                    let mut i: usize = 0;
                    while i < slice.len()
                        invariant
                            i <= slice@.len(),
                            out@ == slice@.take(i as int),
                        decreases slice@.len() - i,
                    {
                        out.push(slice[i]);
                        i = i + 1;
                        proof {
                            assert(out@ =~= slice@.take(i as int));
                        }
                    }
                    proof {
                        assert(out@ =~= slice@);
                    }
                    Some(ArrApi { inner: out })
                } else {
                    None
                }
            },
            None => {
                proof {
                    assert(slice@.len() == slice.len());
                }
                None
            },
        }
    }
}

impl<T> ArrApi<ArrApi<T>> {
    /// Flattens an array of arrays into one long array of items.
    pub fn flatten(self) -> (r: ArrApi<T>)
        ensures
            r@ == self@.map_values(|a: ArrApi<T>| a@).flatten(),
    {
        let ghost orig = self@;
        let mut out: Vec<T> = Vec::new();
        let mut rest = self.inner;
        let ghost mut k: int = 0;
        while rest.len() > 0
            invariant
                0 <= k <= orig.len(),
                rest@ == orig.skip(k),
                out@ == orig.take(k).map_values(|a: ArrApi<T>| a@).flatten(),
            decreases rest@.len(),
        {
            let mut first = rest.remove(0);
            proof {
                assert(first == orig[k]);
                assert(orig.take(k + 1) =~= orig.take(k).push(orig[k]));
                assert(orig.take(k + 1).map_values(|a: ArrApi<T>| a@) =~= orig.take(k).map_values(
                    |a: ArrApi<T>| a@,
                ).push(orig[k]@));
                orig.take(k).map_values(|a: ArrApi<T>| a@).lemma_flatten_push(orig[k]@);
                assert(rest@ =~= orig.skip(k + 1));
                k = k + 1;
            }
            out.append(&mut first.inner);
        }
        proof {
            assert(orig.take(k) =~= orig);
        }
        ArrApi { inner: out }
    }
}

} // verus!

//! A double-ended queue with a fixed capacity, stored as a ring: its items sit in a vector
//! rotated by the position of the first item.
use vstd::prelude::*;
use crate::uint::Uint;
use crate::array::{ArrApi, ArrVecApi, arr_len};
use crate::array::arr_utils::{phys_idx, swap_items};

verus! {

/// The fields of an [`ArrDeqApi`].
pub struct ArrDeqRepr<T> {
    /// Position in `items` of the first item.
    pub head: usize,
    /// The items, rotated: the deque is `items[head..]` followed by `items[..head]`.
    pub items: Vec<T>,
    /// The number of items the deque can hold.
    pub cap: usize,
}

/// Owner of the items of an [`ArrDeqRepr`].
pub struct ArrDeqDrop<T>(pub ArrDeqRepr<T>);

/// A double-ended queue with a fixed capacity, backed by an array.
pub struct ArrDeqApi<T>(ArrDeqDrop<T>);

impl<T> View for ArrDeqApi<T> {
    type V = Seq<T>;

    closed spec fn view(&self) -> Seq<T> {
        let r = self.0.0;
        if r.head <= r.items@.len() {
            r.items@.skip(r.head as int) + r.items@.take(r.head as int)
        } else {
            r.items@
        }
    }
}

/// Reverses the order of the items of `s`.
fn reverse<T>(s: &mut [T])
    ensures
        final(s)@.len() == old(s)@.len(),
        forall|k: int| 0 <= k < old(s)@.len() ==> final(s)@[k] == old(s)@[old(s)@.len() - 1 - k],
{
    let ghost orig = s@;
    let n = s.len();
    let mut i: usize = 0;
    while i < n / 2
        invariant
            n == orig.len() == s@.len(),
            i <= n / 2,
            forall|k: int| 0 <= k < i ==> #[trigger] s@[k] == orig[n - 1 - k],
            forall|k: int| n - i <= k < n ==> #[trigger] s@[k] == orig[n - 1 - k],
            forall|k: int| i <= k < n - i ==> s@[k] == orig[k],
        decreases n / 2 - i,
    {
        swap_items(s, i, n - 1 - i);
        i = i + 1;
    }
}

/// Rotates `s` to the left by `dist`: the item at `dist` moves to the front.
fn rotate_left<T>(s: &mut [T], dist: usize)
    requires
        dist <= old(s)@.len(),
    ensures
        final(s)@ == old(s)@.skip(dist as int) + old(s)@.take(dist as int),
{
    let ghost orig = s@;
    let n = s.len();
    {
        let (lhs, rhs) = s.split_at_mut(dist);
        // EFGHIJKLMN^ABCD
        reverse(lhs);
        // NMLKJIHGFE^ABCD
        reverse(rhs);
        // NMLKJIHGFE^DCBA
    }
    let ghost mid = s@;
    proof {
        assert forall|k: int| 0 <= k < n implies mid[k] == if k < dist {
            orig[dist - 1 - k]
        } else {
            orig[n - 1 - (k - dist)]
        } by {}
    }
    reverse(s);
    // ABCDEFGHIJ^KLMN
    proof {
        assert forall|k: int| 0 <= k < n implies s@[k] == (orig.skip(dist as int) + orig.take(
            dist as int,
        ))[k] by {
            assert(s@[k] == mid[n - 1 - k]);
        }
        assert(s@ =~= orig.skip(dist as int) + orig.take(dist as int));
    }
}

/// The positions of the two pieces of a ring of `len` items that starts at `head` in an array
/// of length `cap`, as `(start, end)` pairs: the part from the head towards the end of the
/// array, and the part that wrapped around to its start.
fn slice_ranges(head: usize, len: usize, cap: usize) -> (r: ((usize, usize), (usize, usize)))
    requires
        head <= cap,
        len <= cap,
    ensures
        r == if len == 0 {
            ((0usize, 0usize), (0usize, 0usize))
        } else if cap - head >= len {
            ((head, (head + len) as usize), (0usize, 0usize))
        } else {
            ((head, cap), (0usize, (len - (cap - head)) as usize))
        },
{
    if len == 0 {
        ((0, 0), (0, 0))
    } else {
        let after_head = cap - head;
        if after_head >= len {
            ((head, head + len), (0, 0))
        } else {
            ((head, cap), (0, len - after_head))
        }
    }
}

impl<T> ArrDeqApi<T> {
    /// The deque's internal invariant.
    pub closed spec fn wf(&self) -> bool {
        let r = self.0.0;
        &&& r.items@.len() <= r.cap
        &&& r.head <= r.items@.len()
        &&& (r.head == r.items@.len() ==> r.head == 0)
    }

    /// The number of items the deque can hold.
    pub closed spec fn cap(&self) -> nat {
        self.0.0.cap as nat
    }

    /// Whether the items are stored in one piece, starting at the front.
    pub closed spec fn is_contiguous(&self) -> bool {
        self.0.0.head == 0
    }

    /// How many items [`Self::as_slices`] gives in its first piece: those from the head up
    /// to the end of the storage.
    pub closed spec fn front_len(&self) -> nat {
        (self.0.0.items@.len() - self.0.0.head) as nat
    }

    /// A contiguous deque is given by [`Self::as_slices`] in one piece: the first piece holds
    /// every item and the second none. [`Self::make_contiguous`] makes a deque contiguous.
    pub proof fn lemma_contiguous_in_one_piece(&self)
        requires
            self.wf(),
            self.is_contiguous(),
        ensures
            self.front_len() == self@.len(),
    {
    }

    /// A deque never holds more items than its capacity.
    pub proof fn lemma_len_le_cap(&self)
        requires
            self.wf(),
        ensures
            self@.len() <= self.cap(),
    {
    }

    /// Creates an empty deque with capacity `n`.
    pub fn new(n: &Uint) -> (r: Self)
        requires
            n@ <= usize::MAX,
        ensures
            r.wf(),
            r@ == Seq::<T>::empty(),
            r.cap() == n@,
            r.is_contiguous(),
    {
        let r = ArrDeqApi(ArrDeqDrop(ArrDeqRepr { head: 0, items: Vec::new(), cap: arr_len(n) }));
        proof {
            assert(r@ =~= Seq::<T>::empty());
        }
        r
    }

    /// A contiguous deque of capacity `cap` holding `items`.
    pub fn from_items(items: Vec<T>, cap: usize) -> (r: Self)
        requires
            items@.len() <= cap,
        ensures
            r.wf(),
            r@ == items@,
            r.cap() == cap,
            r.is_contiguous(),
    {
        let ghost all = items@;
        let r = ArrDeqApi(ArrDeqDrop(ArrDeqRepr { head: 0, items, cap }));
        proof {
            assert(r@ =~= all);
        }
        r
    }

    /// Creates a full deque holding the items of `full`, in order.
    pub fn new_full(full: ArrApi<T>) -> (r: Self)
        ensures
            r.wf(),
            r@ == full@,
            r.cap() == full@.len(),
            r.is_contiguous(),
    {
        let len = full.inner.len();
        Self::from_items(full.inner, len)
    }

    /// The number of items the deque can hold.
    pub fn capacity(&self) -> (r: usize)
        ensures
            r == self.cap(),
    {
        self.0.0.cap
    }

    /// The number of items in the deque.
    pub fn len(&self) -> (r: usize)
        ensures
            r == self@.len(),
    {
        self.0.0.items.len()
    }

    /// Whether the deque is empty.
    pub fn is_empty(&self) -> (r: bool)
        ensures
            r == (self@.len() == 0),
    {
        self.len() == 0
    }

    /// Whether the deque is full.
    pub fn is_full(&self) -> (r: bool)
        ensures
            r == (self@.len() >= self.cap()),
            self.wf() ==> r == (self@.len() == self.cap()),
    {
        self.len() >= self.capacity()
    }

    /// Removes and returns the first item, if any.
    pub fn pop_front(&mut self) -> (r: Option<T>)
        requires
            old(self).wf(),
        ensures
            final(self).wf(),
            final(self).cap() == old(self).cap(),
            old(self)@.len() == 0 ==> r is None && final(self)@ == old(self)@,
            old(self)@.len() > 0 ==> r == Some(old(self)@[0]) && final(self)@ == old(self)@.drop_first(),
    {
        if self.is_empty() {
            return None;
        }
        let ghost old_view = self@;
        let ghost old_items = self.0.0.items@;
        let head = self.0.0.head;
        let len = self.0.0.items.len();
        let item = self.0.0.items.remove(head);
        self.0.0.head = phys_idx(head, len - 1);
        proof {
            assert(item == old_view[0]);
            assert(self@ =~= old_view.drop_first());
        }
        Some(item)
    }

    /// Removes and returns the last item, if any.
    pub fn pop_back(&mut self) -> (r: Option<T>)
        requires
            old(self).wf(),
        ensures
            final(self).wf(),
            final(self).cap() == old(self).cap(),
            old(self)@.len() == 0 ==> r is None && final(self)@ == old(self)@,
            old(self)@.len() > 0 ==> r == Some(old(self)@.last()) && final(self)@ == old(self)@.drop_last(),
    {
        if self.is_empty() {
            return None;
        }
        let ghost old_view = self@;
        let head = self.0.0.head;
        let len = self.0.0.items.len();
        let last = if head == 0 {
            len - 1
        } else {
            head - 1
        };
        let item = self.0.0.items.remove(last);
        if head > 0 {
            self.0.0.head = head - 1;
        }
        proof {
            assert(item == old_view.last());
            assert(self@ =~= old_view.drop_last());
        }
        Some(item)
    }

    /// Adds `item` at the front, or hands it back if the deque is full.
    pub fn try_push_front(&mut self, item: T) -> (r: Result<(), T>)
        requires
            old(self).wf(),
        ensures
            final(self).wf(),
            final(self).cap() == old(self).cap(),
            old(self)@.len() >= old(self).cap() ==> r == Err::<(), T>(item) && final(self)@ == old(self)@,
            old(self)@.len() < old(self).cap() ==> r is Ok && final(self)@ == seq![item] + old(self)@,
    {
        if self.is_full() {
            return Err(item);
        }
        let ghost old_view = self@;
        let head = self.0.0.head;
        self.0.0.items.insert(head, item);
        proof {
            assert(self@ =~= seq![item] + old_view);
        }
        Ok(())
    }

    /// Adds `item` at the back, or hands it back if the deque is full.
    pub fn try_push_back(&mut self, item: T) -> (r: Result<(), T>)
        requires
            old(self).wf(),
        ensures
            final(self).wf(),
            final(self).cap() == old(self).cap(),
            old(self)@.len() >= old(self).cap() ==> r == Err::<(), T>(item) && final(self)@ == old(self)@,
            old(self)@.len() < old(self).cap() ==> r is Ok && final(self)@ == old(self)@.push(item),
    {
        if self.is_full() {
            return Err(item);
        }
        let ghost old_view = self@;
        let head = self.0.0.head;
        if head == 0 {
            self.0.0.items.push(item);
        } else {
            self.0.0.items.insert(head, item);
            self.0.0.head = head + 1;
        }
        proof {
            assert(self@ =~= old_view.push(item));
        }
        Ok(())
    }

    /// Adds `item` at the front. The deque must not be full.
    pub fn push_front(&mut self, item: T)
        requires
            old(self).wf(),
            old(self)@.len() < old(self).cap(),
        ensures
            final(self).wf(),
            final(self).cap() == old(self).cap(),
            final(self)@ == seq![item] + old(self)@,
    {
        let _ = self.try_push_front(item);
    }

    /// Adds `item` at the back. The deque must not be full.
    pub fn push_back(&mut self, item: T)
        requires
            old(self).wf(),
            old(self)@.len() < old(self).cap(),
        ensures
            final(self).wf(),
            final(self).cap() == old(self).cap(),
            final(self)@ == old(self)@.push(item),
    {
        let _ = self.try_push_back(item);
    }

    /// The items as two slices: the items in order are the first slice followed by the
    /// second.
    ///
    /// If the deque is contiguous, the second slice is empty. The first slice is empty only
    /// when the deque is.
    pub fn as_slices(&self) -> (r: (&[T], &[T]))
        requires
            self.wf(),
        ensures
            r.0@ + r.1@ == self@,
            r.0@.len() == self.front_len(),
            self.is_contiguous() ==> r.1@.len() == 0,
            r.0@.len() == 0 ==> self@.len() == 0,
    {
        let items = self.0.0.items.as_slice();
        let len = items.len();
        let (lhs, rhs) = slice_ranges(self.0.0.head, len, len);
        let a = &items[lhs.0..lhs.1];
        let b = &items[rhs.0..rhs.1];
        proof {
            assert(a@ + b@ =~= self@);
        }
        (a, b)
    }

    /// The items as two mutable slices: the items in order are the first slice followed by
    /// the second, and the deque afterwards holds what the two slices hold then.
    ///
    /// If the deque is contiguous, the second slice is empty. The first slice is empty only
    /// when the deque is. What the deque holds afterwards is stated on the premise that the
    /// slices keep their lengths, which slices always do but the prover does not know.
    pub fn as_mut_slices(&mut self) -> (r: (&mut [T], &mut [T]))
        requires
            old(self).wf(),
        ensures
            r.0@ + r.1@ == old(self)@,
            r.0@.len() == old(self).front_len(),
            old(self).is_contiguous() ==> r.1@.len() == 0,
            r.0@.len() == 0 ==> old(self)@.len() == 0,
            final(self).cap() == old(self).cap(),
            final(self).is_contiguous() == old(self).is_contiguous(),
            final(r.0)@.len() == r.0@.len() && final(r.1)@.len() == r.1@.len() ==> final(self).wf()
                && final(self)@ == final(r.0)@ + final(r.1)@,
    {
        let ghost old_view = self@;
        let head = self.0.0.head;
        let (lhs, rhs) = self.0.0.items.as_mut_slice().split_at_mut(head);
        proof {
            assert(rhs@ + lhs@ =~= old_view);
        }
        (rhs, lhs)
    }

    /// Rotates the storage so that the items are in one piece starting at the front, and
    /// gives them as one mutable slice; the deque afterwards holds what the slice holds then.
    ///
    /// Afterwards [`Self::as_slices`] and [`Self::as_mut_slices`] give an empty second slice.
    /// The deque keeps its invariant as long as the slice keeps its length, which a slice
    /// always does; the last clause states that premise because the prover does not know it.
    pub fn make_contiguous(&mut self) -> (r: &mut [T])
        requires
            old(self).wf(),
        ensures
            r@ == old(self)@,
            final(self).cap() == old(self).cap(),
            final(self).is_contiguous(),
            final(self)@ == final(r)@,
            final(r)@.len() == r@.len() ==> final(self).wf(),
    {
        let head = self.0.0.head;
        rotate_left(self.0.0.items.as_mut_slice(), head);
        self.0.0.head = 0;
        let r = self.0.0.items.as_mut_slice();
        proof {
            assert(r@.skip(0) =~= r@);
            assert(r@.take(0) =~= Seq::<T>::empty());
        }
        r
    }

    /// Moves the items into an [`ArrVecApi`] with the same capacity.
    pub fn into_arr_vec(self) -> (r: ArrVecApi<T>)
        requires
            self.wf(),
        ensures
            r.wf(),
            r@ == self@,
            r.cap() == self.cap(),
    {
        let mut this = self;
        this.make_contiguous();
        let ArrDeqApi(ArrDeqDrop(ArrDeqRepr { head, items, cap })) = this;
        proof {
            assert(items@.skip(0) + items@.take(0) =~= items@);
        }
        ArrVecApi::from_parts(items, cap)
    }

    /// Moves the items into a full array. The deque must be full.
    pub fn assert_full(self) -> (r: ArrApi<T>)
        requires
            self.wf(),
            self@.len() >= self.cap(),
        ensures
            r@ == self@,
    {
        let mut this = self;
        this.make_contiguous();
        let ArrDeqApi(ArrDeqDrop(ArrDeqRepr { head, items, cap })) = this;
        proof {
            assert(items@.skip(0) + items@.take(0) =~= items@);
        }
        ArrApi { inner: items }
    }

    /// Discards the deque, which must be empty.
    pub fn assert_empty(self)
        requires
            self@.len() == 0,
    {
    }
}

} // verus!

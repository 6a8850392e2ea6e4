//! Building arrays item by item, taking them apart item by item, and a counter of
//! arbitrary size in `usize` digits.
use vstd::prelude::*;
use vstd::arithmetic::power::{pow, lemma_pow_adds, lemma_pow1, lemma_pow0};
use core::cmp::Ordering;
use crate::uint::Uint;
use crate::capnum::{to_digit_wrapping, zero_digits};
use crate::digits::{base, le_value, digit_len, lemma_le_split, lemma_le_zero, lemma_le_all_max, lemma_le_bound, lemma_le_first_difference, lemma_base_pow2, suffix, lemma_digit_len_bound};
use crate::ops;
use crate::consts::ptr_width;
use crate::array::{ArrApi, ArrVecApi, ArrDeqApi};

verus! {

/// `n` without its last `usize` digit, i.e. `n / (usize::MAX + 1)`.
pub fn pop_digit(n: &Uint) -> (r: Uint)
    ensures
        r@ == n@ / base(),
{
    proof {
        lemma_base_pow2();
    }
    ops::shr(n, &ptr_width())
}

/// Appending a digit at the most significant end.
proof fn lemma_le_push(s: Seq<usize>, d: usize)
    ensures
        le_value(s.push(d)) == le_value(s) + pow(base() as int, s.len()) * d,
{
    let t = s.push(d);
    let one = seq![d];
    lemma_le_split(t, s.len() as int);
    assert(t.take(s.len() as int) =~= s);
    assert(t.skip(s.len() as int) =~= one);
    assert(one.drop_first() =~= Seq::<usize>::empty());
    assert(one[0] == d);
    let rest = le_value(one.drop_first());
    assert(rest == 0);
    assert(base() * rest == 0) by (nonlinear_arith)
        requires
            rest == 0,
    ;
    assert(le_value(one) == d);
}

/// The little-endian `usize` digits of `n`.
pub fn digits_of(n: &Uint) -> (r: Vec<usize>)
    ensures
        le_value(r@) == n@,
        r@.len() == digit_len(n@),
{
    let mut digits: Vec<usize> = Vec::new();
    let mut rest = n.duplicate();
    proof {
        lemma_pow0(base() as int);
    }
    while rest.is_nonzero()
        invariant
            le_value(digits@) + pow(base() as int, digits@.len()) * rest@ == n@,
            digits@.len() + digit_len(rest@) == digit_len(n@),
        decreases rest@,
    {
        let d = to_digit_wrapping(&rest);
        let next = pop_digit(&rest);
        proof {
            let p = pow(base() as int, digits@.len());
            lemma_le_push(digits@, d);
            lemma_pow_adds(base() as int, digits@.len(), 1);
            lemma_pow1(base() as int);
            vstd::arithmetic::div_mod::lemma_fundamental_div_mod(rest@ as int, base() as int);
            assert(p * rest@ == p * d + (p * base()) * next@) by (nonlinear_arith)
                requires
                    rest@ == base() * next@ + d,
            ;
            vstd::arithmetic::div_mod::lemma_div_decreases(rest@ as int, base() as int);
        }
        digits.push(d);
        rest = next;
    }
    digits
}

/// A counter from `0` up to a bound `N`, kept as little-endian `usize` digits.
pub struct BigCounter {
    digits: Vec<usize>,
    bound: Uint,
}

impl View for BigCounter {
    type V = nat;

    closed spec fn view(&self) -> nat {
        le_value(self.digits@)
    }
}

impl BigCounter {
    /// The counter's internal invariant: it is at most its bound, written with as many
    /// digits as the bound.
    pub closed spec fn wf(&self) -> bool {
        &&& self.digits@.len() == digit_len(self.bound@)
        &&& le_value(self.digits@) <= self.bound@
    }

    /// The largest value the counter can hold.
    pub closed spec fn bound_spec(&self) -> nat {
        self.bound@
    }

    /// A counter at zero.
    pub fn zero(bound: &Uint) -> (r: Self)
        ensures
            r.wf(),
            r@ == 0,
            r.bound_spec() == bound@,
    {
        let digits = zero_digits(bound);
        proof {
            crate::digits::lemma_be_zero(digits@);
            lemma_le_zero(digits@);
        }
        BigCounter { digits, bound: bound.duplicate() }
    }

    /// A counter at its bound.
    pub fn max(bound: &Uint) -> (r: Self)
        ensures
            r.wf(),
            r@ == bound@,
            r.bound_spec() == bound@,
    {
        BigCounter { digits: digits_of(bound), bound: bound.duplicate() }
    }

    /// Whether the counter is at zero.
    pub fn is_zero(&self) -> (r: bool)
        ensures
            r == (self@ == 0),
    {
        let mut i: usize = self.digits.len();
        while i > 0
            invariant
                i <= self.digits@.len(),
                forall|j: int| i <= j < self.digits@.len() ==> self.digits@[j] == 0,
            decreases i,
        {
            if self.digits[i - 1] != 0 {
                proof {
                    lemma_le_zero(self.digits@);
                }
                return false;
            }
            i = i - 1;
        }
        proof {
            lemma_le_zero(self.digits@);
        }
        true
    }

    /// Counts down by one, unless the counter is at zero. Returns whether it counted.
    pub fn dec(&mut self) -> (r: bool)
        requires
            old(self).wf(),
        ensures
            final(self).wf(),
            final(self).bound_spec() == old(self).bound_spec(),
            r == (old(self)@ > 0),
            final(self)@ == if old(self)@ > 0 { (old(self)@ - 1) as nat } else { old(self)@ },
    {
        if self.is_zero() {
            return false;
        }
        digits_dec(&mut self.digits);
        true
    }

    /// Counts up by one. The counter must be below its bound.
    pub fn inc(&mut self)
        requires
            old(self).wf(),
            old(self)@ < old(self).bound_spec(),
        ensures
            final(self).wf(),
            final(self).bound_spec() == old(self).bound_spec(),
            final(self)@ == old(self)@ + 1,
    {
        proof {
            lemma_digit_len_bound(self.bound@);
        }
        digits_inc(&mut self.digits);
    }

    /// How the counter compares to its bound.
    pub fn cmp_max(&self) -> (r: Ordering)
        requires
            self.wf(),
        ensures
            r == Ordering::Less <==> self@ < self.bound_spec(),
            r == Ordering::Equal <==> self@ == self.bound_spec(),
            r == Ordering::Greater <==> self@ > self.bound_spec(),
    {
        let max = digits_of(&self.bound);
        let mut i: usize = self.digits.len();
        while i > 0
            invariant
                i <= self.digits@.len() == max@.len(),
                le_value(max@) == self.bound@,
                suffix(self.digits@, i) == suffix(max@, i),
            decreases i,
        {
            let l = self.digits[i - 1];
            let m = max[i - 1];
            if l < m {
                proof {
                    lemma_le_first_difference(self.digits@, max@, i - 1);
                }
                return Ordering::Less;
            } else if l > m {
                proof {
                    lemma_le_first_difference(max@, self.digits@, i - 1);
                }
                return Ordering::Greater;
            }
            proof {
                assert(self.digits@.skip(i - 1) =~= seq![l] + suffix(self.digits@, i));
                assert(max@.skip(i - 1) =~= seq![m] + suffix(max@, i));
            }
            i = i - 1;
        }
        proof {
            assert(self.digits@ =~= self.digits@.skip(0));
            assert(max@ =~= max@.skip(0));
        }
        Ordering::Equal
    }
}

/// Builds an array item by item, front to back.
pub struct ArrBuilder<T> {
    inner: ArrVecApi<T>,
}

impl<T> View for ArrBuilder<T> {
    type V = Seq<T>;

    closed spec fn view(&self) -> Seq<T> {
        self.inner@
    }
}

impl<T> ArrBuilder<T> {
    /// The builder's internal invariant.
    pub closed spec fn wf(&self) -> bool {
        self.inner.wf()
    }

    /// The length of the array being built.
    pub closed spec fn len_spec(&self) -> nat {
        self.inner.cap()
    }

    /// A builder for an array of length `n`, holding no items yet.
    pub fn new(n: &Uint) -> (r: Self)
        requires
            n@ <= usize::MAX,
        ensures
            r.wf(),
            r@ == Seq::<T>::empty(),
            r.len_spec() == n@,
    {
        ArrBuilder { inner: ArrVecApi::new(n) }
    }

    /// Adds the next item. The array must not be complete yet.
    pub fn push(&mut self, item: T)
        requires
            old(self).wf(),
            old(self)@.len() < old(self).len_spec(),
        ensures
            final(self).wf(),
            final(self).len_spec() == old(self).len_spec(),
            final(self)@ == old(self)@.push(item),
    {
        self.inner.push(item);
    }

    /// The finished array. All its items must have been added.
    pub fn into_full(self) -> (r: ArrApi<T>)
        requires
            self.wf(),
            self@.len() == self.len_spec(),
        ensures
            r@ == self@,
    {
        self.inner.assert_full()
    }
}

/// Takes an array apart item by item, front to back.
pub struct ArrConsumer<T> {
    inner: ArrDeqApi<T>,
}

impl<T> View for ArrConsumer<T> {
    type V = Seq<T>;

    closed spec fn view(&self) -> Seq<T> {
        self.inner@
    }
}

impl<T> ArrConsumer<T> {
    /// The consumer's internal invariant.
    pub closed spec fn wf(&self) -> bool {
        self.inner.wf()
    }

    /// A consumer that yields the items of `arr` in order.
    pub fn new(arr: ArrApi<T>) -> (r: Self)
        ensures
            r.wf(),
            r@ == arr@,
    {
        ArrConsumer { inner: ArrDeqApi::new_full(arr) }
    }

    /// The next item, if any are left.
    pub fn next(&mut self) -> (r: Option<T>)
        requires
            old(self).wf(),
        ensures
            final(self).wf(),
            old(self)@.len() == 0 ==> r is None && final(self)@ == old(self)@,
            old(self)@.len() > 0 ==> r == Some(old(self)@[0]) && final(self)@ == old(self)@.drop_first(),
    {
        self.inner.pop_front()
    }
}

/// Yields references to the items of an array, front to back.
pub struct ArrRefConsumer<'a, T> {
    items: &'a [T],
    pos: usize,
}

impl<'a, T> View for ArrRefConsumer<'a, T> {
    type V = Seq<T>;

    /// The items not yet yielded.
    closed spec fn view(&self) -> Seq<T> {
        self.items@.skip(self.pos as int)
    }
}

impl<'a, T> ArrRefConsumer<'a, T> {
    #[verifier::type_invariant]
    closed spec fn inv(self) -> bool {
        self.pos <= self.items@.len()
    }

    /// A consumer that yields references to the items of `arr` in order.
    pub fn new(arr: &'a ArrApi<T>) -> (r: Self)
        ensures
            r@ == arr@,
    {
        let items = arr.as_slice();
        proof {
            assert(items@.skip(0) =~= items@);
        }
        ArrRefConsumer { items, pos: 0 }
    }

    /// What is left to yield after `k` calls of [`Self::next`] on a consumer that has `rest`
    /// left: by the contract of `next`, each call drops the first item, and changes nothing
    /// once none are left.
    pub open spec fn left_after(rest: Seq<T>, k: nat) -> Seq<T>
        decreases k,
    {
        if k == 0 || rest.len() == 0 {
            rest
        } else {
            Self::left_after(rest.drop_first(), (k - 1) as nat)
        }
    }

    /// After `k` calls of [`Self::next`] on a consumer made from an array with items `a`,
    /// what is left is `a` without its first `k` items; so the next call yields a reference
    /// to `a[k]` when `k` is below the length and nothing otherwise: exactly as many calls as
    /// there are items yield one.
    pub proof fn lemma_kth_call(a: Seq<T>, k: nat)
        ensures
            Self::left_after(a, k) == a.skip(if k < a.len() { k as int } else { a.len() as int }),
            k < a.len() ==> Self::left_after(a, k).len() > 0 && Self::left_after(a, k)[0] == a[k as int],
            k >= a.len() ==> Self::left_after(a, k).len() == 0,
        decreases k,
    {
        if k == 0 {
            assert(a.skip(0) =~= a);
        } else if a.len() == 0 {
            assert(a.skip(0) =~= a);
        } else {
            Self::lemma_kth_call(a.drop_first(), (k - 1) as nat);
            let m = if k < a.len() { k as int } else { a.len() as int };
            assert(a.drop_first().skip(m - 1) =~= a.skip(m));
        }
    }

    /// A reference to the next item, if any are left.
    pub fn next(&mut self) -> (r: Option<&'a T>)
        ensures
            old(self)@.len() == 0 ==> r is None && final(self)@ == old(self)@,
            old(self)@.len() > 0 ==> r == Some(&old(self)@[0]) && final(self)@ == old(self)@.drop_first(),
    {
        proof {
            use_type_invariant(&*self);
        }
        if self.pos < self.items.len() {
            let item = &self.items[self.pos];
            self.pos = self.pos + 1;
            proof {
                assert(self.items@.skip(self.pos as int) =~= old(self)@.drop_first());
            }
            Some(item)
        } else {
            None
        }
    }
}

/// Subtracts one from a positive number written in little-endian digits, keeping the
/// number of digits.
fn digits_dec(v: &mut Vec<usize>)
    requires
        le_value(old(v)@) > 0,
    ensures
        final(v)@.len() == old(v)@.len(),
        le_value(final(v)@) == le_value(old(v)@) - 1,
{
    let ghost orig = v@;
    proof {
        lemma_le_zero(orig);
    }
    let len = v.len();
    let mut i: usize = 0;
    loop
        invariant_except_break
            i < orig.len(),
            len == orig.len(),
            v@.len() == orig.len(),
            exists|k: int| i <= k < orig.len() && orig[k] != 0,
            forall|j: int| 0 <= j < i ==> #[trigger] orig[j] == 0,
            forall|j: int| 0 <= j < i ==> #[trigger] v@[j] == usize::MAX,
            forall|j: int| i <= j < orig.len() ==> #[trigger] v@[j] == orig[j],
        ensures
            i < orig.len(),
            v@.len() == orig.len(),
            forall|j: int| 0 <= j < i ==> #[trigger] orig[j] == 0,
            forall|j: int| 0 <= j < i ==> #[trigger] v@[j] == usize::MAX,
            orig[i as int] > 0,
            v@[i as int] == orig[i as int] - 1,
            forall|j: int| i < j < orig.len() ==> #[trigger] v@[j] == orig[j],
        decreases orig.len() - i,
    {
        let d = v[i];
        if d == 0 {
            v.set(i, usize::MAX);
            proof {
                let k = choose|k: int| i <= k < orig.len() && orig[k] != 0;
                assert(k > i);
            }
            i = i + 1;
        } else {
            v.set(i, d - 1);
            break;
        }
    }
    proof {
        let s = v@;
        lemma_le_split(orig, i as int);
        lemma_le_split(s, i as int);
        assert forall|j: int| 0 <= j < i implies #[trigger] orig.take(i as int)[j] == 0 by {
            assert(orig[j] == 0);
        }
        lemma_le_zero(orig.take(i as int));
        assert forall|j: int| 0 <= j < i implies #[trigger] s.take(i as int)[j] == usize::MAX by {
            assert(s[j] == usize::MAX);
        }
        lemma_le_all_max(s.take(i as int));
        assert(s.skip(i + 1) =~= orig.skip(i + 1));
        assert(orig.skip(i as int).drop_first() =~= orig.skip(i + 1));
        assert(s.skip(i as int).drop_first() =~= s.skip(i + 1));
        let p = pow(base() as int, i as nat);
        let rest = le_value(orig.skip(i + 1));
        assert(p * (orig[i as int] + base() * rest) == (p - 1) + p * (orig[i as int] - 1
            + base() * rest) + 1) by (nonlinear_arith);
    }
}

/// Adds one to a number written in little-endian digits, which must stay below the base
/// to the power of their number.
fn digits_inc(v: &mut Vec<usize>)
    requires
        le_value(old(v)@) + 1 < pow(base() as int, old(v)@.len()),
    ensures
        final(v)@.len() == old(v)@.len(),
        le_value(final(v)@) == le_value(old(v)@) + 1,
{
    let ghost orig = v@;
    let len = v.len();
    let mut i: usize = 0;
    loop
        invariant_except_break
            i <= orig.len(),
            len == orig.len(),
            v@.len() == orig.len(),
            le_value(orig) + 1 < pow(base() as int, orig.len()),
            forall|j: int| 0 <= j < i ==> #[trigger] orig[j] == usize::MAX,
            forall|j: int| 0 <= j < i ==> #[trigger] v@[j] == 0,
            forall|j: int| i <= j < orig.len() ==> #[trigger] v@[j] == orig[j],
        ensures
            i < orig.len(),
            v@.len() == orig.len(),
            forall|j: int| 0 <= j < i ==> #[trigger] orig[j] == usize::MAX,
            forall|j: int| 0 <= j < i ==> #[trigger] v@[j] == 0,
            orig[i as int] < usize::MAX,
            v@[i as int] == orig[i as int] + 1,
            forall|j: int| i < j < orig.len() ==> #[trigger] v@[j] == orig[j],
        decreases orig.len() - i,
    {
        if i == len {
            proof {
                lemma_le_all_max(orig);
            }
            vstd::pervasive::unreached::<()>();
            break;
        }
        let d = v[i];
        if d == usize::MAX {
            v.set(i, 0);
            i = i + 1;
        } else {
            v.set(i, d + 1);
            break;
        }
    }
    proof {
        let s = v@;
        lemma_le_split(orig, i as int);
        lemma_le_split(s, i as int);
        assert forall|j: int| 0 <= j < i implies #[trigger] s.take(i as int)[j] == 0 by {
            assert(s[j] == 0);
        }
        lemma_le_zero(s.take(i as int));
        assert forall|j: int| 0 <= j < i implies #[trigger] orig.take(i as int)[j] == usize::MAX by {
            assert(orig[j] == usize::MAX);
        }
        lemma_le_all_max(orig.take(i as int));
        assert(s.skip(i + 1) =~= orig.skip(i + 1));
        assert(orig.skip(i as int).drop_first() =~= orig.skip(i + 1));
        assert(s.skip(i as int).drop_first() =~= s.skip(i + 1));
        let p = pow(base() as int, i as nat);
        let rest = le_value(orig.skip(i + 1));
        assert((p - 1) + p * (orig[i as int] + base() * rest) + 1 == p * (orig[i as int] + 1
            + base() * rest)) by (nonlinear_arith);
    }
}

} // verus!

//! Numbers with a fixed upper bound, written as big-endian `usize` digits.
//!
//! A [`CapUint`] holds a number from `0` up to its bound (inclusive). It is stored with as
//! many digits as the bound needs, most significant digit first.
use vstd::prelude::*;
use core::cmp::Ordering;
use vstd::arithmetic::power::pow;
use crate::uint::{Uint, to_bool, to_usize_overflowing};
use crate::ops;
use crate::digits::{
    base, be_value, digit_len, lemma_be_zero, lemma_be_bound, lemma_be_leading_zeros, lemma_digit_len_bound,
    lemma_digit_len_monotone,
};
use crate::array::helper::{pop_digit, digits_of};

pub mod capnum_utils;
pub mod to_prim;

verus! {

/// The last `usize` digit of `n`, i.e. `n` modulo `usize::MAX + 1`.
pub fn to_digit_wrapping(n: &Uint) -> (r: usize)
    ensures
        r == n@ % base(),
{
    to_usize_overflowing(n).0
}

/// The number of `usize` digits that `n` needs.
pub fn digit_arr_len(n: &Uint) -> (r: Uint)
    ensures
        r@ == digit_len(n@),
    decreases n@,
{
    if to_bool(n) {
        let rest = pop_digit(n);
        proof {
            vstd::arithmetic::div_mod::lemma_div_decreases(n@ as int, base() as int);
        }
        ops::inc(&digit_arr_len(&rest))
    } else {
        Uint::zero()
    }
}

/// As many zero digits as `n` has digits.
pub fn zero_digits(n: &Uint) -> (r: Vec<usize>)
    ensures
        r@.len() == digit_len(n@),
        be_value(r@) == 0,
{
    let mut digits = digits_of(n);
    let mut i: usize = 0;
    while i < digits.len()
        invariant
            i <= digits@.len() == digit_len(n@),
            forall|j: int| 0 <= j < i ==> digits@[j] == 0,
        decreases digits@.len() - i,
    {
        digits.set(i, 0);
        i = i + 1;
    }
    proof {
        lemma_be_zero(digits@);
    }
    digits
}

/// The `len` least significant digits of `digits`, if the digits in front of them are all
/// zero, i.e. if the number is below the base to the power `len`.
fn fit_digits(digits: &[usize], len: usize) -> (r: Option<&[usize]>)
    ensures
        r is Some <==> be_value(digits@) < pow(base() as int, len as nat),
        r is Some ==> be_value(r->0@) == be_value(digits@) && r->0@.len() <= len,
{
    let cut = if digits.len() > len { digits.len() - len } else { 0 };
    let (truncated, kept) = digits.split_at(cut);
    proof {
        assert(digits@ =~= truncated@ + kept@);
        assert(digits@.take(cut as int) =~= truncated@);
        assert(digits@.skip(cut as int) =~= kept@);
        lemma_be_bound(kept@);
    }
    if !capnum_utils::is_zero(truncated) {
        proof {
            crate::digits::lemma_be_high_nonzero(digits@, cut as int);
        }
        return None;
    }
    proof {
        lemma_be_zero(truncated@);
        assert forall|i: int| 0 <= i < cut implies digits@[i] == 0 by {
            assert(digits@[i] == truncated@[i]);
        }
        lemma_be_leading_zeros(digits@, cut as int);
        if kept@.len() < len {
            vstd::arithmetic::power::lemma_pow_increases(base(), kept@.len(), len as nat);
        }
    }
    Some(kept)
}

/// A number from `0` up to a bound (inclusive).
pub struct CapUint {
    digits: Vec<usize>,
    cap: Uint,
}

impl View for CapUint {
    type V = nat;

    closed spec fn view(&self) -> nat {
        be_value(self.digits@)
    }
}

impl CapUint {
    #[verifier::type_invariant]
    closed spec fn inv(self) -> bool {
        &&& self.digits@.len() == digit_len(self.cap@)
        &&& be_value(self.digits@) <= self.cap@
    }

    /// The bound: the largest number this can hold.
    pub closed spec fn cap_spec(&self) -> nat {
        self.cap@
    }

    /// Zero, with bound `n`.
    pub fn zero(n: &Uint) -> (r: CapUint)
        ensures
            r@ == 0,
            r.cap_spec() == n@,
    {
        CapUint { digits: zero_digits(n), cap: n.duplicate() }
    }

    /// The bound `n` itself, with bound `n`.
    pub fn max(n: &Uint) -> (r: CapUint)
        ensures
            r@ == n@,
            r.cap_spec() == n@,
        decreases n@,
    {
        if to_bool(n) {
            let rest = pop_digit(n);
            proof {
                vstd::arithmetic::div_mod::lemma_div_decreases(n@ as int, base() as int);
            }
            let prefix = CapUint::max(&rest);
            proof {
                use_type_invariant(&prefix);
            }
            let last = to_digit_wrapping(n);
            let mut digits = prefix.digits;
            let ghost before = digits@;
            digits.push(last);
            proof {
                assert(digits@.drop_last() =~= before);
                vstd::arithmetic::div_mod::lemma_fundamental_div_mod(n@ as int, base() as int);
                assert(be_value(digits@) == be_value(before) * base() + last);
                assert((n@ / base()) * base() == base() * (n@ / base())) by (nonlinear_arith);
            }
            CapUint { digits, cap: n.duplicate() }
        } else {
            CapUint::zero(n)
        }
    }

    /// The number with big-endian `digits` and bound `n`; the digits must be as many as `n`
    /// has, and denote at most `n`.
    fn from_digits(digits: Vec<usize>, n: &Uint) -> (r: CapUint)
        requires
            digits@.len() == digit_len(n@),
            be_value(digits@) <= n@,
        ensures
            r@ == be_value(digits@),
            r.cap_spec() == n@,
    {
        CapUint { digits, cap: n.duplicate() }
    }

    /// The digits, most significant first.
    fn as_digits(&self) -> (r: &[usize])
        ensures
            be_value(r@) == self@,
            r@.len() == digit_len(self.cap_spec()),
    {
        proof {
            use_type_invariant(self);
        }
        self.digits.as_slice()
    }

    /// The bound.
    pub fn cap(&self) -> (r: Uint)
        ensures
            r@ == self.cap_spec(),
    {
        self.cap.duplicate()
    }
}

impl CapUint {
    /// The same number with bound `m`, if it is at most `m`.
    pub fn try_resize(&self, m: &Uint) -> (r: Option<CapUint>)
        ensures
            r is Some <==> self@ <= m@,
            r is Some ==> r->0@ == self@ && r->0.cap_spec() == m@,
    {
        proof {
            use_type_invariant(self);
        }
        let new_len = digits_of(m).len();
        proof {
            lemma_digit_len_bound(m@);
        }
        let kept = match fit_digits(self.as_digits(), new_len) {
            Some(kept) => kept,
            None => return None,
        };
        let resized = capnum_utils::left_pad(kept, new_len);
        let max = CapUint::max(m);
        match capnum_utils::cmp(resized.as_slice(), max.as_digits()) {
            Ordering::Greater => None,
            _ => Some(CapUint::from_digits(resized, m)),
        }
    }

    /// The same number with bound `m`, and `false` for "nothing was lost". The number must be
    /// at most `m`.
    pub fn resize_overflowing(&self, m: &Uint) -> (r: (CapUint, bool))
        requires
            self@ <= m@,
        ensures
            r.0@ == self@,
            r.0.cap_spec() == m@,
            !r.1,
    {
        match self.cmp(&CapUint::max(m)) {
            Ordering::Greater => vstd::pervasive::unreached(),
            _ => match self.try_resize(m) {
                Some(r) => (r, false),
                None => vstd::pervasive::unreached(),
            },
        }
    }

    /// The sum, with the sum of the bounds as its bound.
    pub fn add(&self, rhs: &CapUint) -> (r: CapUint)
        ensures
            r@ == self@ + rhs@,
            r.cap_spec() == self.cap_spec() + rhs.cap_spec(),
    {
        proof {
            use_type_invariant(self);
            use_type_invariant(rhs);
        }
        let cap = ops::add(&self.cap, &rhs.cap);
        let mut out = zero_digits(&cap);
        proof {
            lemma_digit_len_monotone(self.cap@, cap@);
            lemma_digit_len_monotone(rhs.cap@, cap@);
            lemma_digit_len_bound(cap@);
        }
        let ghost before = out@;
        capnum_utils::add(self.as_digits(), rhs.as_digits(), out.as_mut_slice());
        proof {
            let m = crate::digits::max_len(digit_len(self.cap@), digit_len(rhs.cap@));
            let sum = self@ + rhs@;
            let k = if sum < vstd::arithmetic::power::pow(base() as int, m) { m } else { m + 1 };
            let cut = before.len() - k;
            lemma_be_zero(before);
            assert forall|i: int| 0 <= i < cut implies out@[i] == 0 by {
                assert(out@.take(cut)[i] == before.take(cut)[i]);
            }
            lemma_be_leading_zeros(out@, cut);
        }
        CapUint::from_digits(out, &cap)
    }

    /// How this number compares to `rhs`.
    pub fn cmp(&self, rhs: &CapUint) -> (r: Ordering)
        ensures
            (r == Ordering::Less) == (self@ < rhs@),
            (r == Ordering::Equal) == (self@ == rhs@),
            (r == Ordering::Greater) == (self@ > rhs@),
    {
        capnum_utils::cmp(self.as_digits(), rhs.as_digits())
    }

    /// The smaller of the two numbers, with the smaller of the two bounds as its bound.
    pub fn min(&self, rhs: &CapUint) -> (r: CapUint)
        ensures
            r@ == if self@ < rhs@ { self@ } else { rhs@ },
            r.cap_spec() == if self.cap_spec() < rhs.cap_spec() { self.cap_spec() } else { rhs.cap_spec() },
    {
        proof {
            use_type_invariant(self);
            use_type_invariant(rhs);
        }
        let cap = ops::min(&self.cap, &rhs.cap);
        let r = match self.cmp(rhs) {
            Ordering::Less => self.try_resize(&cap),
            _ => rhs.try_resize(&cap),
        };
        r.unwrap()
    }
}

} // verus!

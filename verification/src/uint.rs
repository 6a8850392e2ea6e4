//! Non-negative integers in their canonical binary form, and conversions to
//! and from primitive integers.
//!
//! A [`Uint`] is either `0`, `1`, or `2 * P + B` for a positive prefix `P` and a
//! last bit `B`. Every non-negative integer has exactly one such form.
use vstd::prelude::*;

verus! {

/// The binary digits of a number, most significant digit outermost.
#[derive(PartialEq, Eq, Debug)]
pub enum Bits {
    /// The number `0`.
    Zero,
    /// The number `1`.
    One,
    /// `2 * prefix + last`, where the prefix must be positive.
    Append(Box<Bits>, bool),
}

/// The numeric value of a bit.
pub open spec fn bit_value(b: bool) -> nat {
    if b {
        1
    } else {
        0
    }
}

impl Bits {
    /// The number these digits denote.
    pub open spec fn value(&self) -> nat
        decreases self,
    {
        match self {
            Bits::Zero => 0,
            Bits::One => 1,
            Bits::Append(p, b) => 2 * p.value() + bit_value(*b),
        }
    }

    /// Canonical form: no leading zero digits.
    pub open spec fn wf(&self) -> bool
        decreases self,
    {
        match self {
            Bits::Zero => true,
            Bits::One => true,
            Bits::Append(p, _) => p.wf() && p.value() > 0,
        }
    }

    /// A copy of these digits.
    pub fn duplicate(&self) -> (r: Bits)
        ensures
            r == *self,
        decreases self,
    {
        match self {
            Bits::Zero => Bits::Zero,
            Bits::One => Bits::One,
            Bits::Append(p, b) => Bits::Append(Box::new(p.duplicate()), *b),
        }
    }
}

/// The canonical digits of `n`.
pub open spec fn bits_of(n: nat) -> Bits
    decreases n,
{
    if n == 0 {
        Bits::Zero
    } else if n == 1 {
        Bits::One
    } else {
        Bits::Append(Box::new(bits_of(n / 2)), n % 2 == 1)
    }
}

/// Every non-negative integer has canonical digits.
pub proof fn lemma_bits_of(n: nat)
    ensures
        bits_of(n).wf(),
        bits_of(n).value() == n,
    decreases n,
{
    if n >= 2 {
        lemma_bits_of(n / 2);
    }
}

/// Canonical digits are unique: two canonical forms of the same number are the same.
pub proof fn lemma_bits_unique(a: Bits, b: Bits)
    requires
        a.wf(),
        b.wf(),
        a.value() == b.value(),
    ensures
        a == b,
    decreases a,
{
    match a {
        Bits::Append(pa, ba) => {
            match b {
                Bits::Append(pb, bb) => {
                    assert(ba == bb);
                    lemma_bits_unique(*pa, *pb);
                },
                _ => {},
            }
        },
        _ => {
            match b {
                Bits::Append(pb, bb) => {},
                _ => {},
            }
        },
    }
}

/// A non-negative integer of arbitrary size.
///
/// There is a one-to-one correspondence between the non-negative integers and
/// the values of this type: two values are equal if and only if their views are.
pub struct Uint {
    bits: Bits,
}

impl View for Uint {
    type V = nat;

    closed spec fn view(&self) -> nat {
        self.bits.value()
    }
}

impl Uint {
    #[verifier::type_invariant]
    closed spec fn inv(self) -> bool {
        self.bits.wf()
    }

    /// The canonical digits of this number.
    pub closed spec fn spec_bits(&self) -> Bits {
        self.bits
    }

    /// The canonical digits of this number.
    pub fn as_bits(&self) -> (r: &Bits)
        ensures
            *r == self.spec_bits(),
            r.wf(),
            r.value() == self@,
    {
        proof {
            use_type_invariant(self);
        }
        &self.bits
    }

    /// `0`
    pub fn zero() -> (r: Uint)
        ensures
            r@ == 0,
    {
        Uint { bits: Bits::Zero }
    }

    /// `1`
    pub fn one() -> (r: Uint)
        ensures
            r@ == 1,
    {
        Uint { bits: Bits::One }
    }

    /// A copy of this number.
    pub fn duplicate(&self) -> (r: Uint)
        ensures
            r@ == self@,
            r.spec_bits() == self.spec_bits(),
    {
        proof {
            use_type_invariant(self);
        }
        Uint { bits: self.bits.duplicate() }
    }

    /// Whether this number is nonzero.
    pub fn is_nonzero(&self) -> (r: bool)
        ensures
            r == (self@ != 0),
    {
        proof {
            use_type_invariant(self);
        }
        match &self.bits {
            Bits::Zero => false,
            _ => true,
        }
    }

    /// The number without its last binary digit, i.e. `self / 2`.
    pub fn half(&self) -> (r: Uint)
        ensures
            r@ == self@ / 2,
    {
        proof {
            use_type_invariant(self);
        }
        match &self.bits {
            Bits::Append(p, _) => Uint { bits: p.duplicate() },
            _ => Uint { bits: Bits::Zero },
        }
    }

    /// The last binary digit of this number, i.e. `self % 2 == 1`.
    pub fn parity(&self) -> (r: bool)
        ensures
            r == (self@ % 2 == 1),
    {
        match &self.bits {
            Bits::Zero => false,
            Bits::One => true,
            Bits::Append(_, b) => *b,
        }
    }

    /// Appends a binary digit to the end of `n`, i.e. `2 * n + bit`.
    pub fn append_bit(n: Uint, bit: bool) -> (r: Uint)
        ensures
            r@ == 2 * n@ + bit_value(bit),
    {
        proof {
            use_type_invariant(&n);
        }
        match n.bits {
            Bits::Zero => {
                if bit {
                    Uint { bits: Bits::One }
                } else {
                    Uint { bits: Bits::Zero }
                }
            },
            bits => Uint { bits: Bits::Append(Box::new(bits), bit) },
        }
    }
}

/// Conversion of a value into a [`Uint`].
pub trait ToUint {
    /// The number this value stands for.
    spec fn uint_value(&self) -> nat;

    /// Performs the conversion.
    fn to_uint(&self) -> (r: Uint)
        ensures
            r@ == self.uint_value(),
    ;
}

impl ToUint for Uint {
    open spec fn uint_value(&self) -> nat {
        self@
    }

    fn to_uint(&self) -> (r: Uint) {
        self.duplicate()
    }
}

/// The `Uint` with the value of `n`.
pub fn from_u128(n: u128) -> (r: Uint)
    ensures
        r@ == n,
    decreases n,
{
    if n == 0 {
        Uint::zero()
    } else if n == 1 {
        Uint::one()
    } else {
        Uint::append_bit(from_u128(n / 2), n % 2 == 1)
    }
}

/// The `Uint` with the value of `n`.
pub fn from_usize(n: usize) -> (r: Uint)
    ensures
        r@ == n,
    decreases n,
{
    if n == 0 {
        Uint::zero()
    } else if n == 1 {
        Uint::one()
    } else {
        Uint::append_bit(from_usize(n / 2), n % 2 == 1)
    }
}

/// Whether `n` is nonzero.
pub fn to_bool(n: &Uint) -> (b: bool)
    ensures
        b == (n@ != 0),
{
    n.is_nonzero()
}

/// `n` as a `u128`, if it fits.
pub fn to_u128(n: &Uint) -> (r: Option<u128>)
    ensures
        r == if n@ <= u128::MAX { Some(n@ as u128) } else { None::<u128> },
    decreases n@,
{
    if !n.is_nonzero() {
        return Some(0);
    }
    let p = n.parity();
    match to_u128(&n.half()) {
        Some(h) => {
            if h <= u128::MAX / 2 {
                Some(2 * h + if p { 1 } else { 0 })
            } else {
                None
            }
        },
        None => None,
    }
}

/// `n` as a `usize`, if it fits.
pub fn to_usize(n: &Uint) -> (r: Option<usize>)
    ensures
        r == if n@ <= usize::MAX { Some(n@ as usize) } else { None::<usize> },
    decreases n@,
{
    if !n.is_nonzero() {
        return Some(0);
    }
    let p = n.parity();
    match to_usize(&n.half()) {
        Some(h) => {
            if h <= usize::MAX / 2 {
                Some(2 * h + if p { 1 } else { 0 })
            } else {
                None
            }
        },
        None => None,
    }
}

/// `n` modulo `usize::MAX + 1`, and whether that lost anything, i.e. whether `n > usize::MAX`.
pub fn to_usize_overflowing(n: &Uint) -> (r: (usize, bool))
    ensures
        r.0 == n@ % (usize::MAX as nat + 1),
        r.1 == (n@ > usize::MAX),
    decreases n@,
{
    if !n.is_nonzero() {
        return (0, false);
    }
    let p = n.parity();
    let h = n.half();
    let (hw, ho) = to_usize_overflowing(&h);
    let top = hw > usize::MAX / 2;
    let low = if top { hw - (usize::MAX / 2 + 1) } else { hw };
    let w = 2 * low + if p { 1 } else { 0 };
    proof {
        let m = usize::MAX as nat + 1;
        let half_m = usize::MAX as nat / 2 + 1;
        assert(m == 2 * half_m);
        vstd::arithmetic::div_mod::lemma_fundamental_div_mod(h@ as int, m as int);
        let q = h@ / m;
        assert(n@ == 2 * h@ + bit_value(p));
        assert(h@ == m * q + hw);
        if top {
            assert(n@ == m * (2 * q + 1) + w) by (nonlinear_arith)
                requires
                    n@ == 2 * h@ + bit_value(p),
                    h@ == m * q + hw,
                    m == 2 * half_m,
                    hw == low + half_m,
                    w == 2 * low + bit_value(p),
            ;
            vstd::arithmetic::div_mod::lemma_fundamental_div_mod_converse(
                n@ as int,
                m as int,
                (2 * q + 1) as int,
                w as int,
            );
        } else {
            assert(n@ == m * (2 * q) + w) by (nonlinear_arith)
                requires
                    n@ == 2 * h@ + bit_value(p),
                    h@ == m * q + hw,
                    w == 2 * hw + bit_value(p),
            ;
            vstd::arithmetic::div_mod::lemma_fundamental_div_mod_converse(
                n@ as int,
                m as int,
                (2 * q) as int,
                w as int,
            );
        }
    }
    (w, ho || top)
}

/// The decimal text of `n`: its ASCII digits, most significant first, without leading zeros.
pub fn to_str(n: &Uint) -> (r: Vec<u8>)
    ensures
        r@ == crate::maxint::decimal(n@),
    decreases n@,
{
    let ten = from_u128(10);
    let digit = match to_u128(&crate::ops::rem(n, &ten)) {
        Some(d) => d,
        None => 0,
    };
    let last = 48 + digit as u8;
    if crate::uint::to_bool(&crate::ops::lt(n, &ten)) {
        let mut r = Vec::new();
        r.push(last);
        proof {
            assert(r@ =~= seq![last]);
        }
        r
    } else {
        let rest = crate::ops::div(n, &ten);
        let mut r = to_str(&rest);
        r.push(last);
        r
    }
}

} // verus!

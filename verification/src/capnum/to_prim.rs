//! Conversions of [`CapUint`] to primitive integers.
use vstd::prelude::*;
use vstd::arithmetic::power::pow;
use crate::capnum::{CapUint, capnum_utils::{pop_or_zero, is_zero}};
use crate::digits::{base, be_value, lemma_base_pow2};

verus! {

/// `u128::MAX + 1`, the number of values of the widest primitive unsigned integer.
pub open spec fn umax_base() -> nat {
    u128::MAX as nat + 1
}

/// The number of `usize` digits in a `u128`.
fn digits_per_umax() -> (r: usize)
    ensures
        pow(base() as int, r as nat) == umax_base(),
        r >= 1,
{
    proof {
        lemma_base_pow2();
        vstd::arithmetic::power2::lemma2_to64();
        vstd::arithmetic::power2::lemma2_to64_rest();
        vstd::arithmetic::power::lemma_pow1(base() as int);
        if usize::BITS == 64 {
            vstd::arithmetic::power::lemma_pow_adds(base() as int, 1, 1);
            assert(base() * base() == umax_base());
        } else {
            vstd::arithmetic::power::lemma_pow_adds(base() as int, 1, 1);
            vstd::arithmetic::power::lemma_pow_adds(base() as int, 2, 1);
            vstd::arithmetic::power::lemma_pow_adds(base() as int, 3, 1);
            assert(base() * base() * base() * base() == umax_base());
        }
    }
    if usize::BITS == 64 {
        2
    } else {
        4
    }
}

/// `n` modulo `u128::MAX + 1`, and whether `n` exceeds `u128::MAX`, for `n` given by its
/// big-endian digits.
fn to_umaxint_overflowing(digits: &[usize]) -> (r: (u128, bool))
    ensures
        r.0 == be_value(digits@) % umax_base(),
        r.1 == (be_value(digits@) >= umax_base()),
{
    let per = digits_per_umax();
    let mut rest = digits;
    let mut acc: u128 = 0;
    let mut mult: u128 = 1;
    let mut i: usize = 0;
    proof {
        vstd::arithmetic::power::lemma_pow0(base() as int);
    }
    while i < per
        invariant
            i <= per,
            pow(base() as int, per as nat) == umax_base(),
            be_value(digits@) == be_value(rest@) * pow(base() as int, i as nat) + acc,
            acc < pow(base() as int, i as nat),
            i < per ==> mult == pow(base() as int, i as nat),
        decreases per - i,
    {
        let ghost p = pow(base() as int, i as nat);
        let ghost before = rest@;
        let (next, d) = pop_or_zero(rest);
        proof {
            vstd::arithmetic::power::lemma_pow_adds(base() as int, i as nat, 1);
            vstd::arithmetic::power::lemma_pow1(base() as int);
            vstd::arithmetic::power::lemma_pow_increases(base(), (i + 1) as nat, per as nat);
            assert(acc + d * p < p * base()) by (nonlinear_arith)
                requires
                    acc < p,
                    d < base(),
            ;
            assert(be_value(before) * p + acc == be_value(next@) * (p * base()) + (acc + d * p))
                by (nonlinear_arith)
                requires
                    be_value(before) == be_value(next@) * base() + d,
            ;
            assert(d * p >= 0) by (nonlinear_arith)
                requires
                    p >= 0,
            ;
        }
        acc = acc + (d as u128) * mult;
        if i + 1 < per {
            proof {
                vstd::arithmetic::power::lemma_pow_increases(base(), (i + 2) as nat, per as nat);
                vstd::arithmetic::power::lemma_pow_adds(base() as int, (i + 1) as nat, 1);
                assert(p * base() * base() >= p * base()) by (nonlinear_arith)
                    requires
                        base() > 1,
                        p >= 1,
                ;
            }
            mult = mult * (usize::MAX as u128 + 1);
        }
        rest = next;
        i = i + 1;
    }
    let overflow = !is_zero(rest);
    proof {
        let q = be_value(rest@);
        vstd::arithmetic::div_mod::lemma_fundamental_div_mod_converse(
            be_value(digits@) as int,
            umax_base() as int,
            q as int,
            acc as int,
        );
        if q > 0 {
            assert(q * umax_base() >= umax_base()) by (nonlinear_arith)
                requires
                    q >= 1,
            ;
        }
        assert(q * umax_base() >= 0) by (nonlinear_arith);
    }
    (acc, overflow)
}

/// `n % (a * b) % a == n % a`.
proof fn lemma_mod_of_umax_mod(n: nat, a: nat, b: nat)
    requires
        a > 0,
        b > 0,
        a * b == umax_base(),
    ensures
        (n % umax_base()) % a == n % a,
{
    vstd::arithmetic::div_mod::lemma_mod_mod(n as int, a as int, b as int);
}

impl CapUint {
    /// Converts the number to a usize, wrapping around if necessary and returning whether any
    /// wrapping occurred.
    pub fn to_usize_overflowing(&self) -> (r: (usize, bool))
        ensures
            r.0 == self@ % (usize::MAX as nat + 1),
            r.1 == (self@ > usize::MAX),
    {
        let (u, o) = to_umaxint_overflowing(self.as_digits());
        proof {
            if !o {
                vstd::arithmetic::div_mod::lemma_small_mod(self@, umax_base());
            }
            lemma_base_pow2();
            vstd::arithmetic::power2::lemma2_to64();
            vstd::arithmetic::power2::lemma2_to64_rest();
            let a = usize::MAX as nat + 1;
            let b: nat = if usize::BITS == 64 { 0x1_0000_0000_0000_0000 } else { 0x1_0000_0000_0000_0000_0000_0000 };
            assert(a * b == umax_base());
            lemma_mod_of_umax_mod(self@, a, b);
            assert(usize::BITS == 64 ==> (u as usize) as u128 == u % 0x1_0000_0000_0000_0000u128)
                by (bit_vector);
            assert(usize::BITS == 32 ==> (u as usize) as u128 == u % 0x1_0000_0000u128)
                by (bit_vector);
            assert(usize::BITS == 32 || usize::BITS == 64);
        }
        (u as usize, u > usize::MAX as u128 || o)
    }

    /// Converts the number to a usize, returning `None` if it doesn't fit.
    pub fn to_usize(&self) -> (r: Option<usize>)
        ensures
            r == if self@ <= usize::MAX { Some(self@ as usize) } else { None::<usize> },
    {
        proof {
            if self@ <= usize::MAX {
                vstd::arithmetic::div_mod::lemma_small_mod(self@, usize::MAX as nat + 1);
            }
        }
        match self.to_usize_overflowing() {
            (n, false) => Some(n),
            (_, true) => None,
        }
    }

    /// Converts the number to a u8, wrapping around if necessary and returning whether any
    /// wrapping occurred.
    pub fn to_u8_overflowing(&self) -> (r: (u8, bool))
        ensures
            r.0 == self@ % (256 as nat),
            r.1 == (self@ > u8::MAX),
    {
        let (u, o) = to_umaxint_overflowing(self.as_digits());
        proof {
            if !o {
                vstd::arithmetic::div_mod::lemma_small_mod(self@, umax_base());
            }
            lemma_mod_of_umax_mod(self@, 256, 0x1000000000000000000000000000000);
            assert((u as u8) == u % 256) by (bit_vector);
        }
        (u as u8, u > u8::MAX as u128 || o)
    }

    /// Converts the number to a u8, returning `None` if it doesn't fit.
    pub fn to_u8(&self) -> (r: Option<u8>)
        ensures
            r == if self@ <= u8::MAX { Some(self@ as u8) } else { None::<u8> },
    {
        proof {
            if self@ <= u8::MAX {
                vstd::arithmetic::div_mod::lemma_small_mod(self@, 256);
            }
        }
        match self.to_u8_overflowing() {
            (n, false) => Some(n),
            (_, true) => None,
        }
    }

    /// Converts the number to a u16, wrapping around if necessary and returning whether any
    /// wrapping occurred.
    pub fn to_u16_overflowing(&self) -> (r: (u16, bool))
        ensures
            r.0 == self@ % (0x1_0000 as nat),
            r.1 == (self@ > u16::MAX),
    {
        let (u, o) = to_umaxint_overflowing(self.as_digits());
        proof {
            if !o {
                vstd::arithmetic::div_mod::lemma_small_mod(self@, umax_base());
            }
            lemma_mod_of_umax_mod(self@, 0x1_0000, 0x10000000000000000000000000000);
            assert((u as u16) == u % 0x1_0000) by (bit_vector);
        }
        (u as u16, u > u16::MAX as u128 || o)
    }

    /// Converts the number to a u16, returning `None` if it doesn't fit.
    pub fn to_u16(&self) -> (r: Option<u16>)
        ensures
            r == if self@ <= u16::MAX { Some(self@ as u16) } else { None::<u16> },
    {
        proof {
            if self@ <= u16::MAX {
                vstd::arithmetic::div_mod::lemma_small_mod(self@, 0x1_0000);
            }
        }
        match self.to_u16_overflowing() {
            (n, false) => Some(n),
            (_, true) => None,
        }
    }

    /// Converts the number to a u32, wrapping around if necessary and returning whether any
    /// wrapping occurred.
    pub fn to_u32_overflowing(&self) -> (r: (u32, bool))
        ensures
            r.0 == self@ % (0x1_0000_0000 as nat),
            r.1 == (self@ > u32::MAX),
    {
        let (u, o) = to_umaxint_overflowing(self.as_digits());
        proof {
            if !o {
                vstd::arithmetic::div_mod::lemma_small_mod(self@, umax_base());
            }
            lemma_mod_of_umax_mod(self@, 0x1_0000_0000, 0x1000000000000000000000000);
            assert((u as u32) == u % 0x1_0000_0000) by (bit_vector);
        }
        (u as u32, u > u32::MAX as u128 || o)
    }

    /// Converts the number to a u32, returning `None` if it doesn't fit.
    pub fn to_u32(&self) -> (r: Option<u32>)
        ensures
            r == if self@ <= u32::MAX { Some(self@ as u32) } else { None::<u32> },
    {
        proof {
            if self@ <= u32::MAX {
                vstd::arithmetic::div_mod::lemma_small_mod(self@, 0x1_0000_0000);
            }
        }
        match self.to_u32_overflowing() {
            (n, false) => Some(n),
            (_, true) => None,
        }
    }

    /// Converts the number to a u64, wrapping around if necessary and returning whether any
    /// wrapping occurred.
    pub fn to_u64_overflowing(&self) -> (r: (u64, bool))
        ensures
            r.0 == self@ % (0x1_0000_0000_0000_0000 as nat),
            r.1 == (self@ > u64::MAX),
    {
        let (u, o) = to_umaxint_overflowing(self.as_digits());
        proof {
            if !o {
                vstd::arithmetic::div_mod::lemma_small_mod(self@, umax_base());
            }
            lemma_mod_of_umax_mod(self@, 0x1_0000_0000_0000_0000, 0x10000000000000000);
            assert((u as u64) == u % 0x1_0000_0000_0000_0000) by (bit_vector);
        }
        (u as u64, u > u64::MAX as u128 || o)
    }

    /// Converts the number to a u64, returning `None` if it doesn't fit.
    pub fn to_u64(&self) -> (r: Option<u64>)
        ensures
            r == if self@ <= u64::MAX { Some(self@ as u64) } else { None::<u64> },
    {
        proof {
            if self@ <= u64::MAX {
                vstd::arithmetic::div_mod::lemma_small_mod(self@, 0x1_0000_0000_0000_0000);
            }
        }
        match self.to_u64_overflowing() {
            (n, false) => Some(n),
            (_, true) => None,
        }
    }

    /// Converts the number to a u128, wrapping around if necessary and returning whether any
    /// wrapping occurred.
    pub fn to_u128_overflowing(&self) -> (r: (u128, bool))
        ensures
            r.0 == self@ % umax_base(),
            r.1 == (self@ > u128::MAX),
    {
        to_umaxint_overflowing(self.as_digits())
    }

    /// Converts the number to a u128, returning `None` if it doesn't fit.
    pub fn to_u128(&self) -> (r: Option<u128>)
        ensures
            r == if self@ <= u128::MAX { Some(self@ as u128) } else { None::<u128> },
    {
        proof {
            if self@ <= u128::MAX {
                vstd::arithmetic::div_mod::lemma_small_mod(self@, umax_base());
            }
        }
        match self.to_u128_overflowing() {
            (n, false) => Some(n),
            (_, true) => None,
        }
    }
}

} // verus!

//! Various [`Uint`] constants.
use vstd::prelude::*;
use vstd::arithmetic::power2::pow2;
use crate::uint::{Uint, ToUint, bit_value, from_u128, from_usize};
use crate::ops;

verus! {

/// Holds a const `u128`.
pub struct ConstU128<const N: u128>;

/// Holds a const `usize`.
pub struct ConstUsize<const N: usize>;

/// Holds a const `bool`, standing for `1` or `0`.
pub struct ConstBool<const B: bool>;

impl<const N: u128> ToUint for ConstU128<N> {
    open spec fn uint_value(&self) -> nat {
        N as nat
    }

    fn to_uint(&self) -> (r: Uint)
        ensures
            r@ == N,
    {
        from_u128(N)
    }
}

impl<const N: usize> ToUint for ConstUsize<N> {
    open spec fn uint_value(&self) -> nat {
        N as nat
    }

    fn to_uint(&self) -> (r: Uint)
        ensures
            r@ == N,
    {
        from_usize(N)
    }
}

impl<const B: bool> ToUint for ConstBool<B> {
    open spec fn uint_value(&self) -> nat {
        bit_value(B)
    }

    fn to_uint(&self) -> (r: Uint)
        ensures
            B ==> r@ == 1,
            !B ==> r@ == 0,
    {
        if B {
            Uint::one()
        } else {
            Uint::zero()
        }
    }
}

/// A `u128` constant stands for its own value.
pub proof fn lemma_const_u128_value<const N: u128>(c: ConstU128<N>)
    ensures
        c.uint_value() == N,
{
}

/// A `usize` constant stands for its own value: `N` itself, not twice it or any other
/// number.
pub proof fn lemma_const_usize_value<const N: usize>(c: ConstUsize<N>)
    ensures
        c.uint_value() == N,
        c.uint_value() <= usize::MAX,
{
}

/// A `bool` constant stands for `1` when it is `true` and `0` when it is `false`.
pub proof fn lemma_const_bool_value<const B: bool>(c: ConstBool<B>)
    ensures
        B ==> c.uint_value() == 1,
        !B ==> c.uint_value() == 0,
{
}

/// The number of bits of a `usize`.
pub fn ptr_width() -> (r: Uint)
    ensures
        r@ == usize::BITS,
{
    // size_of::<usize>() * 8
    let bytes = from_usize(usize::BITS as usize / 8);
    let r = ops::shl(&bytes, &from_u128(3));
    proof {
        vstd::arithmetic::power2::lemma2_to64();
        assert(pow2(3) == 8);
        assert(usize::BITS == 32 || usize::BITS == 64);
        assert(bytes@ == usize::BITS / 8);
        assert(r@ == bytes@ * 8);
    }
    r
}

/// `2^bits - 1`, the largest number with `bits` binary digits.
fn max_of_width(bits: &Uint) -> (r: Uint)
    ensures
        r@ == pow2(bits@) - 1,
{
    let p = ops::shl(&Uint::one(), bits);
    proof {
        vstd::arithmetic::power2::lemma_pow2_pos(bits@);
    }
    ops::sat_sub(&p, &Uint::one())
}

/// `usize::MAX`
pub fn usize_max() -> (r: Uint)
    ensures
        r@ == usize::MAX,
{
    let r = max_of_width(&ptr_width());
    proof {
        vstd::arithmetic::power2::lemma2_to64();
        vstd::arithmetic::power2::lemma2_to64_rest();
        assert(usize::MAX == pow2(usize::BITS as nat) - 1);
    }
    r
}

/// `isize::MAX`
pub fn isize_max() -> (r: Uint)
    ensures
        r@ == isize::MAX,
{
    let r = usize_max().half();
    proof {
        assert(isize::MAX == usize::MAX / 2);
    }
    r
}

/// `u8::MAX`
pub fn u8_max() -> (r: Uint)
    ensures
        r@ == u8::MAX,
{
    let r = max_of_width(&from_u128(8));
    proof {
        vstd::arithmetic::power2::lemma2_to64();
    }
    r
}

/// `u16::MAX`
pub fn u16_max() -> (r: Uint)
    ensures
        r@ == u16::MAX,
{
    let r = max_of_width(&from_u128(16));
    proof {
        vstd::arithmetic::power2::lemma2_to64();
    }
    r
}

/// `u32::MAX`
pub fn u32_max() -> (r: Uint)
    ensures
        r@ == u32::MAX,
{
    let r = max_of_width(&from_u128(32));
    proof {
        vstd::arithmetic::power2::lemma2_to64();
    }
    r
}

/// `u64::MAX`
pub fn u64_max() -> (r: Uint)
    ensures
        r@ == u64::MAX,
{
    let r = max_of_width(&from_u128(64));
    proof {
        vstd::arithmetic::power2::lemma2_to64();
        vstd::arithmetic::power2::lemma2_to64_rest();
    }
    r
}

} // verus!

//! Operations on [`Uint`]s.
//!
//! Every operation here is built from the primitive operations [`Uint::half`],
//! [`Uint::parity`], [`Uint::append_bit`] and [`tern`], by recursion on the binary
//! digits of its arguments. Each one states the arithmetic it computes.
use vstd::prelude::*;
use vstd::arithmetic::power::{pow, lemma_pow_adds, lemma_pow_multiplies, lemma_pow1, lemma_pow0, lemma_pow_positive};
use vstd::arithmetic::power2::{pow2, lemma_pow2_adds, lemma_pow2_pos};
use vstd::arithmetic::div_mod::{lemma_fundamental_div_mod, lemma_fundamental_div_mod_converse, lemma_div_denominator, lemma_div_pos_is_pos};
use crate::uint::{Uint, bit_value};

verus! {

/// `1` if the condition holds, else `0`.
pub open spec fn cond_value(c: bool) -> nat {
    bit_value(c)
}

/// The number `c` as a `Uint`.
fn from_bool(c: bool) -> (r: Uint)
    ensures
        r@ == cond_value(c),
{
    if c {
        Uint::one()
    } else {
        Uint::zero()
    }
}

/// Odd number of true arguments.
fn xor3(a: bool, b: bool, c: bool) -> (r: bool)
    ensures
        r == ((bit_value(a) + bit_value(b) + bit_value(c)) % 2 == 1),
{
    (a != b) != c
}

/// If-else on a `Uint` condition: `then_` if `cond` is nonzero, else `else_`.
pub fn tern(cond: &Uint, then_: &Uint, else_: &Uint) -> (r: Uint)
    ensures
        r@ == if cond@ != 0 { then_@ } else { else_@ },
{
    if cond.is_nonzero() {
        then_.duplicate()
    } else {
        else_.duplicate()
    }
}

/// Evaluates to `out`; only depends on `p` in that `p` must have a value.
pub fn opaque(p: &Uint, out: &Uint) -> (r: Uint)
    ensures
        r@ == out@,
{
    out.duplicate()
}

/// `1` if `n` is zero, else `0`.
pub fn is_zero(n: &Uint) -> (r: Uint)
    ensures
        r@ == cond_value(n@ == 0),
{
    from_bool(!n.is_nonzero())
}

/// `0` if `n` is zero, else `1`.
pub fn is_truthy(n: &Uint) -> (r: Uint)
    ensures
        r@ == cond_value(n@ != 0),
{
    from_bool(n.is_nonzero())
}

/// `n + 1`
pub fn inc(n: &Uint) -> (r: Uint)
    ensures
        r@ == n@ + 1,
    decreases n@,
{
    if n.parity() {
        // flip the trailing one bits
        Uint::append_bit(inc(&n.half()), false)
    } else {
        Uint::append_bit(n.half(), true)
    }
}

/// `n + c`
fn plus_bit(n: &Uint, c: bool) -> (r: Uint)
    ensures
        r@ == n@ + bit_value(c),
{
    if c {
        inc(n)
    } else {
        n.duplicate()
    }
}

/// Binary addition with an incoming carry: `l + r + c`.
fn add_carry(l: &Uint, r: &Uint, c: bool) -> (s: Uint)
    ensures
        s@ == l@ + r@ + bit_value(c),
    decreases l@,
{
    if l.is_nonzero() {
        let pl = l.parity();
        let pr = r.parity();
        // carry into the next digit: whether pl + pr + c >= 2
        let carry = if pl {
            pr || c
        } else {
            pr && c
        };
        let high = add_carry(&l.half(), &r.half(), carry);
        Uint::append_bit(high, xor3(pl, pr, c))
    } else {
        plus_bit(r, c)
    }
}

/// `l + r`
pub fn add(l: &Uint, r: &Uint) -> (s: Uint)
    ensures
        s@ == l@ + r@,
{
    add_carry(l, r, false)
}

/// `if c && n > 0 { n - 1 } else { n }`
pub fn sat_dec_if(n: &Uint, c: bool) -> (r: Uint)
    ensures
        r@ == if c && n@ > 0 { (n@ - 1) as nat } else { n@ },
    decreases n@,
{
    if c && n.is_nonzero() {
        // n - 1 = 2 * (h - !p) + !p
        let np = !n.parity();
        Uint::append_bit(sat_dec_if(&n.half(), np), np)
    } else {
        n.duplicate()
    }
}

/// Binary subtraction with an incoming borrow: `l - r - c`, for `r + c <= l`.
fn sub_unchecked(l: &Uint, r: &Uint, c: bool) -> (d: Uint)
    requires
        r@ + bit_value(c) <= l@,
    ensures
        d@ == l@ - r@ - bit_value(c),
    decreases r@,
{
    if r.is_nonzero() {
        let pl = l.parity();
        let pr = r.parity();
        // borrow from the next digit: whether pl < pr + c
        let borrow = if pl {
            pr && c
        } else {
            pr || c
        };
        let high = sub_unchecked(&l.half(), &r.half(), borrow);
        Uint::append_bit(high, xor3(pl, pr, c))
    } else {
        sat_dec_if(l, c)
    }
}

/// `l < r`
fn lt_bool(l: &Uint, r: &Uint) -> (b: bool)
    ensures
        b == (l@ < r@),
    decreases l@,
{
    if r.is_nonzero() {
        if l.is_nonzero() {
            if lt_bool(&l.half(), &r.half()) {
                true
            } else {
                // equal prefixes, last digits 0 and 1
                !l.parity() && r.parity() && eq_bool(&l.half(), &r.half())
            }
        } else {
            true
        }
    } else {
        false
    }
}

/// `l == r`
fn eq_bool(l: &Uint, r: &Uint) -> (b: bool)
    ensures
        b == (l@ == r@),
    decreases l@ + r@,
{
    if l.is_nonzero() {
        l.parity() == r.parity() && eq_bool(&r.half(), &l.half())
    } else {
        !r.is_nonzero()
    }
}

/// `1` if `l == r`, else `0`.
pub fn eq(l: &Uint, r: &Uint) -> (b: Uint)
    ensures
        b@ == cond_value(l@ == r@),
{
    from_bool(eq_bool(l, r))
}

/// `1` if `l != r`, else `0`.
pub fn ne(l: &Uint, r: &Uint) -> (b: Uint)
    ensures
        b@ == cond_value(l@ != r@),
{
    is_zero(&eq(l, r))
}

/// `1` if `l < r`, else `0`.
pub fn lt(l: &Uint, r: &Uint) -> (b: Uint)
    ensures
        b@ == cond_value(l@ < r@),
{
    from_bool(lt_bool(l, r))
}

/// `1` if `l > r`, else `0`; the same as [`lt`] with swapped arguments.
pub fn gt(l: &Uint, r: &Uint) -> (b: Uint)
    ensures
        b@ == cond_value(l@ > r@),
{
    lt(r, l)
}

/// `1` if `l >= r`, else `0`.
pub fn ge(l: &Uint, r: &Uint) -> (b: Uint)
    ensures
        b@ == cond_value(l@ >= r@),
{
    is_zero(&lt(l, r))
}

/// `1` if `l <= r`, else `0`; the same as [`ge`] with swapped arguments.
pub fn le(l: &Uint, r: &Uint) -> (b: Uint)
    ensures
        b@ == cond_value(l@ <= r@),
{
    ge(r, l)
}

/// The smaller of `l` and `r`.
pub fn min(l: &Uint, r: &Uint) -> (m: Uint)
    ensures
        m@ == if l@ < r@ { l@ } else { r@ },
{
    if lt_bool(l, r) {
        l.duplicate()
    } else {
        r.duplicate()
    }
}

/// The larger of `l` and `r`.
pub fn max(l: &Uint, r: &Uint) -> (m: Uint)
    ensures
        m@ == if l@ < r@ { r@ } else { l@ },
{
    if lt_bool(l, r) {
        r.duplicate()
    } else {
        l.duplicate()
    }
}

/// `|l - r|`
pub fn abs_diff(l: &Uint, r: &Uint) -> (d: Uint)
    ensures
        d@ == if l@ < r@ { r@ - l@ } else { l@ - r@ },
{
    if lt_bool(l, r) {
        sub_unchecked(r, l, false)
    } else {
        sub_unchecked(l, r, false)
    }
}

/// `l - r` if `r < l`, else `0`.
pub fn sat_sub(l: &Uint, r: &Uint) -> (d: Uint)
    ensures
        d@ == if r@ < l@ { (l@ - r@) as nat } else { 0 },
{
    if lt_bool(r, l) {
        sub_unchecked(l, r, false)
    } else {
        Uint::zero()
    }
}

/// `l * r`
pub fn mul(l: &Uint, r: &Uint) -> (p: Uint)
    ensures
        p@ == l@ * r@,
    decreases l@,
{
    if l.is_nonzero() {
        let h = l.half();
        // l * r = 2 * (h * r) + parity * r
        let double = Uint::append_bit(self::mul(&h, r), false);
        proof {
            assert(l@ * r@ == 2 * (h@ * r@) + bit_value(l@ % 2 == 1) * r@) by (nonlinear_arith)
                requires
                    l@ == 2 * h@ + bit_value(l@ % 2 == 1),
            ;
        }
        if l.parity() {
            self::add(&double, r)
        } else {
            double
        }
    } else {
        Uint::zero()
    }
}

/// `2 * (l / 2 % r) + l % 2`, the remainder before its last reduction.
fn naive_rem(l: &Uint, r: &Uint) -> (n: Uint)
    requires
        r@ > 0,
    ensures
        n@ == 2 * ((l@ / 2) % r@) + bit_value(l@ % 2 == 1),
        n@ < 2 * r@,
    decreases l@, 0nat,
{
    if l.is_nonzero() {
        Uint::append_bit(rem_unchecked(&l.half(), r), l.parity())
    } else {
        Uint::zero()
    }
}

/// `l % r` for `r > 0`.
fn rem_unchecked(l: &Uint, r: &Uint) -> (m: Uint)
    requires
        r@ > 0,
    ensures
        m@ == l@ % r@,
    decreases l@, 1nat,
{
    let naive = naive_rem(l, r);
    proof {
        lemma_naive_rem(l@, r@);
    }
    if lt_bool(&naive, r) {
        naive
    } else {
        sub_unchecked(&naive, r, false)
    }
}

/// Splitting off the last digit of `l` before dividing by `d`.
proof fn lemma_naive_rem(l: nat, d: nat)
    requires
        d > 0,
    ensures
        ({
            let naive = 2 * ((l / 2) % d) + bit_value(l % 2 == 1);
            &&& l / d == 2 * ((l / 2) / d) + naive / d
            &&& l % d == naive % d
            &&& naive / d == cond_value(naive >= d)
            &&& naive % d == if naive >= d { naive - d } else { naive as int }
        }),
{
    let h = l / 2;
    let p = bit_value(l % 2 == 1);
    let naive = 2 * (h % d) + p;
    lemma_fundamental_div_mod(h as int, d as int);
    let q = h / d;
    let rh = h % d;
    assert(l == 2 * h + p);
    assert(h == d * q + rh);
    if naive >= d {
        assert(l == (2 * q + 1) * d + (naive - d)) by (nonlinear_arith)
            requires
                l == 2 * h + p,
                h == d * q + rh,
                naive == 2 * rh + p,
        ;
        lemma_fundamental_div_mod_converse(l as int, d as int, (2 * q + 1) as int, naive - d);
        assert(naive == 1 * d + (naive - d));
        lemma_fundamental_div_mod_converse(naive as int, d as int, 1, naive - d);
    } else {
        assert(l == (2 * q) * d + naive) by (nonlinear_arith)
            requires
                l == 2 * h + p,
                h == d * q + rh,
                naive == 2 * rh + p,
        ;
        lemma_fundamental_div_mod_converse(l as int, d as int, (2 * q) as int, naive as int);
        assert(naive == 0 * d + naive);
        lemma_fundamental_div_mod_converse(naive as int, d as int, 0, naive as int);
    }
}

/// `l / r` for `r > 0`.
fn div_unchecked(l: &Uint, r: &Uint) -> (q: Uint)
    requires
        r@ > 0,
    ensures
        q@ == l@ / r@,
    decreases l@,
{
    if l.is_nonzero() {
        let high = div_unchecked(&l.half(), r);
        let naive = naive_rem(l, r);
        proof {
            lemma_naive_rem(l@, r@);
        }
        Uint::append_bit(high, !lt_bool(&naive, r))
    } else {
        Uint::zero()
    }
}

/// `l % r`. Dividing by zero is not allowed.
pub fn rem(l: &Uint, r: &Uint) -> (m: Uint)
    requires
        r@ > 0,
    ensures
        m@ == l@ % r@,
{
    rem_unchecked(l, r)
}

/// `l / r`. Dividing by zero is not allowed.
pub fn div(l: &Uint, r: &Uint) -> (q: Uint)
    requires
        r@ > 0,
    ensures
        q@ == l@ / r@,
{
    div_unchecked(l, r)
}

/// `l << r`, i.e. `l * 2^r`.
pub fn shl(l: &Uint, r: &Uint) -> (s: Uint)
    ensures
        s@ == l@ * pow2(r@),
    decreases r@,
{
    if r.is_nonzero() {
        let h = r.half();
        let inner = shl(&shl(l, &h), &h);
        proof {
            lemma_pow2_adds(h@, h@);
            lemma_pow2_adds(2 * h@, 1);
            vstd::arithmetic::power2::lemma2_to64();
            assert(l@ * pow2(h@) * pow2(h@) == l@ * pow2(2 * h@)) by (nonlinear_arith)
                requires
                    pow2(h@) * pow2(h@) == pow2(h@ + h@),
            ;
            assert(2 * (l@ * pow2(2 * h@)) == l@ * pow2(2 * h@ + 1)) by (nonlinear_arith)
                requires
                    pow2(2 * h@) * pow2(1) == pow2(2 * h@ + 1),
                    pow2(1) == 2,
            ;
        }
        if r.parity() {
            Uint::append_bit(inner, false)
        } else {
            inner
        }
    } else {
        proof {
            vstd::arithmetic::power2::lemma2_to64();
        }
        l.duplicate()
    }
}

/// `l >> r`, i.e. `l / 2^r`.
pub fn shr(l: &Uint, r: &Uint) -> (s: Uint)
    ensures
        s@ == l@ / pow2(r@),
    decreases r@,
{
    if r.is_nonzero() {
        let h = r.half();
        let inner = shr(&shr(l, &h), &h);
        proof {
            lemma_pow2_pos(h@);
            lemma_pow2_adds(h@, h@);
            lemma_pow2_adds(2 * h@, 1);
            vstd::arithmetic::power2::lemma2_to64();
            lemma_div_denominator(l@ as int, pow2(h@) as int, pow2(h@) as int);
            lemma_pow2_pos(2 * h@);
            lemma_div_denominator(l@ as int, pow2(2 * h@) as int, 2);
        }
        if r.parity() {
            inner.half()
        } else {
            inner
        }
    } else {
        proof {
            vstd::arithmetic::power2::lemma2_to64();
        }
        l.duplicate()
    }
}

/// `4 * n`
fn quad(n: Uint) -> (r: Uint)
    ensures
        r@ == 4 * n@,
{
    Uint::append_bit(Uint::append_bit(n, false), false)
}

/// `n * n`
fn square(n: &Uint) -> (r: Uint)
    ensures
        r@ == n@ * n@,
    decreases n@,
{
    if n.is_nonzero() {
        let h = n.half();
        let sq = quad(square(&h));
        if n.parity() {
            // (2h + 1)^2 = 4 h^2 + 4 h + 1
            proof {
                assert(n@ * n@ == 4 * (h@ * h@) + 4 * h@ + 1) by (nonlinear_arith)
                    requires
                        n@ == 2 * h@ + 1,
                ;
            }
            add_carry(&sq, &quad(h), true)
        } else {
            // (2h)^2 = 4 h^2
            proof {
                assert(n@ * n@ == 4 * (h@ * h@)) by (nonlinear_arith)
                    requires
                        n@ == 2 * h@,
                ;
            }
            sq
        }
    } else {
        Uint::zero()
    }
}

/// `b` to the power of `e`, with `0^0 = 1`.
pub fn pow_uint(b: &Uint, e: &Uint) -> (r: Uint)
    ensures
        r@ == pow(b@ as int, e@),
    decreases e@,
{
    if e.is_nonzero() {
        let h = e.half();
        let sq = square(b);
        let inner = pow_uint(&sq, &h);
        proof {
            // pow(b * b, h) == pow(b, 2 * h)
            lemma_pow_multiplies(b@ as int, 2, h@);
            vstd::arithmetic::power::lemma_square_is_pow2(b@ as int);
            lemma_pow_adds(b@ as int, 2 * h@, 1);
            lemma_pow1(b@ as int);
            assert(pow(b@ as int, 2) == b@ * b@);
            assert(2 * h@ == h@ * 2) by (nonlinear_arith);
        }
        if e.parity() {
            proof {
                assert(e@ == 2 * h@ + 1);
                assert(pow(b@ as int, 2 * h@ + 1) == pow(b@ as int, 2 * h@) * b@);
            }
            self::mul(b, &inner)
        } else {
            proof {
                assert(e@ == 2 * h@);
            }
            inner
        }
    } else {
        proof {
            lemma_pow0(b@ as int);
        }
        Uint::one()
    }
}

/// Bitwise AND of two natural numbers.
pub open spec fn nat_and(a: nat, b: nat) -> nat
    decreases a,
{
    if a == 0 {
        0
    } else {
        2 * nat_and(a / 2, b / 2) + bit_value(a % 2 == 1 && b % 2 == 1)
    }
}

/// Bitwise OR of two natural numbers.
pub open spec fn nat_or(a: nat, b: nat) -> nat
    decreases a,
{
    if a == 0 {
        b
    } else {
        2 * nat_or(a / 2, b / 2) + bit_value(a % 2 == 1 || b % 2 == 1)
    }
}

/// Bitwise XOR of two natural numbers.
pub open spec fn nat_xor(a: nat, b: nat) -> nat
    decreases a,
{
    if a == 0 {
        b
    } else {
        2 * nat_xor(a / 2, b / 2) + bit_value((a % 2 == 1) != (b % 2 == 1))
    }
}

/// Number of one digits in the binary form of `n`.
pub open spec fn nat_count_ones(n: nat) -> nat
    decreases n,
{
    if n == 0 {
        0
    } else {
        nat_count_ones(n / 2) + n % 2
    }
}

proof fn lemma_and_zero(a: nat)
    ensures
        nat_and(a, 0) == 0,
    decreases a,
{
    if a != 0 {
        lemma_and_zero(a / 2);
    }
}

proof fn lemma_or_zero(a: nat)
    ensures
        nat_or(a, 0) == a,
        nat_xor(a, 0) == a,
    decreases a,
{
    if a != 0 {
        lemma_or_zero(a / 2);
    }
}

/// Bitwise AND, OR and XOR are commutative.
pub proof fn lemma_bitwise_commutative(a: nat, b: nat)
    ensures
        nat_and(a, b) == nat_and(b, a),
        nat_or(a, b) == nat_or(b, a),
        nat_xor(a, b) == nat_xor(b, a),
    decreases a + b,
{
    if a == 0 {
        lemma_and_zero(b);
        lemma_or_zero(b);
    } else if b == 0 {
        lemma_and_zero(a);
        lemma_or_zero(a);
    } else {
        lemma_bitwise_commutative(a / 2, b / 2);
    }
}

/// Bitwise AND.
pub fn bit_and(l: &Uint, r: &Uint) -> (b: Uint)
    ensures
        b@ == nat_and(l@, r@),
    decreases l@ + r@,
{
    if l.is_nonzero() {
        // a & b = b & a, recursing on the swapped halves terminates faster
        let high = bit_and(&r.half(), &l.half());
        proof {
            lemma_bitwise_commutative(r@ / 2, l@ / 2);
        }
        Uint::append_bit(high, l.parity() && r.parity())
    } else {
        Uint::zero()
    }
}

/// Bitwise OR.
pub fn bit_or(l: &Uint, r: &Uint) -> (b: Uint)
    ensures
        b@ == nat_or(l@, r@),
    decreases l@ + r@,
{
    if l.is_nonzero() {
        let high = bit_or(&r.half(), &l.half());
        proof {
            lemma_bitwise_commutative(r@ / 2, l@ / 2);
        }
        Uint::append_bit(high, l.parity() || r.parity())
    } else {
        r.duplicate()
    }
}

/// Bitwise XOR.
pub fn bit_xor(l: &Uint, r: &Uint) -> (b: Uint)
    ensures
        b@ == nat_xor(l@, r@),
    decreases l@ + r@,
{
    if l.is_nonzero() {
        let high = bit_xor(&r.half(), &l.half());
        proof {
            lemma_bitwise_commutative(r@ / 2, l@ / 2);
        }
        Uint::append_bit(high, l.parity() != r.parity())
    } else {
        r.duplicate()
    }
}

/// Number of one digits of `n`.
pub fn count_ones(n: &Uint) -> (c: Uint)
    ensures
        c@ == nat_count_ones(n@),
    decreases n@,
{
    if n.is_nonzero() {
        plus_bit(&count_ones(&n.half()), n.parity())
    } else {
        Uint::zero()
    }
}

/// Counting ones reads each binary digit once: zero has none, doubling (appending a zero
/// digit) keeps the count, and doubling and adding one (appending a one digit) adds one.
/// These three facts fix the count of every number, so it is the number of one digits, as
/// `u128::count_ones` gives it.
pub proof fn lemma_count_ones_digits(n: nat)
    ensures
        nat_count_ones(0) == 0,
        nat_count_ones(2 * n) == nat_count_ones(n),
        nat_count_ones(2 * n + 1) == nat_count_ones(n) + 1,
        nat_count_ones(n) <= n,
        n > 0 ==> nat_count_ones(n) >= 1,
    decreases n,
{
    assert((2 * n) / 2 == n);
    assert((2 * n + 1) / 2 == n);
    if n > 0 {
        lemma_count_ones_digits(n / 2);
    }
}

/// A power of two has exactly one one digit, and one less than it has exactly `k`.
pub proof fn lemma_count_ones_powers(k: nat)
    ensures
        nat_count_ones(pow2(k)) == 1,
        nat_count_ones((pow2(k) - 1) as nat) == k,
    decreases k,
{
    lemma_pow2_pos(k);
    if k == 0 {
        vstd::arithmetic::power2::lemma2_to64();
        lemma_count_ones_digits(0);
    } else {
        vstd::arithmetic::power2::lemma_pow2_unfold(k);
        lemma_count_ones_powers((k - 1) as nat);
        let p = pow2((k - 1) as nat);
        lemma_pow2_pos((k - 1) as nat);
        lemma_count_ones_digits(p);
        lemma_count_ones_digits((p - 1) as nat);
        assert(pow2(k) - 1 == 2 * ((p - 1) as nat) + 1);
    }
}

/// Less-than is always greater-than with the arguments swapped, and greater-or-equal is
/// always less-or-equal with the arguments swapped.
pub proof fn lemma_swapped_comparisons(a: nat, b: nat)
    ensures
        cond_value(a < b) == cond_value(b > a),
        cond_value(a >= b) == cond_value(b <= a),
        cond_value(a < b) <= 1,
        cond_value(a >= b) <= 1,
{
}

/// Appending a bit `p` (any nonzero number counts as a one) is the same as shifting left by
/// one and or-ing in whether `p` is nonzero, and the same as doubling and adding it.
pub proof fn lemma_append_bit_is_shift_or(n: nat, p: nat)
    ensures
        2 * n + cond_value(p != 0) == nat_or(n * pow2(1), cond_value(p != 0)),
        2 * n + cond_value(p != 0) == n * 2 + cond_value(p != 0),
{
    vstd::arithmetic::power2::lemma2_to64();
    let c = cond_value(p != 0);
    if n > 0 {
        assert((2 * n) / 2 == n);
        assert((2 * n) % 2 == 0);
        assert(c / 2 == 0);
        lemma_or_zero(n);
    }
}

/// On primitive integers, the bitwise operations are those of `u128`.
pub proof fn lemma_bitwise_u128(a: u128, b: u128)
    ensures
        nat_and(a as nat, b as nat) == (a & b) as nat,
        nat_or(a as nat, b as nat) == (a | b) as nat,
        nat_xor(a as nat, b as nat) == (a ^ b) as nat,
    decreases a,
{
    if a == 0 {
        assert(0u128 & b == 0 && 0u128 | b == b && 0u128 ^ b == b) by (bit_vector);
    } else {
        let ha = a / 2;
        let hb = b / 2;
        lemma_bitwise_u128(ha, hb);
        assert(a & b == 2 * ((a / 2) & (b / 2)) + ((a % 2) & (b % 2))
            && a | b == 2 * ((a / 2) | (b / 2)) + ((a % 2) | (b % 2))
            && a ^ b == 2 * ((a / 2) ^ (b / 2)) + ((a % 2) ^ (b % 2))) by (bit_vector);
        assert(((a % 2) & (b % 2)) == if a % 2 == 1 && b % 2 == 1 { 1u128 } else { 0u128 }
            && ((a % 2) | (b % 2)) == if a % 2 == 1 || b % 2 == 1 { 1u128 } else { 0u128 }
            && ((a % 2) ^ (b % 2)) == if (a % 2 == 1) != (b % 2 == 1) { 1u128 } else { 0u128 })
            by (bit_vector);
    }
}

/// The integer logarithm of `n` in base `b`, for `b > 1`.
pub open spec fn nat_ilog(b: nat, n: nat) -> nat
    decreases n,
{
    if b <= 1 || n < b {
        0
    } else {
        proof {
            vstd::arithmetic::div_mod::lemma_div_decreases(n as int, b as int);
        }
        1 + nat_ilog(b, n / b)
    }
}

/// The integer logarithm is the exponent of the largest power of `b` that is at most `n`.
pub proof fn lemma_ilog_bounds(b: nat, n: nat)
    requires
        b > 1,
        n > 0,
    ensures
        pow(b as int, nat_ilog(b, n)) <= n < pow(b as int, nat_ilog(b, n) + 1),
    decreases n,
{
    lemma_pow0(b as int);
    lemma_pow1(b as int);
    if n >= b {
        let q = n / b;
        vstd::arithmetic::div_mod::lemma_div_non_zero(n as int, b as int);
        vstd::arithmetic::div_mod::lemma_div_decreases(n as int, b as int);
        lemma_ilog_bounds(b, q);
        let k = nat_ilog(b, q);
        lemma_pow_adds(b as int, 1, k);
        lemma_pow_adds(b as int, 1, k + 1);
        lemma_fundamental_div_mod(n as int, b as int);
        let pk = pow(b as int, k);
        let pk1 = pow(b as int, k + 1);
        assert(b * pk <= n < b * pk1) by (nonlinear_arith)
            requires
                pk <= q < pk1,
                n == b * q + n % b,
                0 <= n % b < b,
        ;
    }
}

/// `ilog(b, n)` without checking `b > 1`, `n > 0`.
fn ilog_unchecked(b: &Uint, n: &Uint) -> (r: Uint)
    requires
        b@ > 1,
    ensures
        r@ == nat_ilog(b@, n@),
    decreases n@,
{
    if lt_bool(n, b) {
        Uint::zero()
    } else {
        let q = div_unchecked(n, b);
        proof {
            vstd::arithmetic::div_mod::lemma_div_decreases(n@ as int, b@ as int);
        }
        inc(&ilog_unchecked(b, &q))
    }
}

/// The integer logarithm of `n` in base `b`. Requires `b > 1` and `n > 0`.
pub fn ilog(b: &Uint, n: &Uint) -> (r: Uint)
    requires
        b@ > 1,
        n@ > 0,
    ensures
        r@ == nat_ilog(b@, n@),
{
    ilog_unchecked(b, n)
}

/// The number of digits of `n` written in base `b` (`1` for `n == 0`). Requires `b > 1`.
pub fn base_len(b: &Uint, n: &Uint) -> (r: Uint)
    requires
        b@ > 1,
    ensures
        r@ == nat_ilog(b@, n@) + 1,
{
    if n.is_nonzero() {
        inc(&ilog_unchecked(b, n))
    } else {
        Uint::one()
    }
}

} // verus!

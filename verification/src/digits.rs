//! Numbers written as sequences of `usize` digits in base `usize::MAX + 1`.
use vstd::prelude::*;
use vstd::arithmetic::power::{pow, lemma_pow_positive, lemma_pow0, lemma_pow_adds, lemma_pow1};
use vstd::arithmetic::power2::pow2;

verus! {

/// The base of `usize` digits.
pub open spec fn base() -> nat {
    usize::MAX as nat + 1
}

/// The value of little-endian digits (least significant digit first).
pub open spec fn le_value(s: Seq<usize>) -> nat
    decreases s.len(),
{
    if s.len() == 0 {
        0
    } else {
        s[0] as nat + base() * le_value(s.drop_first())
    }
}

/// The value of big-endian digits (most significant digit first).
pub open spec fn be_value(s: Seq<usize>) -> nat
    decreases s.len(),
{
    if s.len() == 0 {
        0
    } else {
        be_value(s.drop_last()) * base() + s.last() as nat
    }
}

/// The digits from position `i` on.
pub open spec fn suffix(s: Seq<usize>, i: usize) -> Seq<usize> {
    s.skip(i as int)
}

/// The number of digits of `n`, without leading zeros.
pub open spec fn digit_len(n: nat) -> nat
    decreases n,
{
    if n == 0 {
        0
    } else {
        proof {
            vstd::arithmetic::div_mod::lemma_div_decreases(n as int, base() as int);
        }
        1 + digit_len(n / base())
    }
}

/// The base is the number of values of a digit, `2^usize::BITS`.
pub proof fn lemma_base_pow2()
    ensures
        base() == pow2(usize::BITS as nat),
        base() > 1,
{
    vstd::arithmetic::power2::lemma2_to64();
    vstd::arithmetic::power2::lemma2_to64_rest();
    assert(usize::BITS == 32 || usize::BITS == 64);
}

/// Little-endian digits are less than the base to the power of their number.
pub proof fn lemma_le_bound(s: Seq<usize>)
    ensures
        le_value(s) < pow(base() as int, s.len()),
    decreases s.len(),
{
    lemma_pow0(base() as int);
    if s.len() > 0 {
        lemma_le_bound(s.drop_first());
        let t = le_value(s.drop_first());
        let p = pow(base() as int, (s.len() - 1) as nat);
        assert(pow(base() as int, s.len()) == base() * p) by {
            vstd::arithmetic::power::lemma_pow_adds(base() as int, 1, (s.len() - 1) as nat);
            vstd::arithmetic::power::lemma_pow1(base() as int);
        }
        assert(s[0] + base() * t < base() * p) by (nonlinear_arith)
            requires
                s[0] < base(),
                t < p,
        ;
    }
}

/// Splitting little-endian digits into a low part of `i` digits and the rest.
pub proof fn lemma_le_split(s: Seq<usize>, i: int)
    requires
        0 <= i <= s.len(),
    ensures
        le_value(s) == le_value(s.take(i)) + pow(base() as int, i as nat) * le_value(s.skip(i)),
    decreases i,
{
    lemma_pow0(base() as int);
    if i == 0 {
        assert(s.take(0) =~= Seq::<usize>::empty());
        assert(s.skip(0) =~= s);
    } else {
        let t = s.drop_first();
        lemma_le_split(t, i - 1);
        assert(s.take(i).drop_first() =~= t.take(i - 1));
        assert(s.skip(i) =~= t.skip(i - 1));
        vstd::arithmetic::power::lemma_pow_adds(base() as int, 1, (i - 1) as nat);
        vstd::arithmetic::power::lemma_pow1(base() as int);
        let p = pow(base() as int, (i - 1) as nat);
        let a = le_value(t.take(i - 1));
        let b = le_value(t.skip(i - 1));
        assert(base() * (a + p * b) == base() * a + (base() * p) * b) by (nonlinear_arith);
    }
}

/// All-zero digits have value zero, and digits of value zero are all zero.
pub proof fn lemma_le_zero(s: Seq<usize>)
    ensures
        (le_value(s) == 0) == (forall|i: int| 0 <= i < s.len() ==> s[i] == 0),
    decreases s.len(),
{
    if s.len() > 0 {
        let t = s.drop_first();
        lemma_le_zero(t);
        let v = le_value(t);
        assert((s[0] + base() * v == 0) == (s[0] == 0 && v == 0)) by (nonlinear_arith)
            requires
                base() > 0,
        ;
        assert((forall|i: int| 0 <= i < s.len() ==> s[i] == 0) == (s[0] == 0 && forall|i: int|
            0 <= i < t.len() ==> t[i] == 0)) by {
            if s[0] == 0 && forall|i: int| 0 <= i < t.len() ==> t[i] == 0 {
                assert forall|i: int| 0 <= i < s.len() implies s[i] == 0 by {
                    if i > 0 {
                        assert(s[i] == t[i - 1]);
                    }
                }
            }
            if forall|i: int| 0 <= i < s.len() ==> s[i] == 0 {
                assert forall|i: int| 0 <= i < t.len() implies t[i] == 0 by {
                    assert(t[i] == s[i + 1]);
                }
            }
        }
    }
}

/// Digits that are all `usize::MAX` have the largest value their number of digits allows.
pub proof fn lemma_le_all_max(s: Seq<usize>)
    requires
        forall|i: int| 0 <= i < s.len() ==> s[i] == usize::MAX,
    ensures
        le_value(s) == pow(base() as int, s.len()) - 1,
    decreases s.len(),
{
    lemma_pow0(base() as int);
    if s.len() > 0 {
        let t = s.drop_first();
        assert forall|i: int| 0 <= i < t.len() implies t[i] == usize::MAX by {
            assert(t[i] == s[i + 1]);
        }
        lemma_le_all_max(t);
        vstd::arithmetic::power::lemma_pow_adds(base() as int, 1, (s.len() - 1) as nat);
        vstd::arithmetic::power::lemma_pow1(base() as int);
        let p = pow(base() as int, (s.len() - 1) as nat);
        assert(usize::MAX + base() * (p - 1) == base() * p - 1) by (nonlinear_arith)
            requires
                base() == usize::MAX + 1,
        ;
    }
}

/// Comparing little-endian digits of the same number from the most significant digit:
/// the first position where they differ decides.
pub proof fn lemma_le_first_difference(s: Seq<usize>, t: Seq<usize>, i: int)
    requires
        s.len() == t.len(),
        0 <= i < s.len(),
        s.skip(i + 1) == t.skip(i + 1),
        s[i] < t[i],
    ensures
        le_value(s) < le_value(t),
{
    lemma_le_split(s, i);
    lemma_le_split(t, i);
    lemma_le_bound(s.take(i));
    lemma_le_bound(t.take(i));
    assert(le_value(s.skip(i)) == s[i] + base() * le_value(s.skip(i + 1))) by {
        assert(s.skip(i).drop_first() =~= s.skip(i + 1));
    }
    assert(le_value(t.skip(i)) == t[i] + base() * le_value(t.skip(i + 1))) by {
        assert(t.skip(i).drop_first() =~= t.skip(i + 1));
    }
    let p = pow(base() as int, i as nat);
    lemma_pow_positive(base() as int, i as nat);
    let ls = le_value(s.skip(i));
    let lt = le_value(t.skip(i));
    assert(ls < lt);
    assert(le_value(s.take(i)) + p * ls < p + p * ls) by (nonlinear_arith)
        requires
            le_value(s.take(i)) < p,
    ;
    assert(p + p * ls <= p * lt) by (nonlinear_arith)
        requires
            ls + 1 <= lt,
            p > 0,
    ;
}

/// The value of big-endian digits is that of the same digits read little-endian
/// in reverse order.
pub proof fn lemma_be_is_reversed_le(s: Seq<usize>)
    ensures
        be_value(s) == le_value(s.reverse()),
    decreases s.len(),
{
    if s.len() > 0 {
        lemma_be_is_reversed_le(s.drop_last());
        assert(s.reverse().drop_first() =~= s.drop_last().reverse());
        assert(s.reverse()[0] == s.last());
        let v = be_value(s.drop_last());
        assert(v * base() == base() * v) by (nonlinear_arith);
    }
}


/// The value of big-endian digits padded with `len - s.len()` zero digits at the
/// least significant end.
pub open spec fn padded_value(s: Seq<usize>, len: nat) -> nat {
    be_value(s) * pow(base() as int, (len - s.len()) as nat) as nat
}

/// The larger of two lengths.
pub open spec fn max_len(a: nat, b: nat) -> nat {
    if a < b {
        b
    } else {
        a
    }
}

/// Splitting big-endian digits into a high part of `k` digits and the rest.
pub proof fn lemma_be_split(s: Seq<usize>, k: int)
    requires
        0 <= k <= s.len(),
    ensures
        be_value(s) == be_value(s.take(k)) * pow(base() as int, (s.len() - k) as nat) + be_value(
            s.skip(k),
        ),
    decreases s.len() - k,
{
    lemma_pow0(base() as int);
    if k == s.len() {
        assert(s.take(k) =~= s);
        assert(s.skip(k) =~= Seq::<usize>::empty());
    } else {
        let d = s.drop_last();
        lemma_be_split(d, k);
        assert(d.take(k) =~= s.take(k));
        assert(s.skip(k).drop_last() =~= d.skip(k));
        assert(s.skip(k).last() == s.last());
        vstd::arithmetic::power::lemma_pow_adds(base() as int, (s.len() - 1 - k) as nat, 1);
        vstd::arithmetic::power::lemma_pow1(base() as int);
        let a = be_value(s.take(k));
        let p = pow(base() as int, (s.len() - 1 - k) as nat);
        let b = be_value(d.skip(k));
        assert((a * p + b) * base() + s.last() == a * (p * base()) + (b * base() + s.last()))
            by (nonlinear_arith);
    }
}

/// Big-endian digits are less than the base to the power of their number.
pub proof fn lemma_be_bound(s: Seq<usize>)
    ensures
        be_value(s) < pow(base() as int, s.len()),
{
    lemma_be_is_reversed_le(s);
    lemma_le_bound(s.reverse());
}

/// All-zero big-endian digits have value zero, and digits of value zero are all zero.
pub proof fn lemma_be_zero(s: Seq<usize>)
    ensures
        (be_value(s) == 0) == (forall|i: int| 0 <= i < s.len() ==> s[i] == 0),
    decreases s.len(),
{
    if s.len() > 0 {
        let t = s.drop_last();
        lemma_be_zero(t);
        let v = be_value(t);
        assert((v * base() + s.last() == 0) == (v == 0 && s.last() == 0)) by (nonlinear_arith)
            requires
                base() > 0,
        ;
        if forall|i: int| 0 <= i < s.len() ==> s[i] == 0 {
            assert forall|i: int| 0 <= i < t.len() implies t[i] == 0 by {
                assert(t[i] == s[i]);
            }
            assert(s.last() == s[s.len() - 1]);
        }
        if v == 0 && s.last() == 0 {
            assert forall|i: int| 0 <= i < s.len() implies s[i] == 0 by {
                if i < s.len() - 1 {
                    assert(s[i] == t[i]);
                }
            }
        }
    }
}

/// Padding big-endian digits with zero digits multiplies their value by a power of the base.
pub proof fn lemma_be_pad(s: Seq<usize>, len: nat)
    requires
        s.len() <= len,
    ensures
        be_value(s + Seq::new((len - s.len()) as nat, |i: int| 0usize)) == padded_value(s, len),
{
    let z = Seq::new((len - s.len()) as nat, |i: int| 0usize);
    let t = s + z;
    lemma_be_split(t, s.len() as int);
    assert(t.take(s.len() as int) =~= s);
    assert(t.skip(s.len() as int) =~= z);
    lemma_be_zero(z);
    assert forall|i: int| 0 <= i < z.len() implies z[i] == 0 by {}
    assert(be_value(z) == 0);
    assert(t.len() == len);
    let p = pow(base() as int, (len - s.len()) as nat);
    vstd::arithmetic::power::lemma_pow_positive(base() as int, (len - s.len()) as nat);
    assert(be_value(s) * p >= 0) by (nonlinear_arith)
        requires
            p > 0,
    ;
}

/// Leading zero digits do not change the value of big-endian digits.
pub proof fn lemma_be_leading_zeros(s: Seq<usize>, k: int)
    requires
        0 <= k <= s.len(),
        forall|i: int| 0 <= i < k ==> s[i] == 0,
    ensures
        be_value(s) == be_value(s.skip(k)),
{
    lemma_be_split(s, k);
    lemma_be_zero(s.take(k));
    let p = pow(base() as int, (s.len() - k) as nat);
    assert(0 * p == 0) by (nonlinear_arith);
}

/// Comparing big-endian digits of the same number from the most significant digit:
/// the first position where they differ decides.
pub proof fn lemma_be_first_difference(s: Seq<usize>, t: Seq<usize>, i: int)
    requires
        s.len() == t.len(),
        0 <= i < s.len(),
        s.take(i) == t.take(i),
        s[i] < t[i],
    ensures
        be_value(s) < be_value(t),
{
    lemma_be_split(s, i + 1);
    lemma_be_split(t, i + 1);
    lemma_be_bound(s.skip(i + 1));
    assert(s.take(i + 1).drop_last() =~= s.take(i));
    assert(t.take(i + 1).drop_last() =~= t.take(i));
    let h = be_value(s.take(i));
    assert(be_value(s.take(i + 1)) == h * base() + s[i]);
    assert(be_value(t.take(i + 1)) == h * base() + t[i]);
    let p = pow(base() as int, (s.len() - (i + 1)) as nat);
    let ls = be_value(s.skip(i + 1));
    let lt = be_value(t.skip(i + 1));
    assert((h * base() + s[i]) * p + ls < (h * base() + t[i]) * p + lt) by (nonlinear_arith)
        requires
            ls < p,
            s[i] + 1 <= t[i],
            lt >= 0,
    ;
}


/// The digit at position `j` of big-endian digits padded with zeros at the least
/// significant end.
pub open spec fn pad_digit(s: Seq<usize>, j: int) -> usize {
    if j < s.len() {
        s[j]
    } else {
        0
    }
}

/// The digits after the first `i`, or none if there are at most `i`.
pub open spec fn rest_after(s: Seq<usize>, i: int) -> Seq<usize> {
    if i <= s.len() {
        s.skip(i)
    } else {
        Seq::empty()
    }
}

/// Big-endian digits padded with zeros to `len` digits.
pub open spec fn padded(s: Seq<usize>, len: nat) -> Seq<usize> {
    s + Seq::new((len - s.len()) as nat, |i: int| 0usize)
}

/// Padding to the digits' own length changes nothing.
pub proof fn lemma_padded_same_len(s: Seq<usize>)
    ensures
        padded_value(s, s.len()) == be_value(s),
{
    lemma_pow0(base() as int);
    assert(pow(base() as int, (s.len() - s.len()) as nat) == 1);
    assert(be_value(s) * 1 == be_value(s));
}

/// Padded digits agree with `pad_digit`.
proof fn lemma_padded_index(s: Seq<usize>, len: nat)
    requires
        s.len() <= len,
    ensures
        padded(s, len).len() == len,
        forall|j: int| 0 <= j < len ==> #[trigger] padded(s, len)[j] == pad_digit(s, j),
{
}

/// Comparing padded big-endian digits from the most significant digit: the first position
/// where they differ decides.
pub proof fn lemma_padded_first_difference(s: Seq<usize>, t: Seq<usize>, len: nat, i: int)
    requires
        s.len() <= len,
        t.len() <= len,
        0 <= i < len,
        forall|j: int| 0 <= j < i ==> pad_digit(s, j) == pad_digit(t, j),
        pad_digit(s, i) < pad_digit(t, i),
    ensures
        padded_value(s, len) < padded_value(t, len),
{
    let p = padded(s, len);
    let q = padded(t, len);
    lemma_padded_index(s, len);
    lemma_padded_index(t, len);
    assert(p.take(i) =~= q.take(i)) by {
        assert forall|j: int| 0 <= j < i implies p.take(i)[j] == q.take(i)[j] by {
            assert(p[j] == pad_digit(s, j));
            assert(q[j] == pad_digit(t, j));
        }
    }
    assert(p[i] == pad_digit(s, i));
    assert(q[i] == pad_digit(t, i));
    lemma_be_first_difference(p, q, i);
    lemma_be_pad(s, len);
    lemma_be_pad(t, len);
}

/// Padded big-endian digits that agree everywhere have the same value.
pub proof fn lemma_padded_equal(s: Seq<usize>, t: Seq<usize>, len: nat)
    requires
        s.len() <= len,
        t.len() <= len,
        forall|j: int| 0 <= j < len ==> pad_digit(s, j) == pad_digit(t, j),
    ensures
        padded_value(s, len) == padded_value(t, len),
{
    let p = padded(s, len);
    let q = padded(t, len);
    lemma_padded_index(s, len);
    lemma_padded_index(t, len);
    assert(p =~= q) by {
        assert forall|j: int| 0 <= j < len implies p[j] == q[j] by {
            assert(p[j] == pad_digit(s, j));
            assert(q[j] == pad_digit(t, j));
        }
    }
    lemma_be_pad(s, len);
    lemma_be_pad(t, len);
}

/// Big-endian digits whose `k` most significant digits are not all zero are at least the
/// base to the power of the number of the other digits.
pub proof fn lemma_be_high_nonzero(s: Seq<usize>, k: int)
    requires
        0 <= k <= s.len(),
        be_value(s.take(k)) > 0,
    ensures
        be_value(s) >= pow(base() as int, (s.len() - k) as nat),
{
    lemma_be_split(s, k);
    let p = pow(base() as int, (s.len() - k) as nat);
    vstd::arithmetic::power::lemma_pow_positive(base() as int, (s.len() - k) as nat);
    let h = be_value(s.take(k));
    assert(h * p >= p) by (nonlinear_arith)
        requires
            h >= 1,
            p > 0,
    ;
}


/// The value of big-endian digits, from the most significant digit.
pub proof fn lemma_be_front(s: Seq<usize>)
    requires
        s.len() > 0,
    ensures
        be_value(s) == s[0] * pow(base() as int, (s.len() - 1) as nat) + be_value(s.drop_first()),
{
    lemma_be_split(s, 1);
    assert(s.skip(1) =~= s.drop_first());
    let one = s.take(1);
    assert(one.drop_last() =~= Seq::<usize>::empty());
    assert(one.last() == s[0]);
    assert(be_value(one) == be_value(one.drop_last()) * base() + one.last());
    assert(0 * base() == 0) by (nonlinear_arith);
}

/// A number written with `digit_len(n)` digits is less than the base to that power.
pub proof fn lemma_digit_len_bound(n: nat)
    ensures
        n < pow(base() as int, digit_len(n)),
    decreases n,
{
    lemma_pow0(base() as int);
    if n > 0 {
        vstd::arithmetic::div_mod::lemma_div_decreases(n as int, base() as int);
        lemma_digit_len_bound(n / base());
        lemma_pow_adds(base() as int, 1, digit_len(n / base()));
        lemma_pow1(base() as int);
        vstd::arithmetic::div_mod::lemma_fundamental_div_mod(n as int, base() as int);
        let q = n / base();
        let p = pow(base() as int, digit_len(q));
        assert(base() * q + n % base() < base() * p) by (nonlinear_arith)
            requires
                q < p,
                n % base() < base(),
        ;
    }
}


/// A larger number has at least as many digits.
pub proof fn lemma_digit_len_monotone(a: nat, b: nat)
    requires
        a <= b,
    ensures
        digit_len(a) <= digit_len(b),
    decreases b,
{
    if a > 0 {
        vstd::arithmetic::div_mod::lemma_div_is_ordered(a as int, b as int, base() as int);
        vstd::arithmetic::div_mod::lemma_div_decreases(b as int, base() as int);
        lemma_digit_len_monotone(a / base(), b / base());
    }
}

} // verus!

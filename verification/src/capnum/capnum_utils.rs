//! Arithmetic on numbers written as big-endian `usize` digits (most significant first).
use vstd::prelude::*;
use vstd::arithmetic::power::pow;
use core::cmp::Ordering;
use crate::digits::{
    base, be_value, padded_value, max_len, pad_digit, rest_after, lemma_be_split, lemma_be_zero,
    lemma_be_bound, lemma_be_leading_zeros, lemma_padded_first_difference, lemma_padded_equal,
    lemma_padded_same_len, lemma_be_high_nonzero, lemma_be_front,
};

verus! {

/// Splits off the least significant digit. An empty number gives itself and `0`.
pub fn pop_or_zero(n: &[usize]) -> (r: (&[usize], usize))
    ensures
        n@.len() > 0 ==> r.0@ == n@.drop_last() && r.1 == n@.last(),
        n@.len() == 0 ==> r.0@ == n@ && r.1 == 0,
        be_value(n@) == be_value(r.0@) * base() + r.1,
{
    if n.len() == 0 {
        proof {
            assert(0 * base() == 0) by (nonlinear_arith);
        }
        (n, 0)
    } else {
        let (rest, last) = n.split_at(n.len() - 1);
        proof {
            assert(rest@ =~= n@.drop_last());
            assert(last@[0] == n@.last());
        }
        (rest, last[0])
    }
}

/// Splits off the most significant digit. An empty number gives `0` and itself.
pub fn pop_first_or_zero(n: &[usize]) -> (r: (usize, &[usize]))
    ensures
        n@.len() > 0 ==> r.0 == n@[0] && r.1@ == n@.drop_first(),
        n@.len() == 0 ==> r.0 == 0 && r.1@ == n@,
{
    if n.len() == 0 {
        (0, n)
    } else {
        let (first, rest) = n.split_at(1);
        proof {
            assert(rest@ =~= n@.drop_first());
        }
        (first[0], rest)
    }
}

/// Adds two digits and a carry: the digit of the sum, and whether it carried.
fn add_digits(a: usize, b: usize, carry: bool) -> (r: (usize, bool))
    ensures
        r.0 + (if r.1 { base() } else { 0 }) == a + b + (if carry { 1int } else { 0 }),
{
    let c: usize = if carry { 1 } else { 0 };
    let (s, o1) = if b > usize::MAX - a {
        (b - (usize::MAX - a) - 1, true)
    } else {
        (a + b, false)
    };
    let (s, o2) = if c > usize::MAX - s {
        (c - (usize::MAX - s) - 1, true)
    } else {
        (s + c, false)
    };
    (s, o1 || o2)
}

/// Writing one more digit in front of the written digits of a sum.
proof fn lemma_out_step(ws: Seq<usize>, written: Seq<usize>, digit: usize, i: nat)
    requires
        ws.len() == i + 1,
        ws[0] == digit,
        ws.drop_first() == written,
    ensures
        be_value(ws) == digit * pow(base() as int, i) + be_value(written),
{
    lemma_be_front(ws);
}

/// Taking one more digit of an operand, or a zero digit once it has none left.
proof fn lemma_operand_step(s0: Seq<usize>, before: Seq<usize>, after: Seq<usize>, d: usize, i: nat)
    requires
        before == s0.take(before.len() as int),
        before.len() == if i <= s0.len() { s0.len() - i } else { 0 },
        before.len() > 0 ==> after == before.drop_last() && d == before.last(),
        before.len() == 0 ==> after == before && d == 0,
    ensures
        after == s0.take(after.len() as int),
        after.len() == if i + 1 <= s0.len() { s0.len() - (i + 1) } else { 0 },
        be_value(s0.skip(after.len() as int)) == d * pow(base() as int, i) + be_value(
            s0.skip(before.len() as int),
        ),
{
    if before.len() > 0 {
        assert(after =~= s0.take(after.len() as int));
        let ls = s0.skip(after.len() as int);
        assert(ls.drop_first() =~= s0.skip(before.len() as int));
        assert(ls[0] == d);
        lemma_be_front(ls);
    } else {
        let p = pow(base() as int, i);
        assert(d * p == 0) by (nonlinear_arith)
            requires
                d == 0,
        ;
    }
}

/// The arithmetic of one digit of an addition.
proof fn lemma_step_arith(w: int, p: int, c: int, nc: int, digit: int, dl: int, dr: int, l: int, r: int)
    requires
        digit + nc * base() == dl + dr + c,
    ensures
        (digit * p + w) + nc * (p * base()) == (dl * p + l) + (dr * p + r) + (w + c * p) - (l + r),
{
    assert((digit * p + w) + nc * (p * base()) == (dl * p + l) + (dr * p + r) + (w + c * p) - (l
        + r)) by (nonlinear_arith)
        requires
            digit + nc * base() == dl + dr + c,
    ;
}

/// Writes `lhs + rhs` into the least significant digits of `out`, using as many digits as
/// the longer operand has, and one more where the sum needs it. The other digits of `out`
/// are left as they were.
pub fn add(lhs: &[usize], rhs: &[usize], out: &mut [usize])
    requires
        max_len(lhs@.len(), rhs@.len()) <= old(out)@.len(),
        be_value(lhs@) + be_value(rhs@) < pow(base() as int, old(out)@.len()),
    ensures
        final(out)@.len() == old(out)@.len(),
        ({
            let m = max_len(lhs@.len(), rhs@.len());
            let sum = be_value(lhs@) + be_value(rhs@);
            let k = if sum < pow(base() as int, m) { m } else { m + 1 };
            let cut = old(out)@.len() - k;
            &&& 0 <= cut
            &&& final(out)@.take(cut) == old(out)@.take(cut)
            &&& be_value(final(out)@.skip(cut)) == sum
        }),
{
    let ghost lhs0 = lhs@;
    let ghost rhs0 = rhs@;
    let ghost out0 = out@;
    let ghost m = max_len(lhs0.len(), rhs0.len());
    let ghost sum = be_value(lhs0) + be_value(rhs0);
    let ghost mut i: nat = 0;
    let mut lhs = lhs;
    let mut rhs = rhs;
    let mut carry = false;
    let mut j: usize = out.len();
    proof {
        vstd::arithmetic::power::lemma_pow0(base() as int);
        assert(lhs0.take(lhs0.len() as int) =~= lhs0);
        assert(rhs0.take(rhs0.len() as int) =~= rhs0);
        assert(lhs0.skip(lhs0.len() as int) =~= Seq::<usize>::empty());
        assert(rhs0.skip(rhs0.len() as int) =~= Seq::<usize>::empty());
        assert(out@.skip(j as int) =~= Seq::<usize>::empty());
        assert(out@.take(j as int) =~= out0);
    }
    while !lhs.is_empty() || !rhs.is_empty() || carry
        invariant
            out@.len() == out0.len(),
            j + i == out0.len(),
            m <= out0.len(),
            m == max_len(lhs0.len(), rhs0.len()),
            sum == be_value(lhs0) + be_value(rhs0),
            sum < pow(base() as int, out0.len()),
            lhs@ == lhs0.take(lhs@.len() as int),
            rhs@ == rhs0.take(rhs@.len() as int),
            lhs@.len() == if i <= lhs0.len() { lhs0.len() - i } else { 0 },
            rhs@.len() == if i <= rhs0.len() { rhs0.len() - i } else { 0 },
            out@.take(j as int) == out0.take(j as int),
            be_value(out@.skip(j as int)) + (if carry { 1int } else { 0 }) * pow(base() as int, i)
                == be_value(lhs0.skip(lhs@.len() as int)) + be_value(rhs0.skip(rhs@.len() as int)),
            i <= m + 1,
            i == m + 1 ==> !carry,
            i > m ==> sum >= pow(base() as int, m),
        decreases j,
    {
        let ghost p = pow(base() as int, i);
        proof {
            vstd::arithmetic::power::lemma_pow_positive(base() as int, i);
            if lhs@.len() == 0 && rhs@.len() == 0 {
                assert(lhs0.skip(0) =~= lhs0);
                assert(rhs0.skip(0) =~= rhs0);
                assert(i >= m);
                assert(carry);
                assert(be_value(out@.skip(j as int)) + p == sum) by (nonlinear_arith)
                    requires
                        be_value(out@.skip(j as int)) + 1 * p == sum,
                ;
                if i >= out0.len() {
                    vstd::arithmetic::power::lemma_pow_increases(base(), out0.len(), i);
                }
            }
        }
        let ghost lhs_before = lhs@;
        let ghost rhs_before = rhs@;
        let ghost written_before = out@.skip(j as int);
        let ghost carry_before = carry;
        let (lhs_rest, last_lhs) = pop_or_zero(lhs);
        let (rhs_rest, last_rhs) = pop_or_zero(rhs);
        lhs = lhs_rest;
        rhs = rhs_rest;
        let (digit, next_carry) = add_digits(last_lhs, last_rhs, carry);
        out[j - 1] = digit;
        j = j - 1;
        carry = next_carry;
        proof {
            let c = if carry_before { 1int } else { 0 };
            let nc = if carry { 1int } else { 0 };
            let w = be_value(written_before);
            assert(out@.take(j as int) =~= out0.take(j as int));
            assert(out@.skip(j as int).drop_first() =~= written_before);
            assert(out@.skip(j as int)[0] == digit);
            lemma_out_step(out@.skip(j as int), written_before, digit, i);
            lemma_operand_step(lhs0, lhs_before, lhs@, last_lhs, i);
            lemma_operand_step(rhs0, rhs_before, rhs@, last_rhs, i);
            vstd::arithmetic::power::lemma_pow_adds(base() as int, i, 1);
            vstd::arithmetic::power::lemma_pow1(base() as int);
            lemma_step_arith(
                w as int,
                p,
                c,
                nc,
                digit as int,
                last_lhs as int,
                last_rhs as int,
                be_value(lhs0.skip(lhs_before.len() as int)) as int,
                be_value(rhs0.skip(rhs_before.len() as int)) as int,
            );
            if i == m && lhs_before.len() == 0 && rhs_before.len() == 0 {
                assert(sum >= pow(base() as int, m));
            }
            i = i + 1;
        }
    }
    proof {
        assert(lhs0.skip(0) =~= lhs0);
        assert(rhs0.skip(0) =~= rhs0);
        assert(i >= m);
        lemma_be_bound(out@.skip(j as int));
        assert(be_value(out@.skip(j as int)) + 0 * pow(base() as int, i) == sum);
        assert(0 * pow(base() as int, i) == 0) by (nonlinear_arith);
    }
}

/// The digits of `digits` with zero digits in front, `len` digits in all.
pub fn left_pad(digits: &[usize], len: usize) -> (r: Vec<usize>)
    requires
        digits@.len() <= len,
    ensures
        r@.len() == len,
        be_value(r@) == be_value(digits@),
{
    let mut out: Vec<usize> = Vec::new();
    let zeros = len - digits.len();
    while out.len() < zeros
        invariant
            out@.len() <= zeros,
            forall|j: int| 0 <= j < out@.len() ==> out@[j] == 0,
        decreases zeros - out@.len(),
    {
        out.push(0);
    }
    let mut i: usize = 0;
    while i < digits.len()
        invariant
            i <= digits@.len(),
            out@.len() == zeros + i,
            forall|j: int| 0 <= j < zeros ==> out@[j] == 0,
            forall|j: int| 0 <= j < i ==> out@[zeros + j] == digits@[j],
        decreases digits@.len() - i,
    {
        out.push(digits[i]);
        i = i + 1;
    }
    proof {
        assert(out@.skip(zeros as int) =~= digits@);
        lemma_be_leading_zeros(out@, zeros as int);
    }
    out
}

/// Whether all digits are zero, i.e. the number is zero.
pub fn is_zero(digits: &[usize]) -> (r: bool)
    ensures
        r == (be_value(digits@) == 0),
{
    proof {
        lemma_be_zero(digits@);
    }
    let mut i: usize = digits.len();
    while i > 0
        invariant
            i <= digits@.len(),
            forall|j: int| i <= j < digits@.len() ==> digits@[j] == 0,
        decreases i,
    {
        if digits[i - 1] != 0 {
            proof {
                lemma_be_zero(digits@);
                assert(digits@[i - 1] != 0);
            }
            return false;
        }
        i = i - 1;
    }
    true
}

/// Compares two numbers digit by digit from the most significant one, as if the shorter were
/// padded with zero digits at its least significant end to the length of the longer. On
/// numbers of the same length this is their numeric order.
pub fn cmp_same_len(lhs: &[usize], rhs: &[usize]) -> (r: Ordering)
    ensures
        (r == Ordering::Less) == (padded_value(lhs@, max_len(lhs@.len(), rhs@.len())) < padded_value(
            rhs@,
            max_len(lhs@.len(), rhs@.len()),
        )),
        (r == Ordering::Equal) == (padded_value(lhs@, max_len(lhs@.len(), rhs@.len()))
            == padded_value(rhs@, max_len(lhs@.len(), rhs@.len()))),
        (r == Ordering::Greater) == (padded_value(lhs@, max_len(lhs@.len(), rhs@.len()))
            > padded_value(rhs@, max_len(lhs@.len(), rhs@.len()))),
{
    let ghost lhs0 = lhs@;
    let ghost rhs0 = rhs@;
    let ghost len = max_len(lhs0.len(), rhs0.len());
    let ghost mut i: int = 0;
    let mut lhs_rem = lhs;
    let mut rhs_rem = rhs;
    proof {
        assert(lhs0.skip(0) =~= lhs0);
        assert(rhs0.skip(0) =~= rhs0);
    }
    while !lhs_rem.is_empty() || !rhs_rem.is_empty()
        invariant
            0 <= i <= len,
            len == max_len(lhs0.len(), rhs0.len()),
            lhs0 == lhs@,
            rhs0 == rhs@,
            lhs_rem@ == rest_after(lhs0, i),
            rhs_rem@ == rest_after(rhs0, i),
            forall|j: int| 0 <= j < i ==> pad_digit(lhs0, j) == pad_digit(rhs0, j),
        decreases len - i,
    {
        let (long_first, lhs_rest) = pop_first_or_zero(lhs_rem);
        let (short_first, rhs_rest) = pop_first_or_zero(rhs_rem);
        proof {
            assert(i < len);
            assert(long_first == pad_digit(lhs0, i));
            assert(short_first == pad_digit(rhs0, i));
            assert(lhs_rest@ =~= rest_after(lhs0, i + 1));
            assert(rhs_rest@ =~= rest_after(rhs0, i + 1));
        }
        lhs_rem = lhs_rest;
        rhs_rem = rhs_rest;
        if long_first > short_first {
            proof {
                lemma_padded_first_difference(rhs0, lhs0, len, i);
            }
            return Ordering::Greater;
        } else if long_first < short_first {
            proof {
                lemma_padded_first_difference(lhs0, rhs0, len, i);
            }
            return Ordering::Less;
        }
        proof {
            i = i + 1;
        }
    }
    proof {
        assert(i == len);
        lemma_padded_equal(lhs0, rhs0, len);
    }
    Ordering::Equal
}

/// Whether the longer number has a nonzero digit among those in front of the shorter
/// number's length, i.e. whether it is at least the base to the power of that length.
fn has_extra(long: &[usize], short: &[usize]) -> (r: bool)
    requires
        long@.len() >= short@.len(),
    ensures
        r == (be_value(long@) >= pow(base() as int, short@.len())),
{
    let (extra, tail) = long.split_at(long.len() - short.len());
    let r = !is_zero(extra);
    proof {
        assert(long@.take(extra@.len() as int) =~= extra@);
        assert(long@.skip(extra@.len() as int) =~= tail@);
        if r {
            lemma_be_high_nonzero(long@, extra@.len() as int);
        } else {
            lemma_be_zero(extra@);
            assert forall|i: int| 0 <= i < extra@.len() implies long@[i] == 0 by {
                assert(long@[i] == extra@[i]);
            }
            lemma_be_leading_zeros(long@, extra@.len() as int);
            lemma_be_bound(tail@);
        }
    }
    r
}

/// The numeric order of two numbers of any lengths.
pub fn cmp(lhs: &[usize], rhs: &[usize]) -> (r: Ordering)
    ensures
        (r == Ordering::Less) == (be_value(lhs@) < be_value(rhs@)),
        (r == Ordering::Equal) == (be_value(lhs@) == be_value(rhs@)),
        (r == Ordering::Greater) == (be_value(lhs@) > be_value(rhs@)),
{
    proof {
        lemma_be_bound(lhs@);
        lemma_be_bound(rhs@);
    }
    if lhs.len() < rhs.len() {
        if has_extra(rhs, lhs) {
            return Ordering::Less;
        }
        let tail = low_digits(rhs, lhs.len());
        proof {
            lemma_padded_same_len(lhs@);
            lemma_padded_same_len(tail@);
        }
        return cmp_same_len(lhs, tail);
    } else if lhs.len() > rhs.len() {
        if has_extra(lhs, rhs) {
            return Ordering::Greater;
        }
        let tail = low_digits(lhs, rhs.len());
        proof {
            lemma_padded_same_len(rhs@);
            lemma_padded_same_len(tail@);
        }
        return cmp_same_len(tail, rhs);
    }
    proof {
        lemma_padded_same_len(lhs@);
        lemma_padded_same_len(rhs@);
    }
    cmp_same_len(lhs, rhs)
}

/// The `len` least significant digits of a number that is below the base to the power
/// `len`; they have its value.
fn low_digits(long: &[usize], len: usize) -> (r: &[usize])
    requires
        len <= long@.len(),
        be_value(long@) < pow(base() as int, len as nat),
    ensures
        r@.len() == len,
        be_value(r@) == be_value(long@),
{
    let (extra, tail) = long.split_at(long.len() - len);
    proof {
        assert(long@ =~= extra@ + tail@);
        lemma_be_zero_high(long@, extra@, tail@);
    }
    tail
}

/// A number below the base to the power of its low part's length equals its low part.
proof fn lemma_be_zero_high(s: Seq<usize>, high: Seq<usize>, low: Seq<usize>)
    requires
        s == high + low,
        be_value(s) < pow(base() as int, low.len()),
    ensures
        be_value(s) == be_value(low),
{
    assert(s.take(high.len() as int) =~= high);
    assert(s.skip(high.len() as int) =~= low);
    if be_value(high) > 0 {
        lemma_be_high_nonzero(s, high.len() as int);
    }
    lemma_be_zero(high);
    lemma_be_leading_zeros(s, high.len() as int);
}

} // verus!

//! Decimal text of the widest primitive unsigned integer.
use vstd::prelude::*;

verus! {

/// The ASCII decimal digits of `n`, most significant first, without leading zeros
/// (`0` is written as one digit).
pub open spec fn decimal(n: nat) -> Seq<u8>
    decreases n,
{
    if n < 10 {
        seq![(48 + n) as u8]
    } else {
        decimal(n / 10).push((48 + n % 10) as u8)
    }
}

/// The number of decimal digits of `n`.
pub proof fn lemma_decimal_len(n: nat)
    ensures
        decimal(n).len() >= 1,
        n >= 10 ==> decimal(n).len() == decimal(n / 10).len() + 1,
        n < 10 ==> decimal(n).len() == 1,
    decreases n,
{
    if n >= 10 {
        lemma_decimal_len(n / 10);
    }
}

/// `10` to the power `e`.
pub open spec fn pow10(e: nat) -> nat
    decreases e,
{
    if e == 0 {
        1
    } else {
        10 * pow10((e - 1) as nat)
    }
}

/// A number below `10^k`, for `k >= 1`, has at most `k` decimal digits.
proof fn lemma_decimal_len_bound(n: nat, k: nat)
    requires
        k >= 1,
        n < pow10(k),
    ensures
        decimal(n).len() <= k,
    decreases n,
{
    lemma_decimal_len(n);
    if n >= 10 {
        assert(pow10(k) == 10 * pow10((k - 1) as nat));
        if k == 1 {
            assert(pow10(0) == 1);
        } else {
            lemma_decimal_len_bound(n / 10, (k - 1) as nat);
        }
    }
}

/// The number of decimal digits of `n`.
pub fn u_max_int_strlen(n: u128) -> (r: usize)
    ensures
        r == decimal(n as nat).len(),
{
    proof {
        assert(pow10(39) == 1000000000000000000000000000000000000000) by {
            reveal_with_fuel(pow10, 40);
        }
        lemma_decimal_len_bound(n as nat, 39);
    }
    let mut len: usize = 1;
    let mut rest = n;
    while rest >= 10
        invariant
            len >= 1,
            decimal(n as nat).len() == decimal(rest as nat).len() + len - 1,
            decimal(n as nat).len() <= 39,
        decreases rest,
    {
        proof {
            lemma_decimal_len(rest as nat);
        }
        rest = rest / 10;
        len = len + 1;
    }
    proof {
        lemma_decimal_len(rest as nat);
    }
    len
}

/// Writes the decimal digits of `n` into `out`, which has exactly room for them.
fn write_decimal(n: u128, out: &mut [u8])
    requires
        old(out)@.len() == decimal(n as nat).len(),
    ensures
        final(out)@ == decimal(n as nat),
{
    let mut r = n;
    let mut i: usize = out.len();
    proof {
        assert(out@.skip(i as int) =~= Seq::<u8>::empty());
        assert(decimal(n as nat) =~= decimal(n as nat) + Seq::<u8>::empty());
    }
    loop
        invariant_except_break
            out@.len() == decimal(n as nat).len(),
            i == decimal(r as nat).len(),
            decimal(n as nat) == decimal(r as nat) + out@.skip(i as int),
        ensures
            out@ == decimal(n as nat),
        decreases r,
    {
        proof {
            lemma_decimal_len(r as nat);
        }
        let ghost written = out@.skip(i as int);
        let ghost before = r;
        out[i - 1] = 48 + (r % 10) as u8;
        r = r / 10;
        i = i - 1;
        proof {
            assert(out@.skip(i as int) =~= seq![(48 + before % 10) as u8] + written);
            if before >= 10 {
                assert(decimal(before as nat) =~= decimal(r as nat).push((48 + before % 10) as u8));
                assert(decimal(n as nat) =~= decimal(r as nat) + out@.skip(i as int));
            } else {
                assert(out@.skip(0) =~= out@);
                assert(decimal(n as nat) =~= out@);
            }
        }
        if r == 0 {
            break;
        }
    }
}

/// Writes the decimal digits of `n` at the start of `out`, which must have room for them,
/// and gives back the rest of `out`.
pub fn u_max_int_write<'a>(n: u128, out: &'a mut [u8]) -> (r: &'a mut [u8])
    requires
        decimal(n as nat).len() <= old(out)@.len(),
    ensures
        r@ == old(out)@.skip(decimal(n as nat).len() as int),
        final(out)@ == decimal(n as nat) + final(r)@,
{
    let len = u_max_int_strlen(n);
    let (n_out, rest) = out.split_at_mut(len);
    write_decimal(n, n_out);
    rest
}

/// The number of digits of `n` in base `10` (the length of `n.to_string()`) is the length
/// of its decimal text.
pub proof fn lemma_base_len_is_decimal_len(n: nat)
    ensures
        crate::ops::nat_ilog(10, n) + 1 == decimal(n).len(),
    decreases n,
{
    lemma_decimal_len(n);
    if n >= 10 {
        lemma_base_len_is_decimal_len(n / 10);
    }
}

} // verus!

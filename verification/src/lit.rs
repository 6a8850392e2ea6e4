//! Integer literals: the text of an unsigned literal, in decimal or with a `0x`, `0o` or
//! `0b` radix prefix, turned into a [`Uint`] and into its binary digits.
use vstd::prelude::*;
use vstd::string::StringSliceAdditionalSpecFns;
use crate::uint::{Uint, bit_value};
use crate::ops;

verus! {

#[verifier::external_type_specification]
#[verifier::external_body]
pub struct ExParseError(ibig::error::ParseError);

/// Why a literal could not be read.
#[derive(PartialEq, Eq, Structural, Clone, Copy, Debug)]
pub enum LitError {
    /// There are no digits after the radix prefix and the optional `+`.
    NoDigits,
    /// A character is not a digit of the radix.
    InvalidDigit,
}

impl LitError {
    /// The text of the error.
    pub fn message(&self) -> (r: &'static str)
        ensures
            *self == LitError::NoDigits ==> r@ == "no digits"@,
            *self == LitError::InvalidDigit ==> r@ == "invalid digit"@,
    {
        match self {
            LitError::NoDigits => "no digits",
            LitError::InvalidDigit => "invalid digit",
        }
    }
}

/// The value of an ASCII digit: `0`-`9`, then `a`-`z` or `A`-`Z` for 10 to 35; `-1` for any
/// other byte.
pub open spec fn digit_of(b: u8) -> int {
    if 48 <= b <= 57 {
        b - 48
    } else if 97 <= b <= 122 {
        b - 97 + 10
    } else if 65 <= b <= 90 {
        b - 65 + 10
    } else {
        -1
    }
}

/// Whether every byte is a digit of the radix.
pub open spec fn all_digits(s: Seq<u8>, radix: nat) -> bool {
    forall|i: int| 0 <= i < s.len() ==> 0 <= #[trigger] digit_of(s[i]) < radix
}

/// The number that digits in a radix denote, most significant digit first.
pub open spec fn digits_value(s: Seq<u8>, radix: nat) -> nat
    decreases s.len(),
{
    if s.len() == 0 {
        0
    } else {
        digits_value(s.drop_last(), radix) * radix + digit_of(s.last()) as nat
    }
}

/// Whether digits in a radix can be read: there is at least one, and all are digits of the
/// radix.
pub open spec fn digits_ok(s: Seq<u8>, radix: nat) -> bool {
    s.len() > 0 && all_digits(s, radix)
}

/// The text without one leading `+`, if it has one.
pub open spec fn unsigned_part(s: Seq<u8>) -> Seq<u8> {
    if s.len() > 0 && s[0] == 43 {
        s.drop_first()
    } else {
        s
    }
}

/// The number that little-endian bytes denote.
pub open spec fn le_bytes_value(b: Seq<u8>) -> nat
    decreases b.len(),
{
    if b.len() == 0 {
        0
    } else {
        (b[0] + 256 * le_bytes_value(b.drop_first())) as nat
    }
}

/// Reads `src` as an unsigned number in `radix` with `ibig::UBig::from_str_radix` and gives
/// its little-endian bytes, from `UBig::to_le_bytes`. As that source shows: one leading `+`
/// is skipped; no digits after it is an error, and so is any byte that is not a digit of the
/// radix (`0`-`9`, then letters of either case); otherwise the bytes denote the number the
/// digits denote, and the most significant byte is not zero. The source panics for a radix
/// outside `2..=36`, which `requires` leaves out. Which of the two errors comes out is not
/// stated here.
#[verifier::external_body]
fn ubig_from_str_radix(src: &str, radix: u32) -> (r: Result<Vec<u8>, ibig::error::ParseError>)
    requires
        2 <= radix <= 36,
    ensures
        r is Ok <==> digits_ok(unsigned_part(src.spec_bytes()), radix as nat),
        r is Ok ==> le_bytes_value(r->Ok_0@) == digits_value(unsigned_part(src.spec_bytes()), radix as nat),
        r is Ok ==> r->Ok_0@.len() == 0 || r->Ok_0@.last() != 0,
{
    match ibig::UBig::from_str_radix(src, radix) {
        Ok(n) => Ok(n.to_le_bytes()),
        Err(e) => Err(e),
    }
}

/// The digits of a literal and their radix: after a `0x`, `0o` or `0b` prefix, radix 16, 8
/// or 2; otherwise the whole text, in radix 10.
pub open spec fn lit_split(s: Seq<u8>) -> (Seq<u8>, nat) {
    if s.len() >= 2 && s[0] == 48 && s[1] == 120 {
        (s.skip(2), 16)
    } else if s.len() >= 2 && s[0] == 48 && s[1] == 111 {
        (s.skip(2), 8)
    } else if s.len() >= 2 && s[0] == 48 && s[1] == 98 {
        (s.skip(2), 2)
    } else {
        (s, 10)
    }
}

/// Splits a literal into its digits and their radix.
pub fn lit_digits(lit: &str) -> (r: (&str, u32))
    ensures
        r.0.spec_bytes() == lit_split(lit.spec_bytes()).0,
        r.1 == lit_split(lit.spec_bytes()).1,
{
    let bytes = lit.as_bytes();
    proof {
        lemma_prefix_boundary(lit);
    }
    if bytes.len() >= 2 && bytes[0] == 48 && (bytes[1] == 120 || bytes[1] == 111 || bytes[1] == 98) {
        let (_, rest) = lit.split_at(2);
        let b = bytes[1];
        if b == 120 {
            return (rest, 16);
        } else if b == 111 {
            return (rest, 8);
        } else if b == 98 {
            return (rest, 2);
        }
    }
    (lit, 10)
}

/// In the text of a string, the position after two leading ASCII bytes is a character
/// boundary.
proof fn lemma_prefix_boundary(lit: &str)
    ensures
        ({
            let s = lit.spec_bytes();
            s.len() >= 2 && s[0] < 128 && s[1] < 128 ==> vstd::utf8::is_char_boundary(s, 2)
        }),
{
    let s = lit.spec_bytes();
    vstd::utf8::encode_utf8_valid_utf8(lit@);
    if s.len() >= 2 && s[0] < 128 && s[1] < 128 {
        let t = vstd::utf8::pop_first_scalar(s);
        assert(vstd::utf8::length_of_first_scalar(s) == 1);
        assert(t =~= s.skip(1));
        assert(vstd::utf8::valid_utf8(t));
        assert(vstd::utf8::length_of_first_scalar(t) == 1);
        assert(vstd::utf8::pop_first_scalar(t) =~= s.skip(2));
        reveal_with_fuel(vstd::utf8::is_char_boundary, 3);
    }
}

/// The number little-endian bytes denote, as a [`Uint`].
pub fn from_le_bytes(bytes: &[u8]) -> (r: Uint)
    ensures
        r@ == le_bytes_value(bytes@),
{
    let mut acc = Uint::zero();
    let mut i = bytes.len();
    proof {
        assert(bytes@.skip(i as int) =~= Seq::<u8>::empty());
    }
    let base = crate::uint::from_usize(256);
    while i > 0
        invariant
            i <= bytes@.len(),
            base@ == 256,
            acc@ == le_bytes_value(bytes@.skip(i as int)),
        decreases i,
    {
        let b = crate::uint::from_usize(bytes[i - 1] as usize);
        proof {
            assert(bytes@.skip(i - 1).drop_first() =~= bytes@.skip(i as int));
            assert(bytes@.skip(i - 1)[0] == bytes@[i - 1]);
        }
        acc = ops::add(&ops::mul(&base, &acc), &b);
        i = i - 1;
    }
    proof {
        assert(bytes@.skip(0) =~= bytes@);
    }
    acc
}

/// Reads a literal as a number.
pub fn parse_lit(lit: &str) -> (r: Result<Uint, LitError>)
    ensures
        ({
            let (digits, radix) = lit_split(lit.spec_bytes());
            let u = unsigned_part(digits);
            &&& u.len() == 0 <==> r == Err::<Uint, LitError>(LitError::NoDigits)
            &&& (u.len() > 0 && !all_digits(u, radix)) <==> r == Err::<Uint, LitError>(
                LitError::InvalidDigit,
            )
            &&& r is Ok ==> r->Ok_0@ == digits_value(u, radix)
        }),
{
    let (digits, radix) = lit_digits(lit);
    match ubig_from_str_radix(digits, radix) {
        Ok(bytes) => Ok(from_le_bytes(bytes.as_slice())),
        Err(_) => {
            let bytes = digits.as_bytes();
            if bytes.len() == 0 || (bytes.len() == 1 && bytes[0] == 43) {
                Err(LitError::NoDigits)
            } else {
                Err(LitError::InvalidDigit)
            }
        },
    }
}

/// The binary digits of `n`, most significant first, without leading zeros.
pub open spec fn binary(n: nat) -> Seq<bool>
    decreases n,
{
    if n == 0 {
        Seq::empty()
    } else {
        binary(n / 2).push(n % 2 == 1)
    }
}

/// The number that binary digits denote, most significant first.
pub open spec fn binary_value(s: Seq<bool>) -> nat
    decreases s.len(),
{
    if s.len() == 0 {
        0
    } else {
        2 * binary_value(s.drop_last()) + bit_value(s.last())
    }
}

/// Binary digits denote the number they are the digits of, and the first is a one.
pub proof fn lemma_binary(n: nat)
    ensures
        binary_value(binary(n)) == n,
        n > 0 ==> binary(n)[0],
    decreases n,
{
    if n > 0 {
        lemma_binary(n / 2);
        assert(binary(n).drop_last() =~= binary(n / 2));
        if n / 2 > 0 {
            assert(binary(n)[0] == binary(n / 2)[0]);
        } else {
            assert(binary(n / 2) =~= Seq::<bool>::empty());
        }
    }
}

/// The binary digits of `n`, most significant first, without leading zeros.
pub fn bits_of(n: &Uint) -> (r: Vec<bool>)
    ensures
        r@ == binary(n@),
    decreases n@,
{
    if !n.is_nonzero() {
        return Vec::new();
    }
    let mut bits = bits_of(&n.half());
    bits.push(n.parity());
    bits
}

/// The binary digits of a literal, most significant first, without leading zeros: those of
/// the number that [`parse_lit`] reads.
pub fn lit_bits(lit: &str) -> (r: Result<Vec<bool>, LitError>)
    ensures
        ({
            let (digits, radix) = lit_split(lit.spec_bytes());
            let u = unsigned_part(digits);
            &&& u.len() == 0 <==> r == Err::<Vec<bool>, LitError>(LitError::NoDigits)
            &&& (u.len() > 0 && !all_digits(u, radix)) <==> r == Err::<Vec<bool>, LitError>(
                LitError::InvalidDigit,
            )
            &&& r is Ok ==> r->Ok_0@ == binary(digits_value(u, radix))
        }),
{
    match parse_lit(lit) {
        Ok(n) => Ok(bits_of(&n)),
        Err(e) => Err(e),
    }
}

/// The decimal text that [`crate::maxint::u_max_int_write`] writes reads back as the same
/// number.
pub proof fn lemma_decimal_reads_back(n: nat)
    ensures
        digits_ok(crate::maxint::decimal(n), 10),
        digits_value(crate::maxint::decimal(n), 10) == n,
    decreases n,
{
    let d = crate::maxint::decimal(n);
    crate::maxint::lemma_decimal_len(n);
    if n < 10 {
        assert(d.drop_last() =~= Seq::<u8>::empty());
        assert(d.last() == (48 + n) as u8);
        assert(digit_of(d.last()) == n);
        assert(digits_value(d, 10) == digits_value(d.drop_last(), 10) * 10 + n);
        assert(digits_value(d.drop_last(), 10) == 0);
    } else {
        lemma_decimal_reads_back(n / 10);
        let p = crate::maxint::decimal(n / 10);
        assert(d.drop_last() =~= p);
        assert(d.last() == (48 + n % 10) as u8);
        assert forall|i: int| 0 <= i < d.len() implies 0 <= #[trigger] digit_of(d[i]) < 10 by {
            if i < p.len() {
                assert(d[i] == p[i]);
            }
        }
        assert(digit_of(d.last()) == n % 10);
        assert(digits_value(d, 10) == digits_value(p, 10) * 10 + n % 10);
        vstd::arithmetic::div_mod::lemma_fundamental_div_mod(n as int, 10);
        assert(digits_value(d, 10) == n);
    }
}

} // verus!

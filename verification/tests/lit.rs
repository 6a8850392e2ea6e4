use genuint::lit::{bits_of, lit_bits, lit_digits, parse_lit, LitError};
use genuint::maxint::u_max_int_write;
use genuint::uint::{from_u128, to_u128};

#[test]
fn parse_decimal_and_prefixed() {
    assert_eq!(to_u128(&parse_lit("0").unwrap()), Some(0));
    assert_eq!(to_u128(&parse_lit("42").unwrap()), Some(42));
    assert_eq!(to_u128(&parse_lit("0x2a").unwrap()), Some(42));
    assert_eq!(to_u128(&parse_lit("0x2A").unwrap()), Some(42));
    assert_eq!(to_u128(&parse_lit("0o52").unwrap()), Some(42));
    assert_eq!(to_u128(&parse_lit("0b101010").unwrap()), Some(42));
    assert_eq!(to_u128(&parse_lit("+42").unwrap()), Some(42));
    assert_eq!(to_u128(&parse_lit("0x+2a").unwrap()), Some(42));
    assert_eq!(to_u128(&parse_lit("000042").unwrap()), Some(42));
    assert_eq!(
        to_u128(&parse_lit("123451234512345123451234512345").unwrap()),
        Some(123451234512345123451234512345)
    );
    assert_eq!(
        to_u128(&parse_lit("0x123451234512345123451234512345").unwrap()),
        Some(0x123451234512345123451234512345)
    );
    assert_eq!(
        to_u128(&parse_lit("340282366920938463463374607431768211455").unwrap()),
        Some(u128::MAX)
    );
    assert_eq!(to_u128(&parse_lit("340282366920938463463374607431768211456").unwrap()), None);
}

#[test]
fn parse_errors() {
    assert_eq!(parse_lit("").err(), Some(LitError::NoDigits));
    assert_eq!(parse_lit("+").err(), Some(LitError::NoDigits));
    assert_eq!(parse_lit("0x").err(), Some(LitError::NoDigits));
    assert_eq!(parse_lit("0b+").err(), Some(LitError::NoDigits));
    assert_eq!(parse_lit("12a").err(), Some(LitError::InvalidDigit));
    assert_eq!(parse_lit("0b102").err(), Some(LitError::InvalidDigit));
    assert_eq!(parse_lit("0o8").err(), Some(LitError::InvalidDigit));
    assert_eq!(parse_lit("1_000").err(), Some(LitError::InvalidDigit));
    assert_eq!(parse_lit("-1").err(), Some(LitError::InvalidDigit));
    assert_eq!(LitError::NoDigits.message(), "no digits");
    assert_eq!(LitError::InvalidDigit.message(), "invalid digit");
}

#[test]
fn digits_and_radix() {
    assert_eq!(lit_digits("0xff"), ("ff", 16));
    assert_eq!(lit_digits("0o17"), ("17", 8));
    assert_eq!(lit_digits("0b11"), ("11", 2));
    assert_eq!(lit_digits("0"), ("0", 10));
    assert_eq!(lit_digits("0y1"), ("0y1", 10));
    assert_eq!(lit_digits("é"), ("é", 10));
}

#[test]
fn binary_digits() {
    assert_eq!(lit_bits("0").unwrap(), Vec::<bool>::new());
    assert_eq!(lit_bits("6").unwrap(), vec![true, true, false]);
    assert_eq!(lit_bits("0x10").unwrap(), vec![true, false, false, false, false]);
    assert_eq!(lit_bits("0x").err(), Some(LitError::NoDigits));
    assert_eq!(bits_of(&from_u128(5)), vec![true, false, true]);
}

#[test]
fn decimal_text_reads_back() {
    for n in [0u128, 7, 10, 4096, 123456789, u128::MAX] {
        let mut buf = [0u8; 39];
        let rest_len = u_max_int_write(n, &mut buf).len();
        let text = core::str::from_utf8(&buf[..39 - rest_len]).unwrap();
        assert_eq!(text, n.to_string());
        assert_eq!(to_u128(&parse_lit(text).unwrap()), Some(n));
    }
}

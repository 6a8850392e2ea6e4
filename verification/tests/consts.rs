use genuint::consts::{isize_max, ptr_width, u16_max, u32_max, u64_max, u8_max, usize_max};
use genuint::uint::{from_u128, from_usize, to_str, to_u128, to_usize, Bits, Uint};

#[test]
fn test_usize_max() {
    assert_eq!(to_usize(&ptr_width()), Some(usize::BITS as usize));
    assert_eq!(to_usize(&usize_max()), Some(usize::MAX));
    assert_eq!(to_usize(&isize_max()), Some(isize::MAX as usize));
}

#[test]
fn test_generated_maxes() {
    assert_eq!(to_u128(&u8_max()), Some(u8::MAX as u128));
    assert_eq!(to_u128(&u16_max()), Some(u16::MAX as u128));
    assert_eq!(to_u128(&u32_max()), Some(u32::MAX as u128));
    assert_eq!(to_u128(&u64_max()), Some(u64::MAX as u128));
}

#[test]
fn uint_roundtrip_u128() {
    for n in [0u128, 1, 2, 3, 255, 256, 1 << 64, u128::MAX] {
        assert_eq!(to_u128(&from_u128(n)), Some(n));
    }
}

#[test]
fn canonical_bits_are_unique() {
    for a in 0u128..40 {
        for b in 0u128..40 {
            assert_eq!(from_u128(a).as_bits() == from_u128(b).as_bits(), a == b);
        }
    }
    let six = Bits::Append(Box::new(Bits::Append(Box::new(Bits::One), true)), false);
    assert_eq!(from_u128(6).as_bits(), &six);
    assert_eq!(from_usize(6).as_bits(), &six);
    assert_eq!(Uint::zero().as_bits(), &Bits::Zero);
    assert_eq!(Uint::one().as_bits(), &Bits::One);
}

#[test]
fn half_parity_append() {
    for n in 0u128..20 {
        let x = from_u128(n);
        assert_eq!(to_u128(&x.half()), Some(n / 2));
        assert_eq!(x.parity(), n % 2 == 1);
        assert_eq!(to_u128(&Uint::append_bit(x.half(), x.parity())), Some(n));
    }
}

#[test]
fn decimal_text_of_uint() {
    assert_eq!(to_str(&from_u128(0)), b"0".to_vec());
    assert_eq!(to_str(&from_u128(1907)), b"1907".to_vec());
    assert_eq!(to_str(&from_u128(u128::MAX)), u128::MAX.to_string().into_bytes());
}

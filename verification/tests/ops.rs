use genuint::lit::parse_lit;
use genuint::ops;
use genuint::uint::{from_u128, to_u128, Uint};

fn u(n: u128) -> Uint {
    from_u128(n)
}

fn v(n: &Uint) -> u128 {
    to_u128(n).unwrap()
}

#[test]
fn test_satdec() {
    for n in 0u128..=20 {
        assert_eq!(to_u128(&ops::sat_dec_if(&u(n), true)), Some(n.saturating_sub(1)));
    }
}

#[test]
fn sat_dec_if_false_keeps_value() {
    for n in 0u128..=20 {
        assert_eq!(v(&ops::sat_dec_if(&u(n), false)), n);
    }
}

#[test]
fn bitand_matches_u128_examples() {
    let pairs = [(3u128, 5u128), (59, 122)];
    for (a, b) in pairs {
        assert_eq!(v(&ops::bit_and(&u(a), &u(b))), a & b);
        assert_eq!(v(&ops::bit_or(&u(a), &u(b))), a | b);
        assert_eq!(v(&ops::bit_xor(&u(a), &u(b))), a ^ b);
    }
    let a = parse_lit("0b10101000110111111").unwrap();
    let b = parse_lit("0b11110111011111").unwrap();
    assert_eq!(v(&ops::bit_and(&a, &b)), 0b10101000110111111 & 0b11110111011111);
}

#[test]
fn count_ones_matches_u128() {
    for n in [0u128, 1, 7, 0b1011_0110, u64::MAX as u128] {
        assert_eq!(v(&ops::count_ones(&u(n))), n.count_ones() as u128);
    }
}

#[test]
fn comparisons_are_swapped() {
    for a in 0u128..5 {
        for b in 0u128..5 {
            assert_eq!(v(&ops::lt(&u(a), &u(b))), v(&ops::gt(&u(b), &u(a))));
            assert_eq!(v(&ops::ge(&u(a), &u(b))), v(&ops::le(&u(b), &u(a))));
            assert_eq!(v(&ops::lt(&u(a), &u(b))), (a < b) as u128);
            assert_eq!(v(&ops::eq(&u(a), &u(b))), (a == b) as u128);
            assert_eq!(v(&ops::ne(&u(a), &u(b))), (a != b) as u128);
        }
    }
}

#[test]
fn append_bit_is_shift_or() {
    for n in 0u128..8 {
        for p in 0u128..3 {
            let appended = Uint::append_bit(u(n), p != 0);
            let shifted = ops::bit_or(&ops::shl(&u(n), &u(1)), &ops::is_truthy(&u(p)));
            assert_eq!(v(&appended), v(&shifted));
            assert_eq!(v(&appended), 2 * n + (p != 0) as u128);
        }
    }
}

#[test]
fn arithmetic_examples() {
    assert_eq!(v(&ops::add(&u(40), &u(2))), 42);
    assert_eq!(v(&ops::mul(&u(6), &u(7))), 42);
    assert_eq!(v(&ops::abs_diff(&u(8), &u(50))), 42);
    assert_eq!(v(&ops::sat_sub(&u(8), &u(50))), 0);
    assert_eq!(v(&ops::sat_sub(&u(50), &u(8))), 42);
    assert_eq!(v(&ops::div(&u(85), &u(2))), 42);
    assert_eq!(v(&ops::rem(&u(85), &u(43))), 42);
    assert_eq!(v(&ops::min(&u(42), &u(43))), 42);
    assert_eq!(v(&ops::max(&u(42), &u(41))), 42);
    assert_eq!(v(&ops::pow_uint(&u(3), &u(4))), 81);
    assert_eq!(v(&ops::shl(&u(21), &u(1))), 42);
    assert_eq!(v(&ops::shr(&u(84), &u(1))), 42);
    assert_eq!(v(&ops::inc(&u(41))), 42);
}

#[test]
fn ilog_and_base_len() {
    assert_eq!(v(&ops::ilog(&u(10), &u(999))), 2);
    assert_eq!(v(&ops::ilog(&u(10), &u(1000))), 3);
    assert_eq!(v(&ops::ilog(&u(2), &u(1))), 0);
    assert_eq!(v(&ops::base_len(&u(10), &u(0))), 1);
    assert_eq!(v(&ops::base_len(&u(10), &u(12345))), 5);
    assert_eq!(v(&ops::base_len(&u(16), &u(255))), 2);
    for n in [0u128, 9, 10, 99, 100, 12345, u128::MAX] {
        assert_eq!(v(&ops::base_len(&u(10), &u(n))), n.to_string().len() as u128);
    }
}

#[test]
fn tern_and_truthiness() {
    assert_eq!(v(&ops::tern(&u(1), &u(7), &u(9))), 7);
    assert_eq!(v(&ops::tern(&u(0), &u(7), &u(9))), 9);
    assert_eq!(v(&ops::is_zero(&u(0))), 1);
    assert_eq!(v(&ops::is_zero(&u(5))), 0);
    assert_eq!(v(&ops::is_truthy(&u(5))), 1);
    assert_eq!(v(&ops::opaque(&u(3), &u(8))), 8);
}

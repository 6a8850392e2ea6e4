use core::cmp::Ordering;
use genuint::capnum::capnum_utils::{add, cmp, cmp_same_len, is_zero, left_pad, pop_first_or_zero, pop_or_zero};
use genuint::capnum::{digit_arr_len, CapUint};
use genuint::consts::usize_max;
use genuint::lit::parse_lit;
use genuint::ops;
use genuint::uint::{from_u128, to_u128, to_usize, to_usize_overflowing, Uint};

fn u(n: u128) -> Uint {
    from_u128(n)
}

#[test]
fn try_some_idk() {
    fn doit(n: &Uint) {
        assert_eq!(CapUint::max(n).to_usize_overflowing(), to_usize_overflowing(n));
    }
    doit(&usize_max());
    doit(&parse_lit("0x123451234512345123451234512345").unwrap());
    doit(&parse_lit("123451234512345123451234512345").unwrap());
}

#[test]
fn test_arr_len() {
    fn arr_len(n: &Uint) -> usize {
        to_usize(&digit_arr_len(n)).unwrap()
    }
    assert_eq!(to_usize(&genuint::consts::ptr_width()), Some(usize::try_from(usize::BITS).unwrap()));
    assert_eq!(arr_len(&u(0)), 0);
    assert_eq!(arr_len(&u(1)), 1);
    assert_eq!(arr_len(&usize_max()), 1);
    assert_eq!(arr_len(&ops::add(&usize_max(), &u(1))), 2);
}

#[test]
fn cap_uint_zero_and_max() {
    let z = CapUint::zero(&u(1000));
    assert_eq!(z.to_u128(), Some(0));
    let m = CapUint::max(&u(1000));
    assert_eq!(m.to_u128(), Some(1000));
    assert_eq!(to_u128(&m.cap()), Some(1000));
    let big = ops::add(&ops::mul(&usize_max(), &u(5)), &u(3));
    assert_eq!(CapUint::max(&big).to_u128(), to_u128(&big));
}

#[test]
fn cap_uint_try_resize() {
    let m = CapUint::max(&u(300));
    assert!(m.try_resize(&u(299)).is_none());
    let r = m.try_resize(&u(300)).unwrap();
    assert_eq!(r.to_u16(), Some(300));
    let r = m.try_resize(&u(1 << 100)).unwrap();
    assert_eq!(r.to_u16(), Some(300));
    assert_eq!(to_u128(&r.cap()), Some(1 << 100));
    let z = CapUint::zero(&u(1 << 100));
    assert_eq!(z.try_resize(&u(0)).unwrap().to_u8(), Some(0));
    let big = CapUint::max(&u(1 << 100));
    assert!(big.try_resize(&u(5)).is_none());
}

#[test]
fn cap_uint_resize_overflowing() {
    let m = CapUint::max(&u(77));
    let (r, o) = m.resize_overflowing(&u(1 << 70));
    assert!(!o);
    assert_eq!(r.to_u128(), Some(77));
}

#[test]
fn cap_uint_add() {
    let a = CapUint::max(&usize_max());
    let b = CapUint::max(&u(1));
    let s = a.add(&b);
    assert_eq!(s.to_u128(), Some(u128::try_from(usize::MAX).unwrap() + 1));
    assert_eq!(s.to_usize_overflowing(), (0, true));
    let c = CapUint::max(&u(u128::MAX));
    let d = c.add(&CapUint::max(&u(u128::MAX)));
    assert_eq!(d.to_u128(), None);
    assert_eq!(d.to_u128_overflowing(), (u128::MAX - 1, true));
}

#[test]
fn cap_uint_cmp_and_min() {
    let small = CapUint::max(&u(5));
    let big = CapUint::max(&u(1 << 90));
    assert_eq!(small.cmp(&big), Ordering::Less);
    assert_eq!(big.cmp(&small), Ordering::Greater);
    assert_eq!(small.cmp(&CapUint::max(&u(5))), Ordering::Equal);
    let zero_wide = CapUint::zero(&u(1 << 90));
    assert_eq!(zero_wide.cmp(&CapUint::zero(&u(3))), Ordering::Equal);
    let m = big.min(&small);
    assert_eq!(m.to_u128(), Some(5));
    assert_eq!(to_u128(&m.cap()), Some(5));
}

#[test]
fn cap_uint_to_prim() {
    let n = CapUint::max(&u(0x1_2345));
    assert_eq!(n.to_u8(), None);
    assert_eq!(n.to_u8_overflowing(), (0x45, true));
    assert_eq!(n.to_u16_overflowing(), (0x2345, true));
    assert_eq!(n.to_u32(), Some(0x1_2345));
    assert_eq!(n.to_u64(), Some(0x1_2345));
    assert_eq!(n.to_usize(), Some(0x1_2345));
    let big = CapUint::max(&ops::shl(&u(1), &u(130)));
    assert_eq!(big.to_u128_overflowing(), (0, true));
    assert_eq!(big.to_u64(), None);
}

#[test]
fn capnum_utils_examples() {
    assert_eq!(pop_or_zero(&[1, 2, 3]), (&[1usize, 2][..], 3));
    assert_eq!(pop_or_zero(&[]), (&[][..], 0));
    assert_eq!(pop_first_or_zero(&[1, 2, 3]), (1, &[2usize, 3][..]));
    assert_eq!(pop_first_or_zero(&[]), (0, &[][..]));
    assert!(is_zero(&[0, 0]));
    assert!(!is_zero(&[0, 1]));
    assert_eq!(cmp(&[0, 0, 5], &[5]), Ordering::Equal);
    assert_eq!(cmp(&[1, 0], &[9]), Ordering::Greater);
    assert_eq!(cmp(&[9], &[1, 0]), Ordering::Less);
    assert_eq!(cmp_same_len(&[1, 2], &[1, 3]), Ordering::Less);
    assert_eq!(cmp_same_len(&[1], &[1, 0]), Ordering::Equal);
    let mut out = [7usize, 0, 0, 0];
    add(&[usize::MAX], &[1], &mut out);
    assert_eq!(out, [7, 0, 1, 0]);
    let mut out = [7usize, 0, 0];
    add(&[3], &[4, 5], &mut out);
    assert_eq!(out, [7, 4, 8]);
    assert_eq!(left_pad(&[1, 2], 4), vec![0, 0, 1, 2]);
}

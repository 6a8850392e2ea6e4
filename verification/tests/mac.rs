use genuint::__mac::apply::first_bang;
use genuint::__mac::arr::ArrDrop;
use genuint::__mac::cond::hold;
use genuint::array::{ArrApi, ArrDeqApi};
use genuint::condty::CondResult;
use genuint::uint::from_u128;

#[test]
fn drop_items_one_by_one() {
    let mut d = ArrDrop(ArrApi::new(vec![String::from("a"), String::from("b")])).enter();
    assert!(d.0.is_full());
    assert_eq!(d.0.capacity(), 2);
    assert!(d.needs_drop());
    let mut seen = Vec::new();
    while d.has_next() {
        seen.push(d.pop_next().unwrap());
    }
    assert_eq!(seen, vec![String::from("b"), String::from("a")]);
    d.discard();

    let mut q = ArrDrop(ArrDeqApi::new_full(ArrApi::new(vec![1u8, 2, 3]))).enter();
    assert!(!q.needs_drop());
    assert_eq!(q.pop_next(), Some(1));
    assert_eq!(q.pop_next(), Some(2));
    assert_eq!(q.pop_next(), Some(3));
    assert_eq!(q.pop_next(), None);
    q.discard();
}

#[test]
fn hold_gives_matching_evidence() {
    match hold(&from_u128(4)) {
        Ok(c) => {
            let r: CondResult<u8, char> = c.new_ok(9);
            assert_eq!(c.unwrap_ok(r), 9);
            assert_eq!(c.unwrap_true(c.new_true::<u8, char>(1)), 1);
        }
        Err(_) => panic!("4 is nonzero"),
    }
    match hold(&from_u128(0)) {
        Ok(_) => panic!("0 is zero"),
        Err(c) => {
            let r: CondResult<u8, char> = c.new_err('x');
            assert_eq!(c.unwrap_err(r), 'x');
            assert_eq!(c.unwrap_false(c.new_false::<u8, char>('y')), 'y');
        }
    }
}

#[test]
fn into_iter_both_ends() {
    let mut it = ArrApi::new(vec![1, 2, 3, 4]).into_iter();
    assert_eq!(it.size_hint(), (4, Some(4)));
    assert_eq!(it.next(), Some(1));
    assert_eq!(it.next_back(), Some(4));
    assert_eq!(it.next(), Some(2));
    assert_eq!(it.next(), Some(3));
    assert_eq!(it.next(), None);
    assert_eq!(it.next_back(), None);
}

#[test]
fn first_bang_positions() {
    assert_eq!(first_bang(&[]), None);
    assert_eq!(first_bang(&[false, false]), None);
    assert_eq!(first_bang(&[false, true, true]), Some(1));
    assert_eq!(first_bang(&[true]), Some(0));
}

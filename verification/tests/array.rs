use core::cmp::Ordering;
use genuint::array::helper::{ArrBuilder, ArrConsumer, ArrRefConsumer, BigCounter};
use genuint::array::{ArrApi, ArrDeqApi, ArrVecApi};
use genuint::uint::{from_u128, from_usize, Uint};

fn u(n: u128) -> Uint {
    from_u128(n)
}

fn deq_items<T: Copy>(deq: &ArrDeqApi<T>) -> Vec<T> {
    let (a, b) = deq.as_slices();
    a.iter().chain(b.iter()).copied().collect()
}

#[test]
fn deque_new_and_full() {
    let deq = ArrDeqApi::<i32>::new(&u(20));
    assert_eq!(deq.capacity(), 20);
    assert_eq!(deq.len(), 0);
    assert!(deq.is_empty());
    assert!(!deq.is_full());
    let full = ArrDeqApi::new_full(ArrApi::new(vec![1; 20]));
    assert_eq!(full.len(), 20);
    assert!(!full.is_empty());
    assert!(full.is_full());
    assert_eq!(deq_items(&full), vec![1; 20]);
}

#[test]
fn deque_pop() {
    let mut deq = ArrDeqApi::<i32>::new(&u(20));
    assert_eq!(deq.pop_front(), None);
    assert_eq!(deq.pop_back(), None);
    let items: Vec<usize> = (0..20).collect();
    let mut full = ArrDeqApi::new_full(ArrApi::new(items.clone()));
    assert_eq!(full.pop_front(), Some(0));
    let mut full = ArrDeqApi::new_full(ArrApi::new(items));
    assert_eq!(full.pop_back(), Some(19));
}

#[test]
fn deque_push() {
    let mut deq = ArrDeqApi::new(&u(20));
    deq.push_front(1);
    deq.push_front(2);
    assert_eq!(deq_items(&deq), vec![2, 1]);
    let mut deq = ArrDeqApi::new(&u(20));
    deq.push_back(1);
    deq.push_back(2);
    assert_eq!(deq_items(&deq), vec![1, 2]);
}

#[test]
fn deque_try_push() {
    let mut deq = ArrDeqApi::new(&u(2));
    assert_eq!(deq.try_push_front(1), Ok(()));
    assert_eq!(deq.try_push_front(2), Ok(()));
    assert_eq!(deq.try_push_front(3), Err(3));
    assert_eq!(deq_items(&deq), vec![2, 1]);
    let mut deq = ArrDeqApi::new(&u(2));
    assert_eq!(deq.try_push_back(1), Ok(()));
    assert_eq!(deq.try_push_back(2), Ok(()));
    assert_eq!(deq.try_push_back(3), Err(3));
    assert_eq!(deq_items(&deq), vec![1, 2]);
}

#[test]
fn deque_as_slices_ends() {
    let mut deq = ArrDeqApi::new(&u(20));
    deq.push_front(1);
    deq.push_back(2);
    let (lhs, rhs) = deq.as_slices();
    assert_eq!(lhs.iter().chain(rhs).next(), Some(&1));
    assert_eq!(lhs.iter().chain(rhs).next_back(), Some(&2));
    let (lhs, rhs) = deq.as_mut_slices();
    assert_eq!(lhs.iter_mut().chain(&mut *rhs).next(), Some(&mut 1));
    assert_eq!(lhs.iter_mut().chain(rhs).next_back(), Some(&mut 2));
}

#[test]
fn deque_make_contiguous() {
    let mut deq = ArrDeqApi::<i32>::new(&u(20));
    for i in 0..3 {
        deq.push_back(i);
        deq.push_front(10 - i);
    }
    assert_eq!(deq.make_contiguous(), [8, 9, 10, 0, 1, 2]);
    assert_eq!(deq.as_slices(), ([8, 9, 10, 0, 1, 2].as_slice(), [].as_slice()));
    deq.make_contiguous()[0] = 7;
    assert_eq!(deq_items(&deq), vec![7, 9, 10, 0, 1, 2]);
    let (lhs, rhs) = deq.as_mut_slices();
    lhs[1] = 6;
    assert!(rhs.is_empty());
    assert_eq!(deq_items(&deq), vec![7, 6, 10, 0, 1, 2]);
}

#[test]
fn deque_into_arr_vec() {
    let mut deq = ArrDeqApi::new(&u(20));
    deq.push_front(2);
    deq.push_front(1);
    let vec = deq.into_arr_vec();
    assert_eq!(vec.as_slice(), [1, 2]);
}

#[test]
fn deque_assert_full() {
    let mut deq = ArrDeqApi::<i32>::new(&u(2));
    deq.push_back(2);
    deq.push_front(1);
    let arr = deq.assert_full();
    assert_eq!(arr.inner, vec![1, 2]);
}

#[test]
fn deque_drain_sum() {
    let mut deq = ArrDeqApi::new_full(ArrApi::new(vec![1i32; 20]));
    let mut sum = 0;
    while let Some(item) = deq.pop_front() {
        sum += item;
    }
    deq.assert_empty();
    assert_eq!(sum, 20);
}

#[test]
fn deque_wraps_around() {
    let mut deq = ArrDeqApi::new(&u(3));
    deq.push_back(1);
    deq.push_back(2);
    deq.push_back(3);
    assert_eq!(deq.pop_front(), Some(1));
    deq.push_back(4);
    assert_eq!(deq_items(&deq), vec![2, 3, 4]);
    assert_eq!(deq.pop_back(), Some(4));
    assert_eq!(deq.pop_front(), Some(2));
    assert_eq!(deq.pop_front(), Some(3));
    assert_eq!(deq.pop_front(), None);
}

#[test]
fn vec_basics() {
    let mut v = ArrVecApi::new(&u(3));
    assert!(v.is_empty());
    assert_eq!(v.capacity(), 3);
    v.push(1);
    assert_eq!(v.try_push(2), Ok(()));
    assert_eq!(v.spare_len(), 1);
    v.push(3);
    assert!(v.is_full());
    assert_eq!(v.try_push(4), Err(4));
    assert_eq!(v.pop(), Some(3));
    assert_eq!(v.len(), 2);
    assert_eq!(v.as_slice(), [1, 2]);
    let full = ArrVecApi::new_full(ArrApi::new(vec![1, 2, 3]));
    assert_eq!(full.as_slice(), [1, 2, 3]);
    assert_eq!(full.assert_full().inner, vec![1, 2, 3]);
}

#[test]
fn vec_split_and_grow() {
    let v = ArrVecApi::new_full(ArrApi::new(vec![1, 2, 3, 4]));
    let (a, b) = v.split_at_uint(&u(1));
    assert_eq!(a.as_slice(), [1]);
    assert_eq!(b.as_slice(), [2, 3, 4]);
    let mut v = ArrVecApi::new_full(ArrApi::new(vec![1, 2, 3, 4]));
    let tail = v.split_off_at_uint(&u(3));
    assert_eq!(v.as_slice(), [1, 2, 3]);
    assert_eq!(tail.as_slice(), [4]);
    let grown = v.try_grow(&u(10)).ok().unwrap();
    assert_eq!(grown.capacity(), 10);
    assert_eq!(grown.as_slice(), [1, 2, 3]);
}

#[test]
fn array_basics() {
    let a = ArrApi::from_fn(&u(4), |i: usize| i * 10);
    assert_eq!(a.as_slice(), [0, 10, 20, 30]);
    assert_eq!(a.length(), 4);
    let b = ArrApi::new(vec![40, 50]);
    let c = a.concat(b);
    assert_eq!(c.as_slice(), [0, 10, 20, 30, 40, 50]);
    let (l, r) = c.split_at_uint(&u(2));
    assert_eq!(l.as_slice(), [0, 10]);
    assert_eq!(r.as_slice(), [20, 30, 40, 50]);
    let m = l.map(|x: usize| x + 1);
    assert_eq!(m.as_slice(), [1, 11]);
    assert_eq!(ArrApi::of(&u(3), 7u8).as_slice(), [7, 7, 7]);
    assert!(ArrApi::from_slice(&[1, 2, 3], &u(2)).is_none());
    assert_eq!(ArrApi::from_slice(&[1, 2, 3], &u(3)).unwrap().as_slice(), [1, 2, 3]);
    let nested = ArrApi::new(vec![ArrApi::new(vec![1, 2]), ArrApi::new(vec![3, 4])]);
    assert_eq!(nested.flatten().as_slice(), [1, 2, 3, 4]);
    let grown = ArrApi::new(vec![1u8, 2]).resize_with_fill(&u(4), 9);
    assert_eq!(grown.as_slice(), [1, 2, 9, 9]);
    let cut = ArrApi::new(vec![1u8, 2, 3]).resize_with_fill(&u(1), 9);
    assert_eq!(cut.as_slice(), [1]);
}

#[test]
fn builder_and_consumers() {
    let mut b = ArrBuilder::new(&u(3));
    b.push('a');
    b.push('b');
    b.push('c');
    let arr = b.into_full();
    assert_eq!(arr.as_slice(), ['a', 'b', 'c']);
    let mut r = ArrRefConsumer::new(&arr);
    assert_eq!(r.next(), Some(&'a'));
    assert_eq!(r.next(), Some(&'b'));
    assert_eq!(r.next(), Some(&'c'));
    assert_eq!(r.next(), None);
    let mut c = ArrConsumer::new(arr);
    assert_eq!(c.next(), Some('a'));
    assert_eq!(c.next(), Some('b'));
    assert_eq!(c.next(), Some('c'));
    assert_eq!(c.next(), None);
}

#[test]
fn big_counter_counts() {
    let bound = genuint::ops::add(&genuint::consts::usize_max(), &u(2));
    let mut c = BigCounter::zero(&bound);
    assert!(c.is_zero());
    assert!(!c.dec());
    assert_eq!(c.cmp_max(), Ordering::Less);
    let mut m = BigCounter::max(&bound);
    assert_eq!(m.cmp_max(), Ordering::Equal);
    assert!(m.dec());
    assert!(m.dec());
    assert_eq!(m.cmp_max(), Ordering::Less);
    m.inc();
    m.inc();
    assert_eq!(m.cmp_max(), Ordering::Equal);
    c.inc();
    assert!(!c.is_zero());
    assert!(c.dec());
    assert!(c.is_zero());
    let small = BigCounter::max(&from_usize(1));
    assert!(!small.is_zero());
}

#[test]
fn deque_wrapped_slices_and_writes() {
    let mut deq = ArrDeqApi::new(&u(5));
    deq.push_back(1);
    deq.push_back(2);
    deq.push_front(0);
    deq.push_front(9);
    let (lhs, rhs) = deq.as_slices();
    assert!(!lhs.is_empty());
    assert_eq!(lhs.iter().chain(rhs).copied().collect::<Vec<_>>(), vec![9, 0, 1, 2]);
    {
        let (lhs, rhs) = deq.as_mut_slices();
        for x in lhs.iter_mut().chain(rhs.iter_mut()) {
            *x += 10;
        }
    }
    assert_eq!(deq_items(&deq), vec![19, 10, 11, 12]);
    assert_eq!(deq.pop_back(), Some(12));
    assert_eq!(deq.pop_front(), Some(19));
    assert_eq!(deq_items(&deq), vec![10, 11]);
}

#[test]
fn ref_consumer_yields_exactly_len_items() {
    let arr = ArrApi::new(vec![5, 6, 7]);
    let mut c = ArrRefConsumer::new(&arr);
    for k in 0..6 {
        let got = c.next();
        if k < 3 {
            assert_eq!(got, Some(&arr.inner[k]));
        } else {
            assert_eq!(got, None);
        }
    }
}

#[test]
fn deque_is_full_at_capacity() {
    assert!(!ArrDeqApi::<i32>::new(&u(20)).is_full());
    assert!(ArrDeqApi::new_full(ArrApi::new(vec![1; 20])).is_full());
    let mut deq = ArrDeqApi::new(&u(2));
    deq.push_back(1);
    assert!(!deq.is_full());
    deq.push_front(0);
    assert!(deq.is_full());
    assert_eq!(deq.pop_front(), Some(0));
    assert_eq!(deq.pop_front(), Some(1));
    assert!(deq.is_empty());
}

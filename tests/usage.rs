use std::collections::VecDeque;
use std::mem;

use memuse::collections::{vec_deque_usage, vec_usage, vec_usage_bounds};
use memuse::non_empty::non_empty_usage;
use memuse::DynamicUsage;

const NONEMPTY_CAPACITY: usize = 7;

#[test]
fn standard_types() {
    assert_eq!(129u8.dynamic_usage(), 0);
    assert_eq!(3i128.dynamic_usage(), 0);
    assert_eq!("foobar".dynamic_usage(), 0);

    assert_eq!(129u8.dynamic_usage_bounds(), (0, Some(0)));
    assert_eq!(3i128.dynamic_usage_bounds(), (0, Some(0)));
    assert_eq!("foobar".dynamic_usage_bounds(), (0, Some(0)));
}

#[test]
fn string() {
    assert_eq!(String::new().dynamic_usage(), 0);
    assert_eq!("foobar".to_string().dynamic_usage(), 6);

    assert_eq!(String::new().dynamic_usage_bounds(), (0, Some(0)));
    assert_eq!("foobar".to_string().dynamic_usage_bounds(), (6, Some(6)));
}

#[test]
fn option() {
    let a: Option<Vec<u8>> = None;
    let b: Option<Vec<u8>> = Some(vec![7u8; 4]);
    assert_eq!(a.dynamic_usage(), 0);
    assert_eq!(a.dynamic_usage_bounds(), (0, Some(0)));
    assert_eq!(b.dynamic_usage(), 4);
    assert_eq!(b.dynamic_usage_bounds(), (4, Some(4)));
}

#[test]
fn array() {
    let a = [7; 42];
    assert_eq!(a.dynamic_usage(), 0);
    assert_eq!(a.dynamic_usage_bounds(), (0, Some(0)));

    let mut b = [None, None, None, None];
    assert_eq!(b.dynamic_usage(), 0);
    assert_eq!(b.dynamic_usage_bounds(), (0, Some(0)));

    b[0] = Some(vec![4u8; 20]);
    assert_eq!(b.dynamic_usage(), 20);
    assert_eq!(b.dynamic_usage_bounds(), (20, Some(20)));
}

#[test]
fn vec() {
    let capacity = 7;
    let mut a = Vec::with_capacity(capacity);
    a.push(42u64);

    let expected = capacity * mem::size_of::<u64>();
    assert_eq!(a.dynamic_usage(), expected);
    assert_eq!(a.dynamic_usage_bounds(), (expected, Some(expected)));
}

#[test]
fn nonempty() {
    let a = nonempty::NonEmpty::new(42);
    assert_eq!(a.dynamic_usage(), 0);
    assert_eq!(a.dynamic_usage_bounds(), (0, Some(0)));

    let b = nonempty::NonEmpty::from_slice(&[27u128; NONEMPTY_CAPACITY]).unwrap();

    let expected = (NONEMPTY_CAPACITY - 1) * mem::size_of::<u128>();
    assert_eq!(b.dynamic_usage(), expected);
    assert_eq!(b.dynamic_usage_bounds(), (expected, Some(expected)));
}

#[test]
fn nonempty_counts_what_elements_own() {
    let mut a = nonempty::NonEmpty::new(vec![1u8; 3]);
    a.push(vec![2u8; 5]);
    let tail_slots = a.capacity() - 1;
    let expected = tail_slots * mem::size_of::<Vec<u8>>() + 3 + 5;
    assert_eq!(a.dynamic_usage(), expected);
    assert_eq!(a.dynamic_usage_bounds(), (expected, Some(expected)));
}

#[test]
fn primitives_report_zero() {
    assert_eq!(true.dynamic_usage(), 0);
    assert_eq!('x'.dynamic_usage_bounds(), (0, Some(0)));
    assert_eq!(usize::MAX.dynamic_usage(), 0);
    assert_eq!((-5i64).dynamic_usage_bounds(), (0, Some(0)));
}

#[test]
fn option_forwards_to_contents() {
    let s: Option<String> = Some(String::with_capacity(33));
    assert_eq!(s.dynamic_usage(), s.as_ref().unwrap().dynamic_usage());
    assert!(s.dynamic_usage() >= 33);
    let none: Option<String> = None;
    assert_eq!(none.dynamic_usage_bounds(), (0, Some(0)));
}

#[test]
fn vec_with_spare_capacity_and_one_element() {
    let mut a: Vec<u64> = Vec::with_capacity(7);
    a.push(1);
    assert_eq!(a.capacity(), 7);
    assert_eq!(a.dynamic_usage(), 56);
    assert_eq!(a.dynamic_usage_bounds(), (56, Some(56)));
}

#[test]
fn nested_vec_sums_elements() {
    let mut outer: Vec<Vec<u8>> = Vec::with_capacity(2);
    outer.push(vec![1u8; 3]);
    let expected = outer.capacity() * mem::size_of::<Vec<u8>>() + outer[0].capacity();
    assert_eq!(outer.dynamic_usage(), expected);
    assert_eq!(outer.dynamic_usage_bounds(), (expected, Some(expected)));
}

#[test]
fn slice_has_no_base_cost() {
    let strings = vec![String::from("ab"), String::from("cde")];
    let slice: &[String] = &strings;
    let expected = strings[0].capacity() + strings[1].capacity();
    assert_eq!(slice.dynamic_usage(), expected);
    assert_eq!(slice.dynamic_usage_bounds(), (expected, Some(expected)));
}

#[test]
fn empty_vec_without_capacity() {
    let a: Vec<u32> = Vec::new();
    assert_eq!(a.dynamic_usage(), 0);
    assert_eq!(a.dynamic_usage_bounds(), (0, Some(0)));
}

#[test]
fn vec_deque_counts_one_extra_slot() {
    let mut d: VecDeque<u32> = VecDeque::with_capacity(10);
    d.push_back(1);
    let expected = (d.capacity() + 1) * mem::size_of::<u32>();
    assert_eq!(d.dynamic_usage(), expected);
    assert_eq!(d.dynamic_usage_bounds(), (expected, Some(expected)));
}

#[test]
fn repeated_calls_agree() {
    let v = vec![String::from("hello"), String::new()];
    assert_eq!(v.dynamic_usage(), v.dynamic_usage());
    assert_eq!(v.dynamic_usage_bounds(), v.dynamic_usage_bounds());
}

#[test]
fn tuples_sum_components() {
    let pair = (String::with_capacity(5), vec![0u16; 3]);
    let expected = pair.0.capacity() + pair.1.capacity() * 2;
    assert_eq!(pair.dynamic_usage(), expected);
    assert_eq!(pair.dynamic_usage_bounds(), (expected, Some(expected)));

    let triple = (1u8, Some(String::with_capacity(9)), 'z');
    let expected = triple.1.as_ref().unwrap().capacity();
    assert_eq!(triple.dynamic_usage(), expected);
    assert_eq!(triple.dynamic_usage_bounds(), (expected, Some(expected)));
}

#[test]
fn vec_usage_from_capacity() {
    assert_eq!(vec_usage::<u64>(7, &[42u64]), 56);
    assert_eq!(vec_usage_bounds::<u64>(7, &[42u64]), (56, Some(56)));
    let strings = [String::with_capacity(10)];
    let expected = 3 * mem::size_of::<String>() + strings[0].capacity();
    assert_eq!(vec_usage(3, &strings), expected);
}

#[test]
fn vec_deque_usage_counts_spare_slot() {
    let mut d: VecDeque<u16> = VecDeque::new();
    d.push_back(1);
    assert_eq!(vec_deque_usage(4, &d), 5 * 2);
}

#[test]
fn non_empty_usage_from_tail_capacity() {
    assert_eq!(non_empty_usage::<u128>(6, &27u128, &[27u128; 6]), 96);
    assert_eq!(non_empty_usage::<u128>(0, &42u128, &[]), 0);
    let head = vec![1u8; 4];
    assert_eq!(non_empty_usage(2, &head, &[]), 2 * mem::size_of::<Vec<u8>>() + head.capacity());
}

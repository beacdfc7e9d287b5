use algo_primitives::fenwick_tree::{Bound, FenwickTree, Val};
use rand::{thread_rng, Rng};

#[test]
fn lib_test_random() {
    let mut rng = thread_rng();
    for _ in 0..100 {
        let len = rng.gen_range(1..100);
        let mut vec = vec![0; len];
        let mut ft = FenwickTree::<i32>::new(len);
        for _ in 0..1000 {
            let i = rng.gen_range(0..len);
            let x = rng.gen_range(-100..=100);
            vec[i] += x;
            ft.add(i, x);
            let l = rng.gen_range(0..len);
            let r = rng.gen_range(l + 1..=len);
            let sum_vec = vec[l..r].iter().sum::<i32>();
            let sum_ft = ft.sum(Bound::Included(l), Bound::Excluded(r));
            assert_eq!(sum_vec, sum_ft);
        }
    }
}

#[test]
fn test_range() {
    let ft = FenwickTree::<i32>::new(10);
    assert_eq!(ft.range(Bound::Unbounded, Bound::Unbounded), 0..10);
    assert_eq!(ft.range(Bound::Unbounded, Bound::Excluded(3)), 0..3);
    assert_eq!(ft.range(Bound::Included(6), Bound::Unbounded), 6..10);
    assert_eq!(ft.range(Bound::Included(4), Bound::Excluded(7)), 4..7);
    assert_eq!(ft.range(Bound::Included(4), Bound::Included(7)), 4..8);
    assert_eq!(ft.range(Bound::Unbounded, Bound::Included(5)), 0..6);
}

#[test]
fn range_excluded_start() {
    let ft = FenwickTree::<i32>::new(10);
    assert_eq!(ft.range(Bound::Excluded(2), Bound::Included(2)), 3..3);
    assert_eq!(ft.range(Bound::Excluded(0), Bound::Unbounded), 1..10);
}

#[test]
fn fenwick_example() {
    let mut ft = FenwickTree::<i32>::new(5);
    ft.add(0, 3);
    ft.add(2, 4);
    ft.add(4, 1);
    assert_eq!(ft.sum(Bound::Included(0), Bound::Excluded(3)), 7);
    assert_eq!(ft.sum(Bound::Unbounded, Bound::Unbounded), 8);
    assert_eq!(ft.sum(Bound::Included(1), Bound::Excluded(1)), 0);
}

#[test]
fn sum_of_empty_range_is_zero() {
    let mut ft = FenwickTree::<i64>::new(6);
    for i in 0..6 {
        ft.add(i, 10 + i as i64);
    }
    for s in 0..=6 {
        assert_eq!(ft.sum(Bound::Included(s), Bound::Excluded(s)), 0);
    }
    assert_eq!(ft.sum(Bound::Excluded(5), Bound::Unbounded), 0);
    let empty = FenwickTree::<u32>::new(0);
    assert_eq!(empty.sum(Bound::Unbounded, Bound::Unbounded), 0);
}

#[test]
fn new_tree_holds_zeros() {
    let ft = FenwickTree::<i32>::new(9);
    for l in 0..9 {
        for r in l..=9 {
            assert_eq!(ft.sum(Bound::Included(l), Bound::Excluded(r)), 0);
        }
    }
}

#[test]
fn add_changes_exactly_the_ranges_that_hold_the_position() {
    let len = 13;
    let mut ft = FenwickTree::<i64>::new(len);
    for i in 0..len {
        ft.add(i, (i * i) as i64);
    }
    let p = 6;
    for l in 0..len {
        for r in l..=len {
            let before = ft.sum(Bound::Included(l), Bound::Excluded(r));
            ft.add(p, 1000);
            let after = ft.sum(Bound::Included(l), Bound::Excluded(r));
            ft.add(p, -1000);
            if l <= p && p < r {
                assert_eq!(after, before + 1000);
            } else {
                assert_eq!(after, before);
            }
        }
    }
}

#[test]
fn all_sums_match_a_plain_array() {
    let len = 33;
    let mut plain = vec![0i64; len];
    let mut ft = FenwickTree::<i64>::new(len);
    let mut x: i64 = 7;
    for step in 0..200 {
        x = (x * 31 + 11) % 1009;
        let i = (step * 5 + 3) % len;
        plain[i] += x - 500;
        ft.add(i, x - 500);
    }
    for l in 0..=len {
        for r in l..=len {
            let expected: i64 = plain[l..r].iter().sum();
            assert_eq!(ft.sum(Bound::Included(l), Bound::Excluded(r)), expected);
            if r > l {
                assert_eq!(ft.sum(Bound::Included(l), Bound::Included(r - 1)), expected);
            }
        }
    }
}

#[test]
fn integer_values_wrap() {
    let mut ft = FenwickTree::<i32>::new(3);
    ft.add(0, i32::MAX);
    ft.add(1, 1);
    assert_eq!(ft.sum(Bound::Unbounded, Bound::Unbounded), i32::MIN);
    assert_eq!(ft.sum(Bound::Included(1), Bound::Unbounded), 1);
    let mut fu = FenwickTree::<u32>::new(2);
    fu.add(1, 5);
    assert_eq!(fu.sum(Bound::Included(0), Bound::Excluded(1)), 0);
    assert_eq!(fu.sum(Bound::Included(1), Bound::Excluded(2)), 5);
    fu.add(0, u32::MAX);
    assert_eq!(fu.sum(Bound::Unbounded, Bound::Unbounded), 4);
}

#[test]
fn val_operations_on_integers() {
    assert_eq!(<i32 as Val>::zero(), 0);
    let mut a: i32 = 40;
    Val::add_assign(&mut a, &2);
    assert_eq!(a, 42);
    assert_eq!(Val::sub(a, 50), -8);
    assert_eq!(Val::sub(i32::MIN, 1), i32::MAX);
    assert_eq!(Val::sub(0u64, 1u64), u64::MAX);
    let mut b: u64 = u64::MAX;
    Val::add_assign(&mut b, &2);
    assert_eq!(b, 1);
}

use algo_primitives::math::{pow_mod, Barrett};
use rand::{thread_rng, Rng};

#[test]
fn test_barret() {
    let mut rng = thread_rng();
    for _ in 0..100_000 {
        let m = rng.gen_range(1..1 << 31);
        let a = rng.gen::<u32>();
        let b = rng.gen::<u32>();
        let bt = Barrett::new(m);
        assert_eq!((a as u64 * b as u64) % m as u64, bt.mul(a, b) as u64);
    }
}

#[test]
fn barrett_mul_small_modulus() {
    let bt = Barrett::new(7);
    assert_eq!(bt.mul(3, 5), 1);
    assert_eq!(bt.mul(0, 6), 0);
    assert_eq!(bt.mul(6, 6), 1);
}

#[test]
fn barrett_mul_modulus_one() {
    let bt = Barrett::new(1);
    assert_eq!(bt.mul(0, 0), 0);
}

#[test]
fn barrett_mul_powers_of_two() {
    for shift in 1..31 {
        let m: u32 = 1 << shift;
        let bt = Barrett::new(m);
        assert_eq!(bt.mul(m - 1, m - 1) as u64, ((m - 1) as u64 * (m - 1) as u64) % m as u64);
        assert_eq!(bt.mul(u32::MAX, u32::MAX) as u64, (u32::MAX as u64 * u32::MAX as u64) % m as u64);
        assert_eq!(bt.mul(m, 3), 0);
    }
}

#[test]
fn barrett_mul_largest_modulus() {
    let m: u32 = (1 << 31) - 1;
    let bt = Barrett::new(m);
    assert_eq!(bt.mul(m - 1, m - 1), 1);
    assert_eq!(bt.mul(m - 1, 2), m - 2);
    assert_eq!(bt.mul(u32::MAX, u32::MAX) as u64, (u32::MAX as u64 * u32::MAX as u64) % m as u64);
}

#[test]
fn barrett_mul_of_residues_is_product_residue() {
    let m = 1_000_003u32;
    let bt = Barrett::new(m);
    let (a, b) = (4_000_000_123u32, 3_999_999_001u32);
    assert_eq!(bt.mul(a % m, b % m) as u64, (a as u64 * b as u64) % m as u64);
}

#[test]
fn pow_mod_example() {
    assert_eq!(pow_mod(2, 10, 1000), 24);
}

#[test]
fn pow_mod_modulus_one() {
    assert_eq!(pow_mod(0, 0, 1), 0);
    assert_eq!(pow_mod(5, 3, 1), 0);
    assert_eq!(pow_mod(-7, u64::MAX, 1), 0);
}

#[test]
fn pow_mod_zero_exponent() {
    assert_eq!(pow_mod(0, 0, 7), 1);
    assert_eq!(pow_mod(12345, 0, 2), 1);
    assert_eq!(pow_mod(-3, 0, 1000), 1);
}

#[test]
fn pow_mod_negative_base() {
    assert_eq!(pow_mod(-2, 3, 7), 6);
    assert_eq!(pow_mod(-1, 1, 5), 4);
    assert_eq!(pow_mod(-1, 2, 5), 1);
    assert_eq!(pow_mod(i64::MIN, 1, 1000), 192);
}

#[test]
fn pow_mod_large_values() {
    let p: u32 = 998_244_353;
    assert_eq!(pow_mod(3, (p - 1) as u64, p), 1);
    assert_eq!(pow_mod(i64::MAX, 2, (1 << 31) - 1), 1);
    assert_eq!(pow_mod(2, u64::MAX, 3), 2);
    assert_eq!(pow_mod(10, 18, 1_000_000_007), 49);
}

#[test]
fn pow_mod_matches_repeated_multiplication() {
    for m in 1u32..40 {
        for x in -20i64..20 {
            let mut expected: i64 = 1 % m as i64;
            for n in 0u64..12 {
                assert_eq!(pow_mod(x, n, m) as i64, expected);
                expected = (expected * x).rem_euclid(m as i64);
            }
        }
    }
}

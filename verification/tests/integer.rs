use libprocon::integer::{divosors, gcd, lcm, Int};
use libprocon::prime::Prime;
use std::collections::HashMap;

#[test]
fn test_sqrt_floor() {
    let tests = [
        (0, 0),
        (1, 1),
        (2, 1),
        (3, 1),
        (4, 2),
        (8, 2),
        (9, 3),
        (99, 9),
        (100, 10),
        (-1, 0),
    ];
    for test in tests.iter() {
        assert_eq!(test.0.sqrt_floor(), test.1);
    }
}

#[test]
fn test_gcd() {
    assert_eq!(gcd(3, 7), 1);
    assert_eq!(gcd(10, 5), 5);
}

#[test]
fn test_lcm() {
    assert_eq!(lcm(4, 6), 12);
    assert_eq!(lcm(14, 21), 42);
}

#[test]
fn test_divisors() {
    assert_eq!(divosors(12), vec![1, 2, 3, 4, 6, 12]);
    assert_eq!(divosors(1), vec![1]);
    assert_eq!(divosors(7), vec![1, 7]);
    assert_eq!(divosors(25), vec![1, 5, 25]);
}

#[test]
fn test_lower_primes() {
    assert_eq!(10_usize.lower_primes(), vec![2_usize, 3, 5, 7]);
    assert_eq!(15_usize.lower_primes(), vec![2_usize, 3, 5, 7, 11, 13]);
    assert!(1_usize.lower_primes().is_empty());
    assert_eq!(2_usize.lower_primes(), vec![2_usize]);
}

#[test]
fn test_factorize() {
    let mut result_10 = HashMap::new();
    result_10.insert(2_usize, 1_usize);
    result_10.insert(5_usize, 1_usize);
    assert_eq!(10_usize.factorize(), result_10);

    let mut result_12 = HashMap::new();
    result_12.insert(2_usize, 2_usize);
    result_12.insert(3_usize, 1_usize);
    assert_eq!(12_usize.factorize(), result_12);

    let result_1 = HashMap::new();
    assert_eq!(1_usize.factorize(), result_1);

    let result_0 = HashMap::new();
    assert_eq!(0_usize.factorize(), result_0);

    let mut result_99991 = HashMap::new();
    result_99991.insert(99991_usize, 1_usize);
    assert_eq!(99991_usize.factorize(), result_99991);

    let mut result_2013 = HashMap::new();
    result_2013.insert(3_usize, 1_usize);
    result_2013.insert(11_usize, 1_usize);
    result_2013.insert(61_usize, 1_usize);
    assert_eq!(2013_usize.factorize(), result_2013);
}

#[test]
fn sqrt_floor_brackets_the_number() {
    for n in 0u32..2000 {
        let r = n.sqrt_floor();
        assert!(r * r <= n && n < (r + 1) * (r + 1));
    }
    assert_eq!(255u16.sqrt_floor(), 15);
    assert_eq!(1_000_000_i64.sqrt_floor(), 1000);
    assert_eq!(999_999_i64.sqrt_floor(), 999);
    assert_eq!((-50i8).sqrt_floor(), 0);
}

#[test]
fn gcd_has_the_sign_that_euclid_leaves() {
    assert_eq!(gcd(-2, 3), 1);
    assert_eq!(gcd(2, -3), -1);
    assert_eq!(gcd(-4, -6), -2);
    assert_eq!(gcd(0, 5), 5);
    assert_eq!(gcd(5, 0), 5);
    assert_eq!(gcd(0, 0), 0);
    assert_eq!(gcd(0, -5), -5);
    assert_eq!(gcd(12u8, 18u8), 6);
    assert_eq!(gcd(i32::MIN, 0), i32::MIN);
    assert_eq!(gcd(i32::MIN, 3), 1);
}

#[test]
fn lcm_is_a_common_multiple() {
    assert_eq!(lcm(0, 5), 0);
    assert_eq!(lcm(6, 4), 12);
    assert_eq!(lcm(7u64, 13u64), 91);
    assert_eq!(lcm(-4, 6), -12);
    assert_eq!(lcm(4, -6), 12);
}

#[test]
fn div_floor_and_mod_floor_round_down() {
    assert_eq!(7.div_floor(&2), 3);
    assert_eq!((-7).div_floor(&2), -4);
    assert_eq!(7.div_floor(&-2), -4);
    assert_eq!((-7).div_floor(&-2), 3);
    assert_eq!(7.mod_floor(&2), 1);
    assert_eq!((-7).mod_floor(&2), 1);
    assert_eq!(7.mod_floor(&-2), -1);
    assert_eq!((-7).mod_floor(&-2), -1);
    assert_eq!((-8).div_floor(&2), -4);
    assert_eq!((-8).mod_floor(&2), 0);
    assert_eq!(Int::div_rem(&-7, &2), (-3, -1));
    assert_eq!(Int::div_rem(&7, &-2), (-3, 1));
    assert!(0u8.is_zero() && !1u8.is_zero() && 1i64.is_one() && !0i64.is_one());
}

#[test]
fn divisors_of_nothing_positive_are_none() {
    assert_eq!(divosors(0), Vec::<i32>::new());
    assert_eq!(divosors(-12), Vec::<i32>::new());
    assert_eq!(divosors(36u8), vec![1, 2, 3, 4, 6, 9, 12, 18, 36]);
    assert_eq!(divosors(97i64), vec![1, 97]);
}

#[test]
fn lower_primes_are_the_primes() {
    assert_eq!(
        100_i32.lower_primes(),
        vec![2, 3, 5, 7, 11, 13, 17, 19, 23, 29, 31, 37, 41, 43, 47, 53, 59, 61, 67, 71, 73, 79, 83, 89, 97]
    );
    assert!(0_i32.lower_primes().is_empty());
    assert!((-5_i32).lower_primes().is_empty());
    assert_eq!(3_u8.lower_primes(), vec![2, 3]);
    assert_eq!(4_u8.lower_primes(), vec![2, 3]);
    assert_eq!(1000_u64.lower_primes().len(), 168);
}

#[test]
fn factorize_gives_back_the_number() {
    for n in 2u64..500 {
        let m = n.factorize();
        let mut product: u64 = 1;
        for (p, e) in m.iter() {
            assert!(*e >= 1);
            assert_eq!(p.lower_primes().last(), Some(p));
            product *= p.pow(*e as u32);
        }
        assert_eq!(product, n);
    }
    let m = 1024_i32.factorize();
    assert_eq!(m.len(), 1);
    assert_eq!(m.get(&2), Some(&10));
    assert!((-12_i32).factorize().is_empty());
}

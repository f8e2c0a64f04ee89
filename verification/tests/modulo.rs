use libprocon::modulo::{mod_inv, mod_pow, ModInt};

#[test]
fn test_mod_pow() {
    let m = 1_000_000_007;
    let x = 1234;
    let mut t = 1;
    for i in 0..1000 {
        assert_eq!(mod_pow(x, i, m), t);
        t = t * x % m;
    }
}

#[test]
fn test_mod_inv() {
    let tests = [
        (1, 13, 1),
        (2, 13, 7),
        (3, 13, 9),
        (4, 13, 10),
        (5, 13, 8),
        (6, 13, 11),
    ];

    for test in tests.iter() {
        assert_eq!(test.2, mod_inv(test.0, test.1));
    }
}

#[test]
fn test_mod_int() {
    let value = 43;
    let modulo = 13;
    let mint = ModInt::new(value, modulo);
    assert_eq!(mint, 4);
    assert_eq!(mint + 10, 1);
    assert_eq!(mint * 10, 1);
    assert_eq!(mint / 8, 7);
}

#[test]
fn test_mod_int_assign() {
    let value = 43;
    let modulo = 13;
    let mut mint = ModInt::new(value, modulo);
    assert_eq!(mint, 4);
    mint += 10;
    assert_eq!(mint, 1);
    mint -= 10;
    assert_eq!(mint, 4);
    mint *= ModInt::new(10, modulo);
    assert_eq!(mint, 1);
    mint /= 3;
    assert_eq!(mint, 9);
}

#[test]
fn mod_pow_of_negative_base_keeps_the_sign() {
    assert_eq!(mod_pow(-2, 3, 7), -1);
    assert_eq!(mod_pow(-2, 2, 7), 4);
    assert_eq!(mod_pow(-7, 5, 7), 0);
}

#[test]
fn mod_pow_without_positive_exponent_is_one() {
    assert_eq!(mod_pow(5, 0, 7), 1);
    assert_eq!(mod_pow(5, -3, 7), 1);
    assert_eq!(mod_pow(5, 0, 1), 1);
    assert_eq!(mod_pow(5, 1, 1), 0);
}

#[test]
fn mod_pow_and_mod_inv_with_a_negative_modulus() {
    assert_eq!(mod_pow(2, 3, -5), 3);
    assert_eq!(mod_pow(-2, 3, -5), -3);
    assert_eq!(mod_pow(7, 0, -5), 1);
    assert_eq!(mod_pow(7, 4, -1), 0);
    assert_eq!(mod_inv(3, -7), 1);
    assert_eq!(mod_inv(-3, -7), 1);
    assert_eq!(mod_inv(3, -1), 0);
}

#[test]
fn mod_pow_at_the_largest_modulus() {
    let m: i64 = 3_037_000_500;
    assert_eq!(mod_pow(m - 1, 2, m), 1);
    assert_eq!(mod_pow(m - 1, 3, m), m - 1);
}

#[test]
fn mod_inv_times_argument_is_one() {
    let m: i64 = 1_000_000_007;
    for a in [1i64, 2, 3, 10, 123_456_789, 1_000_000_006, 2_000_000_015] {
        let r = mod_inv(a, m);
        assert!(0 <= r && r < m);
        assert_eq!((a % m) * r % m, 1);
    }
}

#[test]
fn mod_inv_without_inverse_gives_the_divisor_coefficient() {
    // 4 and 6 share the divisor 2: the product leaves 2.
    let r = mod_inv(4, 6);
    assert_eq!(r, 5);
    assert_eq!(4 * r % 6, 2);
    assert_eq!(mod_inv(0, 7), 0);
    assert_eq!(mod_inv(-3, 13), 0);
    assert_eq!(mod_inv(5, 1), 0);
}

#[test]
fn mod_int_new_brings_negative_values_into_range() {
    assert_eq!(ModInt::new(-1, 13), 12);
    assert_eq!(ModInt::new(-13, 13), 0);
    assert_eq!(ModInt::new(-14, 13), 12);
    assert_eq!(ModInt::new(0, 1), 0);
    assert_eq!(ModInt::new(i64::MIN, 3_037_000_500), 145_474_192_i64);
}

#[test]
fn mod_int_operators_between_residues() {
    let a = ModInt::new(9, 13);
    let b = ModInt::new(7, 13);
    assert_eq!(a + b, 3);
    assert_eq!(a - b, 2);
    assert_eq!(b - a, 11);
    assert_eq!(a * b, 11);
    assert_eq!(a / b, 5);
    let mut c = a;
    c += b;
    assert_eq!(c, 3);
    c -= a;
    assert_eq!(c, 7);
    c /= b;
    assert_eq!(c, 1);
}

#[test]
fn mod_int_scalars_of_every_width() {
    let a = ModInt::new(5, 11);
    assert_eq!(a + 250u8, 2);
    assert_eq!(a + (-6i8), 10);
    assert_eq!(a - 60000u16, 10);
    assert_eq!(a * (-3i16), 7);
    assert_eq!(a * 4_000_000_000u32, 2);
    assert_eq!(a - i32::MIN, 7);
    assert_eq!(a + u64::MAX, 4);
    assert_eq!(a + i64::MAX, 1);
    assert_eq!(a * i64::MIN, 4);
    assert_eq!(a / 3usize, 9);
    assert_eq!(a / (-3isize), 0);
    assert!(a == 5u8 && a == 5i64 && a == 5usize);
    assert!(a != 16i32);
}

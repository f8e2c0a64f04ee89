use libprocon::rational::Rational;

#[test]
fn new_positive_eq() {
    let r1 = Rational::new(2, 3);
    let r2 = Rational::new(4, 6);
    let r3 = Rational::new(-2, -3);
    let r4 = Rational::new(2, 4);

    assert_eq!(r1, r2);
    assert_eq!(r1, r3);
    assert_ne!(r1, r4);
}

#[test]
fn new_negative_eq() {
    let r1 = Rational::new(-2, 3);
    let r2 = Rational::new(2, -3);
    let r3 = Rational::new(-6, 9);
    let r4 = Rational::new(6, -9);
    let r5 = Rational::new(-2, -3);

    assert_eq!(r1, r2);
    assert_eq!(r1, r3);
    assert_eq!(r1, r4);
    assert_ne!(r1, r5);
}

#[test]
fn new_zero_eq() {
    let r1 = Rational::new(0, 3);
    let r2 = Rational::new(0, 9);
    let r3 = Rational::new(0, 1000);
    let r4 = Rational::new(0, -5);
    let r5 = Rational::new(-0, 5);
    assert_eq!(r1, r2);
    assert_eq!(r1, r3);
    assert_eq!(r1, r4);
    assert_eq!(r1, r5);
}

#[test]
fn from_integer_eq() {
    let new = Rational::new(7, 1);
    let from_integer = Rational::from_integer(7);
    assert_eq!(new, from_integer);

    let new = Rational::new(-7, 1);
    let from_integer = Rational::from_integer(-7);
    assert_eq!(new, from_integer);

    let new = Rational::new(7, -1);
    let from_integer = Rational::from_integer(-7);
    assert_eq!(new, from_integer);
}

#[test]
fn to_integer() {
    assert_eq!(1, Rational::new(4, 3).to_integer());
    assert_eq!(1, Rational::new(5, 3).to_integer());
    assert_eq!(1, Rational::new(3, 3).to_integer());
    assert_eq!(2, Rational::new(6, 3).to_integer());
    assert_eq!(-1, Rational::new(-4, 3).to_integer());
    assert_eq!(-1, Rational::new(-3, 3).to_integer());
    assert_eq!(-2, Rational::new(-6, 3).to_integer());
    assert_eq!(0, Rational::new(0, 3).to_integer());
    assert_eq!(0, Rational::new(1, 3).to_integer());
    assert_eq!(0, Rational::new(-1, 3).to_integer());
}

#[test]
fn cmp_with_self() {
    assert!(Rational::new(3, 2) < Rational::new(5, 2));
    assert!(Rational::new(3, 2) < Rational::new(8, 5));
    assert!(Rational::new(3, 2) > Rational::new(1, 2));
    assert!(Rational::new(3, 2) > Rational::new(7, 5));
    assert!(Rational::new(-3, 2) < Rational::new(1, 2));
    assert!(Rational::new(-3, 2) < Rational::new(0, 2));
    assert!(Rational::new(-3, 2) < Rational::new(-7, 5));
}

#[test]
fn cmp_with_int() {
    assert!(Rational::new(3, 2) < 2);
    assert!(1 < Rational::new(3, 2));
    assert!(-1 < Rational::new(0, 2));
    assert!(-1 < Rational::new(-1, 2));
    assert!(Rational::new(-7, 2) < -3);
}

#[test]
fn truncate() {
    assert_eq!(1, Rational::new(4, 3).truncate());
    assert_eq!(1, Rational::new(5, 3).truncate());
    assert_eq!(1, Rational::new(3, 3).truncate());
    assert_eq!(2, Rational::new(6, 3).truncate());
    assert_eq!(-1, Rational::new(-4, 3).truncate());
    assert_eq!(-1, Rational::new(-3, 3).truncate());
    assert_eq!(-2, Rational::new(-6, 3).truncate());
    assert_eq!(0, Rational::new(0, 3).truncate());
    assert_eq!(0, Rational::new(1, 3).truncate());
    assert_eq!(0, Rational::new(-1, 3).truncate());
}

#[test]
fn floor() {
    assert_eq!(1, Rational::new(7, 4).floor());
    assert_eq!(1, Rational::new(4, 4).floor());
    assert_eq!(0, Rational::new(3, 4).floor());
    assert_eq!(-1, Rational::new(-3, 4).floor());
    assert_eq!(-4, Rational::new(-15, 4).floor());
}

#[test]
fn ceil() {
    assert_eq!(1, Rational::new(3, 4).ceil());
    assert_eq!(3, Rational::new(9, 4).ceil());
    assert_eq!(1, Rational::new(4, 4).ceil());
    assert_eq!(0, Rational::new(0, 4).ceil());
    assert_eq!(0, Rational::new(-3, 4).ceil());
    assert_eq!(-1, Rational::new(-4, 4).ceil());
    assert_eq!(-1, Rational::new(-5, 4).ceil());
    assert_eq!(-3, Rational::new(-13, 4).ceil());
}

#[test]
fn add_with_self() {
    assert_eq!(
        Rational::new(3, 4) + Rational::new(1, 4),
        Rational::from_integer(1)
    );
    assert_eq!(
        Rational::new(1, 2) + Rational::new(1, 3),
        Rational::new(5, 6)
    );
    assert_eq!(
        Rational::new(-1, 2) + Rational::new(1, 3),
        Rational::new(-1, 6)
    );
}

#[test]
fn add_with_int() {
    assert_eq!(Rational::new(3, 4) + 1, Rational::new(7, 4));
    assert_eq!(-2 + Rational::new(-1, 2), Rational::new(-5, 2));
}

#[test]
fn add_assign_with_self() {
    let mut r = Rational::new(3, 4);
    r += Rational::new(1, 4);
    assert_eq!(r, Rational::from_integer(1));

    let mut r = Rational::new(1, 2);
    r += Rational::new(1, 3);
    assert_eq!(r, Rational::new(5, 6));

    let mut r = Rational::new(-1, 2);
    r += Rational::new(1, 3);
    assert_eq!(r, Rational::new(-1, 6));
}

#[test]
fn sub_with_self() {
    assert_eq!(
        Rational::new(3, 4) - Rational::new(1, 4),
        Rational::new(1, 2)
    );
    assert_eq!(
        Rational::new(1, 2) - Rational::new(1, 3),
        Rational::new(1, 6)
    );
    assert_eq!(
        Rational::new(-1, 2) - Rational::new(1, 3),
        Rational::new(-5, 6)
    );
}

#[test]
fn sub_with_int() {
    assert_eq!(Rational::new(3, 4) - 1, Rational::new(-1, 4));
    assert_eq!(2 - Rational::new(-1, 2), Rational::new(5, 2));
}

#[test]
fn sub_assign_with_self() {
    let mut r = Rational::new(3, 4);
    r -= Rational::new(1, 4);
    assert_eq!(r, Rational::new(1, 2));

    let mut r = Rational::new(1, 2);
    r -= Rational::new(1, 3);
    assert_eq!(r, Rational::new(1, 6));

    let mut r = Rational::new(-1, 2);
    r -= Rational::new(1, 3);
    assert_eq!(r, Rational::new(-5, 6));
}

#[test]
fn mul_with_self() {
    assert_eq!(
        Rational::new(1, 2) * Rational::new(3, 4),
        Rational::new(3, 8)
    );
    assert_eq!(
        Rational::new(3, 4) * Rational::new(5, 6),
        Rational::new(5, 8)
    );
    assert_eq!(
        Rational::new(0, 1) * Rational::new(1234, 9999),
        Rational::from_integer(0)
    );
    assert_eq!(
        Rational::new(-1, 2) * Rational::new(3, 4),
        Rational::new(-3, 8)
    );
    assert_eq!(
        Rational::new(-3, 4) * Rational::new(5, 6),
        Rational::new(-5, 8)
    );
}

#[test]
fn mul_with_int() {
    assert_eq!(Rational::new(3, 4) * 3, Rational::new(9, 4));
    assert_eq!(3 * Rational::new(-1, 2), Rational::new(-3, 2));
}

#[test]
fn mul_may_overflow() {
    assert_eq!(
        Rational::<i32>::new(7, 10_i32.pow(9)) * Rational::<i32>::new(10_i32.pow(5), 63),
        Rational::new(1, 9 * 10_i32.pow(4))
    );

    assert_eq!(
        Rational::<i32>::new(7, 10_i32.pow(9)) * Rational::<i32>::new(-10_i32.pow(5), 63),
        Rational::new(-1, 9 * 10_i32.pow(4))
    );
}

#[test]
fn mul_assign_with_self() {
    let mut r = Rational::new(1, 2);
    r *= Rational::new(3, 4);
    assert_eq!(r, Rational::new(3, 8));

    let mut r = Rational::new(3, 4);
    r *= Rational::new(5, 6);
    assert_eq!(r, Rational::new(5, 8));

    let mut r = Rational::new(0, 1);
    r *= Rational::new(1234, 9999);
    assert_eq!(r, Rational::from_integer(0));

    let mut r = Rational::new(-1, 2);
    r *= Rational::new(3, 4);
    assert_eq!(r, Rational::new(-3, 8));

    let mut r = Rational::new(-3, 4);
    r *= Rational::new(5, 6);
    assert_eq!(r, Rational::new(-5, 8));
}

#[test]
fn div_with_self() {
    assert_eq!(
        Rational::new(1, 2) / Rational::new(3, 4),
        Rational::new(2, 3)
    );
    assert_eq!(
        Rational::new(3, 4) / Rational::new(5, 6),
        Rational::new(9, 10)
    );
    assert_eq!(
        Rational::new(0, 1) / Rational::new(1234, 9999),
        Rational::from_integer(0)
    );
    assert_eq!(
        Rational::new(-1, 2) / Rational::new(3, 4),
        Rational::new(-2, 3)
    );
    assert_eq!(
        Rational::new(-3, 4) / Rational::new(5, 6),
        Rational::new(-9, 10)
    );
}

#[test]
fn div_with_int() {
    assert_eq!(Rational::new(3, 4) / 3, Rational::new(1, 4));
    assert_eq!(3 / Rational::new(-5, 2), Rational::new(-6, 5));
}

#[test]
fn div_assign_with_self() {
    let mut r = Rational::new(1, 2);
    r /= Rational::new(3, 4);
    assert_eq!(r, Rational::new(2, 3));

    let mut r = Rational::new(3, 4);
    r /= Rational::new(5, 6);
    assert_eq!(r, Rational::new(9, 10));

    let mut r = Rational::new(0, 1);
    r /= Rational::new(1234, 9999);
    assert_eq!(r, Rational::from_integer(0));

    let mut r = Rational::new(-1, 2);
    r /= Rational::new(3, 4);
    assert_eq!(r, Rational::new(-2, 3));

    let mut r = Rational::new(-3, 4);
    r /= Rational::new(5, 6);
    assert_eq!(r, Rational::new(-9, 10));
}


#[test]
fn rational_new_is_in_lowest_terms() {
    let r = Rational::new(6, -9);
    assert_eq!(r.to_integer(), 0);
    assert_eq!(r * 3, Rational::from_integer(-2));
    assert_eq!(Rational::new(10u8, 4u8) * 2u8, 5u8);
    assert_eq!(Rational::new(i32::MAX, i32::MAX), 1);
    assert_eq!(Rational::new(i32::MIN, i32::MIN), 1);
    assert_eq!(Rational::new(i32::MIN, 3).to_integer(), i32::MIN / 3);
    assert_eq!(Rational::from_integer(i32::MIN).to_integer(), i32::MIN);
}

#[test]
fn rational_floor_and_ceil_of_whole_numbers() {
    assert_eq!(5, Rational::new(10, 2).floor());
    assert_eq!(5, Rational::new(10, 2).ceil());
    assert_eq!(-5, Rational::new(-10, 2).floor());
    assert_eq!(-5, Rational::new(-10, 2).ceil());
    assert_eq!(0, Rational::new(0, 7).floor());
    assert_eq!(-1, Rational::new(-1, 7).floor());
    assert_eq!(1, Rational::new(1, 7).ceil());
}

#[test]
fn rational_cmp_matches_cross_multiplication() {
    let parts: [(i64, i64); 9] =
        [(0, 1), (1, 2), (-1, 2), (7, 3), (-7, 3), (22, 7), (355, 113), (-355, 113), (5, 1)];
    for a in parts.iter() {
        for b in parts.iter() {
            let expected = (a.0 * b.1).cmp(&(b.0 * a.1));
            assert_eq!(Rational::new(a.0, a.1).cmp(&Rational::new(b.0, b.1)), expected);
            assert_eq!(
                Rational::new(a.0, a.1).partial_cmp(&Rational::new(b.0, -b.1)),
                Some((a.0 * b.1).cmp(&(-b.0 * a.1)))
            );
        }
    }
}

#[test]
fn rational_assign_with_int() {
    let mut r = Rational::new(3, 4);
    r += 1;
    assert_eq!(r, Rational::new(7, 4));
    r -= 2;
    assert_eq!(r, Rational::new(-1, 4));
    r *= -8;
    assert_eq!(r, 2);
    r /= 6;
    assert_eq!(r, Rational::new(1, 3));
}

#[test]
fn rational_eq_with_int_on_either_side() {
    assert!(Rational::new(6, 3) == 2);
    assert!(2 == Rational::new(6, 3));
    assert!(Rational::new(7, 3) != 2);
    assert!(2 != Rational::new(7, 3));
    assert!(3 > Rational::new(7, 3));
    assert!(Rational::new(7, 3) > 2);
}

#[test]
fn rational_from_an_integer() {
    let r: Rational<i64> = Rational::from(-7);
    assert_eq!(r, Rational::new(-7, 1));
    assert_eq!(r.to_integer(), -7);
    let q: Rational<u8> = 200u8.into();
    assert_eq!(q, 200u8);
}

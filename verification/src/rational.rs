//! Fractions of two integers of one primitive type, kept in lowest terms with
//! a positive denominator.

use vstd::prelude::*;
use vstd::std_specs::cmp::{PartialEqSpecImpl, PartialOrdSpecImpl};
use vstd::std_specs::convert::FromSpecImpl;
use vstd::std_specs::ops::{AddSpecImpl, DivSpecImpl, MulSpecImpl, SubSpecImpl};
use std::cmp::Ordering;
use crate::integer::{
    euclid_fits, floor_div, floor_rem, gcd, gcd_spec, lemma_euclid_fits, lemma_euclid_fits_one, lemma_exact_division, lemma_floor_from_trunc,
    lemma_gcd_divides, lemma_gcd_magnitude, lemma_gcd_sign, lemma_trunc_div_rem, magnitude, trunc_div, trunc_rem, Int,
};

verus! {

/// Numerator and denominator of `n / d` as `Rational::new` leaves them.
pub open spec fn reduced(n: int, d: int) -> (int, int) {
    if n == 0 {
        (0, 1)
    } else if n == d {
        (1, 1)
    } else {
        let g = gcd_spec(n, d);
        let p = trunc_div(n, g);
        let q = trunc_div(d, g);
        if q < 0 {
            (-p, -q)
        } else {
            (p, q)
        }
    }
}

/// `reduced(n, d)` is a fraction of the same value as `n / d` with a positive
/// denominator, and neither part is larger in magnitude than before.
pub proof fn lemma_reduced(n: int, d: int)
    requires
        d != 0,
    ensures
        reduced(n, d).1 > 0,
        reduced(n, d).0 * d == n * reduced(n, d).1,
        magnitude(reduced(n, d).0) <= magnitude(n),
        reduced(n, d).1 <= magnitude(d),
{
    if n == 0 {
        assert(0 * d == n * 1) by (nonlinear_arith)
            requires
                n == 0,
        ;
    } else if n == d {
        assert(1 * d == n * 1);
    } else {
        let g = gcd_spec(n, d);
        lemma_gcd_divides(n, d);
        lemma_trunc_div_rem(n, g);
        lemma_trunc_div_rem(d, g);
        let p = trunc_div(n, g);
        let q = trunc_div(d, g);
        assert(q != 0 && p * d == n * q && (-p) * d == n * (-q)) by (nonlinear_arith)
            requires
                n == g * p,
                d == g * q,
                d != 0,
        ;
        assert(magnitude(-p) == magnitude(p) && magnitude(-q) == magnitude(q));
        if q < 0 {
            assert(reduced(n, d) == (-p, -q));
        } else {
            assert(reduced(n, d) == (p, q));
        }
    }
}

/// `reduced(n, d)` is in lowest terms: Euclid's algorithm on its parts yields
/// one or minus one.
pub proof fn lemma_reduced_is_lowest(n: int, d: int)
    requires
        d != 0,
    ensures
        magnitude(gcd_spec(reduced(n, d).0, reduced(n, d).1)) == 1,
{
    if n == 0 || n == d {
        lemma_euclid_fits_one(reduced(n, d).0, 0);
    } else {
        let g = gcd_spec(n, d);
        lemma_gcd_divides(n, d);
        let p = trunc_div(n, g);
        let q = trunc_div(d, g);
        let big_p = reduced(n, d).0;
        let big_q = reduced(n, d).1;
        lemma_reduced(n, d);
        let c = gcd_spec(big_p, big_q);
        lemma_gcd_divides(big_p, big_q);
        let kp = trunc_div(big_p, c);
        let kq = trunc_div(big_q, c);
        let sign: int = if q < 0 {
            -1
        } else {
            1
        };
        assert(p == sign * big_p && q == sign * big_q) by (nonlinear_arith)
            requires
                (sign == 1 && big_p == p && big_q == q) || (sign == -1 && big_p == -p && big_q == -q),
        ;
        let gc = g * c;
        assert(gc != 0 && n == gc * (sign * kp) && d == gc * (sign * kq)) by (nonlinear_arith)
            requires
                gc == g * c,
                g != 0,
                c != 0,
                n == g * p,
                d == g * q,
                p == sign * big_p,
                q == sign * big_q,
                big_p == c * kp,
                big_q == c * kq,
        ;
        lemma_exact_division(n, gc, sign * kp);
        lemma_exact_division(d, gc, sign * kq);
        crate::integer::lemma_gcd_is_greatest(n, d, gc);
        let m = trunc_div(g, gc);
        assert(magnitude(c) == 1) by (nonlinear_arith)
            requires
                g == gc * m,
                gc == g * c,
                g != 0,
        ;
    }
}

/// `Rational::new` can reduce `n / d` within a type whose least value is
/// `lowest`: `d` is not zero, and no division or negation on the way leaves
/// the type.
pub open spec fn new_fits(n: int, d: int, lowest: int) -> bool {
    &&& d != 0
    &&& (n != 0 && n != d) ==> {
        let g = gcd_spec(n, d);
        &&& euclid_fits(n, d, lowest)
        &&& !(n == lowest && g == -1)
        &&& !(d == lowest && g == -1)
        &&& trunc_div(d, g) < 0 ==> trunc_div(n, g) != lowest && trunc_div(d, g) != lowest
    }
}

/// `Rational::new` can reduce any fraction of an unsigned type, and any of a
/// signed type of which neither part is the least value.
pub proof fn lemma_new_fits(n: int, d: int, lowest: int)
    requires
        d != 0,
        lowest <= 0,
        lowest == 0 ==> n >= 0 && d >= 0,
        lowest != 0 ==> magnitude(n) < -lowest && magnitude(d) < -lowest,
    ensures
        new_fits(n, d, lowest),
{
    lemma_euclid_fits(n, d, lowest);
    lemma_gcd_magnitude(n, d);
    let g = gcd_spec(n, d);
    lemma_trunc_div_rem(n, g);
    lemma_trunc_div_rem(d, g);
    if lowest == 0 {
        lemma_gcd_sign(n, d);
        lemma_gcd_divides(n, d);
        let q = trunc_div(d, g);
        assert(q >= 0) by (nonlinear_arith)
            requires
                d == g * q,
                d >= 0,
                g > 0,
        ;
    }
}

/// `Rational::new` can reduce any fraction with the denominator one, to
/// itself.
pub proof fn lemma_new_fits_integer(n: int, lowest: int)
    ensures
        new_fits(n, 1, lowest),
        reduced(n, 1) == (n, 1int),
{
    lemma_euclid_fits_one(n, lowest);
    assert(1int == 1 * 1) by (nonlinear_arith);
    lemma_exact_division(1, 1, 1);
}

/// The quotient of `a` by `b`, rounded towards plus infinity.
pub open spec fn ceil_div(a: int, b: int) -> int {
    -floor_div(-a, b)
}

/// Below zero, rounding `a - b + 1` over `b` towards zero rounds `a` over `b`
/// down; from zero on, rounding towards zero rounds down.
proof fn lemma_floor_of_negative(a: int, b: int)
    requires
        b > 0,
    ensures
        a < 0 ==> trunc_div(a - b + 1, b) == floor_div(a, b),
        a >= 0 ==> trunc_div(a, b) == floor_div(a, b),
{
    if a < 0 {
        vstd::arithmetic::div_mod::lemma_fundamental_div_mod(a, b);
        vstd::arithmetic::div_mod::lemma_mod_bound(a, b);
        let q = a / b;
        let r = a % b;
        let x = a - b + 1;
        assert(-x == (-q) * b + (b - r - 1)) by (nonlinear_arith)
            requires
                a == b * q + r,
                x == a - b + 1,
        ;
        vstd::arithmetic::div_mod::lemma_fundamental_div_mod_converse(-x, b, -q, b - r - 1);
    }
}

/// From zero on, rounding `a + b - 1` over `b` towards zero rounds `a` over
/// `b` up; below zero, rounding towards zero rounds up.
proof fn lemma_ceil_of_nonnegative(a: int, b: int)
    requires
        b > 0,
    ensures
        a >= 0 ==> trunc_div(a + b - 1, b) == ceil_div(a, b),
        a < 0 ==> trunc_div(a, b) == ceil_div(a, b),
{
    vstd::arithmetic::div_mod::lemma_fundamental_div_mod(-a, b);
    vstd::arithmetic::div_mod::lemma_mod_bound(-a, b);
    let q = (-a) / b;
    let r = (-a) % b;
    if a >= 0 {
        let x = a + b - 1;
        assert(x == (-q) * b + (b - r - 1)) by (nonlinear_arith)
            requires
                -a == b * q + r,
                x == a + b - 1,
        ;
        vstd::arithmetic::div_mod::lemma_fundamental_div_mod_converse(x, b, -q, b - r - 1);
    }
}

/// `x` is a value of a type whose range is `[lowest, highest]`.
pub open spec fn in_range(x: int, lowest: int, highest: int) -> bool {
    lowest <= x <= highest
}

/// Numerator and denominator of the sum of `n1 / d1` and `n2 / d2`, or of
/// their difference where `sign` is minus one, over the least common
/// denominator, before they are reduced.
pub open spec fn sum_parts(n1: int, d1: int, n2: int, d2: int, sign: int) -> (int, int) {
    let g = gcd_spec(d1, d2);
    (n1 * trunc_div(d2, g) + sign * (n2 * trunc_div(d1, g)), trunc_div(d1 * d2, g))
}

/// The sum, or the difference, can be computed within the type.
pub open spec fn sum_fits(n1: int, d1: int, n2: int, d2: int, sign: int, lowest: int, highest: int) -> bool {
    let g = gcd_spec(d1, d2);
    &&& in_range(d1 * d2, lowest, highest)
    &&& in_range(n1 * trunc_div(d2, g), lowest, highest)
    &&& in_range(n2 * trunc_div(d1, g), lowest, highest)
    &&& in_range(sum_parts(n1, d1, n2, d2, sign).0, lowest, highest)
    &&& new_fits(sum_parts(n1, d1, n2, d2, sign).0, sum_parts(n1, d1, n2, d2, sign).1, lowest)
}

/// Numerator and denominator of the product of `n1 / d1` and `n2 / d2` after
/// the common divisors across the two have been taken out, before they are
/// reduced.
pub open spec fn product_parts(n1: int, d1: int, n2: int, d2: int) -> (int, int) {
    let g1 = gcd_spec(n1, d2);
    let g2 = gcd_spec(d1, n2);
    (trunc_div(n1, g1) * trunc_div(n2, g2), trunc_div(d1, g2) * trunc_div(d2, g1))
}

/// The product can be computed within the type.
pub open spec fn product_fits(n1: int, d1: int, n2: int, d2: int, lowest: int, highest: int) -> bool {
    let g1 = gcd_spec(n1, d2);
    let g2 = gcd_spec(d1, n2);
    &&& euclid_fits(n1, d2, lowest)
    &&& euclid_fits(d1, n2, lowest)
    &&& !(n1 == lowest && g1 == -1)
    &&& !(n2 == lowest && g2 == -1)
    &&& in_range(product_parts(n1, d1, n2, d2).0, lowest, highest)
    &&& in_range(product_parts(n1, d1, n2, d2).1, lowest, highest)
    &&& new_fits(product_parts(n1, d1, n2, d2).0, product_parts(n1, d1, n2, d2).1, lowest)
}

/// The quotient can be computed within the type: the divisor is not zero,
/// its reciprocal can be reduced, and the product with it can be computed.
pub open spec fn quotient_fits(n1: int, d1: int, n2: int, d2: int, lowest: int, highest: int) -> bool {
    &&& new_fits(d2, n2, lowest)
    &&& product_fits(n1, d1, reduced(d2, n2).0, reduced(d2, n2).1, lowest, highest)
}

/// Numerator and denominator of the sum, or the difference, as the
/// operators leave them.
pub open spec fn reduced_sum(n1: int, d1: int, n2: int, d2: int, sign: int) -> (int, int) {
    reduced(sum_parts(n1, d1, n2, d2, sign).0, sum_parts(n1, d1, n2, d2, sign).1)
}

/// Numerator and denominator of the product as the operators leave them.
pub open spec fn reduced_product(n1: int, d1: int, n2: int, d2: int) -> (int, int) {
    reduced(product_parts(n1, d1, n2, d2).0, product_parts(n1, d1, n2, d2).1)
}

/// Numerator and denominator of the quotient as the operators leave them:
/// those of the product with the reduced reciprocal.
pub open spec fn reduced_quotient(n1: int, d1: int, n2: int, d2: int) -> (int, int) {
    reduced_product(n1, d1, reduced(d2, n2).0, reduced(d2, n2).1)
}

/// The reduced sum has the value of the sum, and the reduced difference
/// that of the difference.
pub proof fn lemma_sum_value(n1: int, d1: int, n2: int, d2: int, sign: int)
    requires
        d1 > 0,
        d2 > 0,
    ensures
        reduced_sum(n1, d1, n2, d2, sign).1 > 0,
        reduced_sum(n1, d1, n2, d2, sign).0 * (d1 * d2) == (n1 * d2 + sign * (n2 * d1)) * reduced_sum(
            n1,
            d1,
            n2,
            d2,
            sign,
        ).1,
{
    let g = gcd_spec(d1, d2);
    lemma_gcd_divides(d1, d2);
    let a = trunc_div(d1, g);
    let b = trunc_div(d2, g);
    assert(d1 * d2 == g * (a * d2)) by (nonlinear_arith)
        requires
            d1 == g * a,
    ;
    lemma_exact_division(d1 * d2, g, a * d2);
    let top = n1 * b + sign * (n2 * a);
    let bottom = a * d2;
    assert(bottom != 0) by (nonlinear_arith)
        requires
            bottom == a * d2,
            d1 == g * a,
            d1 > 0,
            d2 > 0,
    ;
    assert(sum_parts(n1, d1, n2, d2, sign) == (top, bottom));
    lemma_reduced(top, bottom);
    let p = reduced(top, bottom).0;
    let q = reduced(top, bottom).1;
    let first = n1 * b;
    let second = n2 * a;
    assert(n1 * d2 == g * first) by (nonlinear_arith)
        requires
            d2 == g * b,
            first == n1 * b,
    ;
    assert(n2 * d1 == g * second) by (nonlinear_arith)
        requires
            d1 == g * a,
            second == n2 * a,
    ;
    assert(sign * (g * second) == g * (sign * second)) by (nonlinear_arith);
    assert(g * (first + sign * second) == g * first + g * (sign * second)) by (nonlinear_arith);
    assert(n1 * d2 + sign * (n2 * d1) == g * top);
    assert(d1 * d2 == g * bottom);
    lemma_scaled_cross_product(p, bottom, top, q, g);
}

/// The reduced product has the value of the product.
pub proof fn lemma_product_value(n1: int, d1: int, n2: int, d2: int)
    requires
        d1 > 0,
        d2 > 0,
    ensures
        reduced_product(n1, d1, n2, d2).1 > 0,
        reduced_product(n1, d1, n2, d2).0 * (d1 * d2) == (n1 * n2) * reduced_product(n1, d1, n2, d2).1,
{
    let g1 = gcd_spec(n1, d2);
    let g2 = gcd_spec(d1, n2);
    lemma_gcd_divides(n1, d2);
    lemma_gcd_divides(d1, n2);
    let x1 = trunc_div(n1, g1);
    let y2 = trunc_div(d2, g1);
    let y1 = trunc_div(d1, g2);
    let x2 = trunc_div(n2, g2);
    let top = x1 * x2;
    let bottom = y1 * y2;
    assert(bottom != 0) by (nonlinear_arith)
        requires
            bottom == y1 * y2,
            d1 == g2 * y1,
            d2 == g1 * y2,
            d1 > 0,
            d2 > 0,
    ;
    lemma_reduced(top, bottom);
    let p = reduced(top, bottom).0;
    let q = reduced(top, bottom).1;
    let g = g2 * g1;
    lemma_product_of_four(g2, y1, y2, g1);
    lemma_product_of_four(g1, x1, x2, g2);
    assert(g1 * g2 == g2 * g1) by (nonlinear_arith);
    assert(d1 * d2 == g * bottom);
    assert(n1 * n2 == g * top);
    lemma_scaled_cross_product(p, bottom, top, q, g);
}

/// The reduced quotient has the value of the quotient.
pub proof fn lemma_quotient_value(n1: int, d1: int, n2: int, d2: int)
    requires
        d1 > 0,
        d2 > 0,
        n2 != 0,
    ensures
        reduced_quotient(n1, d1, n2, d2).1 > 0,
        reduced_quotient(n1, d1, n2, d2).0 * (d1 * n2) == (n1 * d2) * reduced_quotient(n1, d1, n2, d2).1,
{
    lemma_reduced(d2, n2);
    let u = reduced(d2, n2).0;
    let v = reduced(d2, n2).1;
    lemma_product_value(n1, d1, u, v);
    let p = reduced_product(n1, d1, u, v).0;
    let q = reduced_product(n1, d1, u, v).1;
    // p * (d1 * v) == (n1 * u) * q and u * n2 == d2 * v
    let left = p * (d1 * n2);
    let right = (n1 * d2) * q;
    assert(v * left == (p * (d1 * v)) * n2) by (nonlinear_arith)
        requires
            left == p * (d1 * n2),
    ;
    assert(((n1 * u) * q) * n2 == (n1 * q) * (u * n2)) by (nonlinear_arith);
    assert((n1 * q) * (d2 * v) == v * right) by (nonlinear_arith)
        requires
            right == (n1 * d2) * q,
    ;
    assert(left == right) by (nonlinear_arith)
        requires
            v * left == v * right,
            v > 0,
    ;
}

/// Where `p * b == t * q`, the same holds with `b` and `t` both scaled by
/// `g`.
proof fn lemma_scaled_cross_product(p: int, b: int, t: int, q: int, g: int)
    requires
        p * b == t * q,
    ensures
        p * (g * b) == (g * t) * q,
{
    assert(p * (g * b) == g * (p * b)) by (nonlinear_arith);
    assert((g * t) * q == g * (t * q)) by (nonlinear_arith);
}

/// How `a` stands to `b`.
pub open spec fn order_of(a: int, b: int) -> Ordering {
    if a < b {
        Ordering::Less
    } else if a == b {
        Ordering::Equal
    } else {
        Ordering::Greater
    }
}

/// The opposite order.
pub open spec fn opposite(o: Ordering) -> Ordering {
    match o {
        Ordering::Less => Ordering::Greater,
        Ordering::Equal => Ordering::Equal,
        Ordering::Greater => Ordering::Less,
    }
}

fn compare<T: Int>(a: T, b: T) -> (r: Ordering)
    ensures
        r == order_of(a.value(), b.value()),
{
    if a.less(b) {
        Ordering::Less
    } else if a.same(b) {
        Ordering::Equal
    } else {
        Ordering::Greater
    }
}

fn reversed(o: Ordering) -> (r: Ordering)
    ensures
        r == opposite(o),
{
    match o {
        Ordering::Less => Ordering::Greater,
        Ordering::Equal => Ordering::Equal,
        Ordering::Greater => Ordering::Less,
    }
}

/// Fractions with one denominator stand as their numerators do.
proof fn lemma_order_same_denominator(a: int, c: int, b: int)
    requires
        b > 0,
    ensures
        order_of(a * b, c * b) == order_of(a, c),
{
    assert((a < c ==> a * b < c * b) && (a == c ==> a * b == c * b) && (a > c ==> a * b > c * b))
        by (nonlinear_arith)
        requires
            b > 0,
    ;
}

/// Fractions with one numerator stand as their denominators do, or
/// opposite, by the numerator's sign.
proof fn lemma_order_same_numerator(a: int, b: int, d: int)
    requires
        b > 0,
        d > 0,
    ensures
        order_of(a * d, a * b) == if a == 0 {
            Ordering::Equal
        } else if a > 0 {
            opposite(order_of(b, d))
        } else {
            order_of(b, d)
        },
{
    assert((a == 0 ==> a * d == a * b) && (a > 0 && b < d ==> a * d > a * b) && (a > 0 && b > d ==> a
        * d < a * b) && (a < 0 && b < d ==> a * d < a * b) && (a < 0 && b > d ==> a * d > a * b) && (b
        == d ==> a * d == a * b)) by (nonlinear_arith);
}

/// Fractions stand as their whole parts do where these differ, and else as
/// what is left over them.
proof fn lemma_order_by_parts(a: int, b: int, c: int, d: int)
    requires
        b > 0,
        d > 0,
    ensures
        floor_div(a, b) > floor_div(c, d) ==> order_of(a * d, c * b) == Ordering::Greater,
        floor_div(a, b) < floor_div(c, d) ==> order_of(a * d, c * b) == Ordering::Less,
        floor_div(a, b) == floor_div(c, d) ==> order_of(a * d, c * b) == order_of(
            floor_rem(a, b) * d,
            floor_rem(c, d) * b,
        ),
{
    lemma_floor_from_trunc(a, b);
    lemma_floor_from_trunc(c, d);
    let qa = floor_div(a, b);
    let ra = floor_rem(a, b);
    let qc = floor_div(c, d);
    let rc = floor_rem(c, d);
    assert(a * d - c * b == (qa - qc) * (b * d) + (ra * d - rc * b)) by (nonlinear_arith)
        requires
            ra == a - b * qa,
            rc == c - d * qc,
    ;
    assert(b * d > 0 && -(b * d) < ra * d - rc * b < b * d) by (nonlinear_arith)
        requires
            b > 0,
            d > 0,
            0 <= ra < b,
            0 <= rc < d,
    ;
    let m = b * d;
    let k = qa - qc;
    assert((k >= 1 ==> k * m >= m) && (k <= -1 ==> k * m <= -m) && (k == 0 ==> k * m == 0))
        by (nonlinear_arith)
        requires
            m > 0,
    ;
}

/// `(a * b) * (c * d) == (a * d) * (b * c)`.
proof fn lemma_product_of_four(a: int, b: int, c: int, d: int)
    ensures
        (a * b) * (c * d) == (a * d) * (b * c),
        (a * b) * (c * d) == (a * d) * (c * b),
        (a * b) * (d * c) == (a * d) * (b * c),
        (a * b) * (d * c) == (a * d) * (c * b),
{
    let ab = a * b;
    let cd = c * d;
    let ad = a * d;
    let bc = b * c;
    assert(c * d == d * c && b * c == c * b) by (nonlinear_arith);
    assert(ab * cd == a * (b * cd)) by (nonlinear_arith)
        requires
            ab == a * b,
    ;
    assert(b * cd == d * bc) by (nonlinear_arith)
        requires
            cd == c * d,
            bc == b * c,
    ;
    assert(a * (d * bc) == ad * bc) by (nonlinear_arith)
        requires
            ad == a * d,
    ;
}

/// Two fractions between zero and one stand opposite to their reciprocals.
proof fn lemma_order_of_reciprocals(ra: int, b: int, rc: int, d: int, p1: int, q1: int, p2: int, q2: int)
    requires
        ra > 0,
        rc > 0,
        q1 > 0,
        q2 > 0,
        p1 * ra == b * q1,
        p2 * rc == d * q2,
    ensures
        order_of(ra * d, rc * b) == opposite(order_of(p1 * q2, p2 * q1)),
{
    let x = rc * b - ra * d;
    let y = p1 * q2 - p2 * q1;
    let m = q1 * q2;
    let n = ra * rc;
    let t1 = b * q1;
    let t2 = d * q2;
    let u1 = p1 * ra;
    let u2 = p2 * rc;
    let e = rc * q2;
    let f = ra * q1;
    lemma_product_of_four(rc, b, q1, q2);
    lemma_product_of_four(ra, d, q2, q1);
    lemma_product_of_four(rc, ra, p1, q2);
    lemma_product_of_four(ra, rc, p2, q1);
    assert(q1 * q2 == q2 * q1 && ra * rc == rc * ra && p1 * ra == ra * p1 && p2 * rc == rc * p2
        && b * q1 == q1 * b && d * q2 == q2 * d) by (nonlinear_arith);
    let aa = rc * b;
    let bb = ra * d;
    let cc = p1 * q2;
    let dd = p2 * q1;
    assert((aa - bb) * m == aa * m - bb * m) by (nonlinear_arith);
    assert(n * (cc - dd) == n * cc - n * dd) by (nonlinear_arith);
    assert(aa * m == e * t1);
    assert(bb * m == f * t2);
    assert(n * cc == e * u1);
    assert(n * dd == f * u2);
    assert(x * m == n * y);
    assert(m > 0 && n > 0) by (nonlinear_arith)
        requires
            m == q1 * q2,
            n == ra * rc,
            ra > 0,
            rc > 0,
            q1 > 0,
            q2 > 0,
    ;
    assert((x > 0 <==> y > 0) && (x < 0 <==> y < 0)) by (nonlinear_arith)
        requires
            x * m == n * y,
            m > 0,
            n > 0,
    ;
}

/// A fraction with a positive denominator.
#[derive(Copy, Debug)]
pub struct Rational<T: Int> {
    /// Numerator
    numerator: T,
    /// Denomitor
    denomitor: T,
}

impl<T: Int> Clone for Rational<T> {
    fn clone(&self) -> (r: Self)
        ensures
            r == *self,
    {
        *self
    }
}

impl<T: Int> Rational<T> {
    #[verifier::type_invariant]
    spec fn well_formed(self) -> bool {
        self.denomitor.value() > 0
    }

    /// The numerator.
    pub closed spec fn numer(self) -> int {
        self.numerator.value()
    }

    /// The denominator.
    pub closed spec fn denom(self) -> int {
        self.denomitor.value()
    }

    /// The fraction `numerator / denomitor` in lowest terms, with a positive
    /// denominator.
    pub fn new(numerator: T, denomitor: T) -> (r: Rational<T>)
        requires
            new_fits(numerator.value(), denomitor.value(), T::lowest()),
        ensures
            (r.numer(), r.denom()) == reduced(numerator.value(), denomitor.value()),
    {
        let (n, d) = Self::reduce(numerator, denomitor);
        proof {
            lemma_reduced(numerator.value(), denomitor.value());
        }
        Rational { numerator: n, denomitor: d }
    }

    /// The integer `t` as a fraction.
    pub fn from_integer(t: T) -> (r: Rational<T>)
        ensures
            r.numer() == t.value(),
            r.denom() == 1,
    {
        proof {
            lemma_new_fits_integer(t.value(), T::lowest());
        }
        Rational::new(t, T::one())
    }

    /// The fraction rounded towards zero.
    pub fn to_integer(&self) -> (r: T)
        ensures
            r.value() == trunc_div(self.numer(), self.denom()),
    {
        self.truncate().numerator
    }

    /// Round value towards zero.
    pub fn truncate(&self) -> (r: Rational<T>)
        ensures
            r.numer() == trunc_div(self.numer(), self.denom()),
            r.denom() == 1,
    {
        proof {
            use_type_invariant(self);
        }
        Rational::from_integer(self.numerator.quot(self.denomitor))
    }

    /// Whether the fraction is less than zero.
    fn is_negative(&self) -> (r: bool)
        ensures
            r == (self.numer() < 0),
    {
        proof {
            use_type_invariant(self);
            lemma_order_same_denominator(self.numer(), 0, self.denom());
            assert(0 * self.denom() == 0) by (nonlinear_arith);
            assert(self.numer() * 1 == self.numer()) by (nonlinear_arith);
        }
        match self.cmp(&Rational::from_integer(T::zero())) {
            Ordering::Less => true,
            _ => false,
        }
    }

    /// Round value towards minus infinity.
    pub fn floor(&self) -> (r: Rational<T>)
        requires
            self.numer() < 0 ==> self.numer() - self.denom() >= T::lowest(),
        ensures
            r.numer() == floor_div(self.numer(), self.denom()),
            r.denom() == 1,
    {
        proof {
            use_type_invariant(self);
            self.numerator.lemma_range();
            self.denomitor.lemma_range();
            lemma_floor_of_negative(self.numer(), self.denom());
        }
        if self.is_negative() {
            Rational::from_integer(
                self.numerator.minus(self.denomitor).plus(T::one()).quot(self.denomitor),
            )
        } else {
            Rational::from_integer(self.numerator.quot(self.denomitor))
        }
    }

    /// Round value towards plus infinity.
    pub fn ceil(&self) -> (r: Rational<T>)
        requires
            self.numer() >= 0 ==> self.numer() + self.denom() <= T::highest(),
        ensures
            r.numer() == ceil_div(self.numer(), self.denom()),
            r.denom() == 1,
    {
        proof {
            use_type_invariant(self);
            self.numerator.lemma_range();
            self.denomitor.lemma_range();
            lemma_ceil_of_nonnegative(self.numer(), self.denom());
        }
        if self.is_negative() {
            Rational::from_integer(self.numerator.quot(self.denomitor))
        } else {
            Rational::from_integer(
                self.numerator.plus(self.denomitor).minus(T::one()).quot(self.denomitor),
            )
        }
    }

    /// How the fraction stands to `other`.
    pub fn cmp(&self, other: &Self) -> (r: Ordering)
        ensures
            r == order_of(self.numer() * other.denom(), other.numer() * self.denom()),
        decreases self.denom(),
    {
        proof {
            use_type_invariant(self);
            use_type_invariant(other);
            self.numerator.lemma_range();
            self.denomitor.lemma_range();
            other.numerator.lemma_range();
            other.denomitor.lemma_range();
            lemma_order_same_denominator(self.numer(), other.numer(), self.denom());
            lemma_order_same_numerator(self.numer(), self.denom(), other.denom());
            lemma_order_by_parts(self.numer(), self.denom(), other.numer(), other.denom());
            lemma_floor_from_trunc(self.numer(), self.denom());
            lemma_floor_from_trunc(other.numer(), other.denom());
        }
        if self.denomitor.same(other.denomitor) {
            return if T::zero().less(self.denomitor) {
                compare(self.numerator, other.numerator)
            } else {
                reversed(compare(self.numerator, other.numerator))
            };
        }
        if self.numerator.same(other.numerator) {
            return match compare(self.numerator, T::zero()) {
                Ordering::Equal => Ordering::Equal,
                Ordering::Greater => reversed(compare(self.denomitor, other.denomitor)),
                Ordering::Less => compare(self.denomitor, other.denomitor),
            };
        }
        let self_int = self.numerator.div_floor(&self.denomitor);
        let self_rem = self.numerator.mod_floor(&self.denomitor);
        let other_int = other.numerator.div_floor(&other.denomitor);
        let other_rem = other.numerator.mod_floor(&other.denomitor);
        match compare(self_int, other_int) {
            Ordering::Greater => Ordering::Greater,
            Ordering::Less => Ordering::Less,
            Ordering::Equal => match (self_rem.is_zero(), other_rem.is_zero()) {
                (true, true) => {
                    assert(0 * other.denom() == 0 && 0 * self.denom() == 0) by (nonlinear_arith);
                    Ordering::Equal
                },
                (true, false) => {
                    assert(0 * other.denom() == 0 && other_rem.value() * self.denom() > 0)
                        by (nonlinear_arith)
                        requires
                            other_rem.value() > 0,
                            self.denom() > 0,
                    ;
                    Ordering::Less
                },
                (false, true) => {
                    assert(0 * self.denom() == 0 && self_rem.value() * other.denom() > 0)
                        by (nonlinear_arith)
                        requires
                            self_rem.value() > 0,
                            other.denom() > 0,
                    ;
                    Ordering::Greater
                },
                (false, false) => {
                    proof {
                        lemma_new_fits(self.denom(), self_rem.value(), T::lowest());
                        lemma_new_fits(other.denom(), other_rem.value(), T::lowest());
                        lemma_reduced(self.denom(), self_rem.value());
                        lemma_reduced(other.denom(), other_rem.value());
                    }
                    let self_new = Rational::new(self.denomitor, self_rem);
                    let other_new = Rational::new(other.denomitor, other_rem);
                    proof {
                        lemma_order_of_reciprocals(
                            self_rem.value(),
                            self.denom(),
                            other_rem.value(),
                            other.denom(),
                            self_new.numer(),
                            self_new.denom(),
                            other_new.numer(),
                            other_new.denom(),
                        );
                    }
                    reversed(self_new.cmp(&other_new))
                },
            },
        }
    }

    /// The fraction with the numerator `p.0` and the denominator `p.1`.
    pub closed spec fn with_parts(p: (int, int)) -> Rational<T> {
        choose|r: Rational<T>| r.numerator.value() == p.0 && r.denomitor.value() == p.1
    }

    /// A fraction is the one with its parts.
    pub proof fn lemma_with_parts(self)
        ensures
            Self::with_parts((self.numer(), self.denom())) == self,
    {
        let other = Self::with_parts((self.numer(), self.denom()));
        self.numerator.lemma_value_is_injective(other.numerator);
        self.denomitor.lemma_value_is_injective(other.denomitor);
    }

    /// The sum.
    pub fn plus(self, rhs: Self) -> (r: Self)
        requires
            sum_fits(self.numer(), self.denom(), rhs.numer(), rhs.denom(), 1, T::lowest(), T::highest()),
        ensures
            (r.numer(), r.denom()) == reduced_sum(
                self.numer(),
                self.denom(),
                rhs.numer(),
                rhs.denom(),
                1,
            ),
    {
        proof {
            use_type_invariant(self);
            use_type_invariant(rhs);
            self.lemma_denominators(rhs);
            assert(1 * (rhs.numer() * trunc_div(self.denom(), gcd_spec(self.denom(), rhs.denom())))
                == rhs.numer() * trunc_div(self.denom(), gcd_spec(self.denom(), rhs.denom())))
                by (nonlinear_arith);
        }
        let denom_gcd = gcd(self.denomitor, rhs.denomitor);
        let denom_lcm = self.denomitor.times(rhs.denomitor).quot(denom_gcd);
        let self_mul = rhs.denomitor.quot(denom_gcd);
        let rhs_mul = self.denomitor.quot(denom_gcd);
        let numer = self.numerator.times(self_mul).plus(rhs.numerator.times(rhs_mul));
        Rational::new(numer, denom_lcm)
    }

    /// The difference.
    pub fn minus(self, rhs: Self) -> (r: Self)
        requires
            sum_fits(self.numer(), self.denom(), rhs.numer(), rhs.denom(), -1, T::lowest(), T::highest()),
        ensures
            (r.numer(), r.denom()) == reduced_sum(
                self.numer(),
                self.denom(),
                rhs.numer(),
                rhs.denom(),
                -1,
            ),
    {
        proof {
            use_type_invariant(self);
            use_type_invariant(rhs);
            self.lemma_denominators(rhs);
            assert((-1) * (rhs.numer() * trunc_div(self.denom(), gcd_spec(self.denom(), rhs.denom())))
                == -(rhs.numer() * trunc_div(self.denom(), gcd_spec(self.denom(), rhs.denom()))))
                by (nonlinear_arith);
        }
        let denom_gcd = gcd(self.denomitor, rhs.denomitor);
        let denom_lcm = self.denomitor.times(rhs.denomitor).quot(denom_gcd);
        let self_mul = rhs.denomitor.quot(denom_gcd);
        let rhs_mul = self.denomitor.quot(denom_gcd);
        let numer = self.numerator.times(self_mul).minus(rhs.numerator.times(rhs_mul));
        Rational::new(numer, denom_lcm)
    }

    /// Euclid's algorithm runs on two denominators within the type, and
    /// yields a positive number.
    proof fn lemma_denominators(self, rhs: Self)
        requires
            self.denom() > 0,
            rhs.denom() > 0,
        ensures
            euclid_fits(self.denom(), rhs.denom(), T::lowest()),
            gcd_spec(self.denom(), rhs.denom()) > 0,
    {
        self.denomitor.lemma_range();
        rhs.denomitor.lemma_range();
        lemma_euclid_fits(self.denom(), rhs.denom(), T::lowest());
        lemma_gcd_sign(self.denom(), rhs.denom());
        lemma_gcd_magnitude(self.denom(), rhs.denom());
    }

    /// The product.
    pub fn times(self, rhs: Self) -> (r: Self)
        requires
            product_fits(self.numer(), self.denom(), rhs.numer(), rhs.denom(), T::lowest(), T::highest()),
        ensures
            (r.numer(), r.denom()) == reduced_product(
                self.numer(),
                self.denom(),
                rhs.numer(),
                rhs.denom(),
            ),
    {
        proof {
            use_type_invariant(self);
            use_type_invariant(rhs);
            lemma_gcd_magnitude(self.numer(), rhs.denom());
            lemma_gcd_magnitude(self.denom(), rhs.numer());
            self.denomitor.lemma_range();
        }
        let gcd1 = gcd(self.numerator, rhs.denomitor);
        let gcd2 = gcd(self.denomitor, rhs.numerator);
        let num1 = self.numerator.quot(gcd1);
        let den1 = self.denomitor.quot(gcd2);
        let num2 = rhs.numerator.quot(gcd2);
        let den2 = rhs.denomitor.quot(gcd1);
        Self::new(num1.times(num2), den1.times(den2))
    }

    /// The quotient.
    pub fn over(self, rhs: Self) -> (r: Self)
        requires
            quotient_fits(self.numer(), self.denom(), rhs.numer(), rhs.denom(), T::lowest(), T::highest()),
        ensures
            (r.numer(), r.denom()) == reduced_quotient(
                self.numer(),
                self.denom(),
                rhs.numer(),
                rhs.denom(),
            ),
    {
        let rhs_inv = Self::new(rhs.denomitor, rhs.numerator);
        self.times(rhs_inv)
    }

    /// Puts a fraction into lowest terms, with denomitor > 0.
    fn reduce(numerator: T, denomitor: T) -> (r: (T, T))
        requires
            new_fits(numerator.value(), denomitor.value(), T::lowest()),
        ensures
            (r.0.value(), r.1.value()) == reduced(numerator.value(), denomitor.value()),
    {
        if numerator.is_zero() {
            return (numerator, T::one());
        }
        if numerator.same(denomitor) {
            return (T::one(), T::one());
        }
        let g = gcd(numerator, denomitor);
        proof {
            lemma_gcd_magnitude(numerator.value(), denomitor.value());
            numerator.lemma_range();
            denomitor.lemma_range();
            g.lemma_range();
            lemma_trunc_div_rem(numerator.value(), g.value());
            lemma_trunc_div_rem(denomitor.value(), g.value());
        }
        let n = numerator.quot(g);
        let d = denomitor.quot(g);
        proof {
            n.lemma_range();
            d.lemma_range();
        }
        // keep denomitor positive
        if d.less(T::zero()) {
            (T::zero().minus(n), T::zero().minus(d))
        } else {
            (n, d)
        }
    }
}

impl<T: Int> FromSpecImpl<T> for Rational<T> {
    open spec fn obeys_from_spec() -> bool {
        true
    }

    open spec fn from_spec(x: T) -> Rational<T> {
        Rational::with_parts((x.value(), 1))
    }
}

impl<T: Int> From<T> for Rational<T> {
    fn from(x: T) -> (r: Self) {
        let r = Rational::from_integer(x);
        proof {
            r.lemma_with_parts();
        }
        r
    }
}

impl<T: Int> PartialEqSpecImpl for Rational<T> {
    open spec fn obeys_eq_spec() -> bool {
        true
    }

    open spec fn eq_spec(&self, other: &Rational<T>) -> bool {
        self.numer() * other.denom() == other.numer() * self.denom()
    }
}

impl<T: Int> PartialEq for Rational<T> {
    fn eq(&self, other: &Self) -> (r: bool) {
        match self.cmp(other) {
            Ordering::Equal => true,
            _ => false,
        }
    }
}

impl<T: Int> Eq for Rational<T> {

}

impl<T: Int> PartialEqSpecImpl<T> for Rational<T> {
    open spec fn obeys_eq_spec() -> bool {
        true
    }

    open spec fn eq_spec(&self, other: &T) -> bool {
        self.numer() == other.value() * self.denom()
    }
}

impl<T: Int> PartialEq<T> for Rational<T> {
    fn eq(&self, other: &T) -> (r: bool) {
        let other = Self::from_integer(*other);
        proof {
            assert(self.numer() * 1 == self.numer()) by (nonlinear_arith);
        }
        match self.cmp(&other) {
            Ordering::Equal => true,
            _ => false,
        }
    }
}

impl<T: Int> PartialOrdSpecImpl for Rational<T> {
    open spec fn obeys_partial_cmp_spec() -> bool {
        true
    }

    open spec fn partial_cmp_spec(&self, other: &Rational<T>) -> Option<Ordering> {
        Some(order_of(self.numer() * other.denom(), other.numer() * self.denom()))
    }
}

impl<T: Int> PartialOrd for Rational<T> {
    fn partial_cmp(&self, other: &Self) -> (r: Option<Ordering>) {
        Some(self.cmp(other))
    }
}

impl<T: Int> PartialOrdSpecImpl<T> for Rational<T> {
    open spec fn obeys_partial_cmp_spec() -> bool {
        true
    }

    open spec fn partial_cmp_spec(&self, other: &T) -> Option<Ordering> {
        Some(order_of(self.numer(), other.value() * self.denom()))
    }
}

impl<T: Int> PartialOrd<T> for Rational<T> {
    fn partial_cmp(&self, other: &T) -> (r: Option<Ordering>) {
        let other = Self::from_integer(*other);
        proof {
            assert(self.numer() * 1 == self.numer()) by (nonlinear_arith);
        }
        Some(self.cmp(&other))
    }
}


impl<T: Int> AddSpecImpl for Rational<T> {
    open spec fn obeys_add_spec() -> bool {
        true
    }

    open spec fn add_req(self, rhs: Rational<T>) -> bool {
        sum_fits(self.numer(), self.denom(), rhs.numer(), rhs.denom(), 1, T::lowest(), T::highest())
    }

    open spec fn add_spec(self, rhs: Rational<T>) -> Rational<T> {
        Rational::with_parts(reduced_sum(self.numer(), self.denom(), rhs.numer(), rhs.denom(), 1))
    }
}

impl<T: Int> std::ops::Add for Rational<T> {
    type Output = Self;

    fn add(self, rhs: Self) -> Self::Output {
        let r = self.plus(rhs);
        proof {
            r.lemma_with_parts();
        }
        r
    }
}

impl<T: Int> AddSpecImpl<T> for Rational<T> {
    open spec fn obeys_add_spec() -> bool {
        true
    }

    open spec fn add_req(self, rhs: T) -> bool {
        sum_fits(self.numer(), self.denom(), rhs.value(), 1, 1, T::lowest(), T::highest())
    }

    open spec fn add_spec(self, rhs: T) -> Rational<T> {
        Rational::with_parts(reduced_sum(self.numer(), self.denom(), rhs.value(), 1, 1))
    }
}

impl<T: Int> std::ops::Add<T> for Rational<T> {
    type Output = Self;

    fn add(self, rhs: T) -> Self::Output {
        let rhs = Self::from_integer(rhs);
        let r = self.plus(rhs);
        proof {
            r.lemma_with_parts();
        }
        r
    }
}

impl<T: Int> std::ops::AddAssign for Rational<T> {
    fn add_assign(&mut self, rhs: Self)
        requires
            sum_fits(old(self).numer(), old(self).denom(), rhs.numer(), rhs.denom(), 1, T::lowest(), T::highest()),
        ensures
            (final(self).numer(), final(self).denom()) == reduced_sum(old(self).numer(), old(self).denom(), rhs.numer(), rhs.denom(), 1),
    {
        let add = self.plus(rhs);
        *self = add;
    }
}

impl<T: Int> std::ops::AddAssign<T> for Rational<T> {
    fn add_assign(&mut self, rhs: T)
        requires
            sum_fits(old(self).numer(), old(self).denom(), rhs.value(), 1, 1, T::lowest(), T::highest()),
        ensures
            (final(self).numer(), final(self).denom()) == reduced_sum(old(self).numer(), old(self).denom(), rhs.value(), 1, 1),
    {
        let add = self.plus(Self::from_integer(rhs));
        *self = add;
    }
}

impl<T: Int> SubSpecImpl for Rational<T> {
    open spec fn obeys_sub_spec() -> bool {
        true
    }

    open spec fn sub_req(self, rhs: Rational<T>) -> bool {
        sum_fits(self.numer(), self.denom(), rhs.numer(), rhs.denom(), -1, T::lowest(), T::highest())
    }

    open spec fn sub_spec(self, rhs: Rational<T>) -> Rational<T> {
        Rational::with_parts(reduced_sum(self.numer(), self.denom(), rhs.numer(), rhs.denom(), -1))
    }
}

impl<T: Int> std::ops::Sub for Rational<T> {
    type Output = Self;

    fn sub(self, rhs: Self) -> Self::Output {
        let r = self.minus(rhs);
        proof {
            r.lemma_with_parts();
        }
        r
    }
}

impl<T: Int> SubSpecImpl<T> for Rational<T> {
    open spec fn obeys_sub_spec() -> bool {
        true
    }

    open spec fn sub_req(self, rhs: T) -> bool {
        sum_fits(self.numer(), self.denom(), rhs.value(), 1, -1, T::lowest(), T::highest())
    }

    open spec fn sub_spec(self, rhs: T) -> Rational<T> {
        Rational::with_parts(reduced_sum(self.numer(), self.denom(), rhs.value(), 1, -1))
    }
}

impl<T: Int> std::ops::Sub<T> for Rational<T> {
    type Output = Self;

    fn sub(self, rhs: T) -> Self::Output {
        let rhs = Self::from_integer(rhs);
        let r = self.minus(rhs);
        proof {
            r.lemma_with_parts();
        }
        r
    }
}

impl<T: Int> std::ops::SubAssign for Rational<T> {
    fn sub_assign(&mut self, rhs: Self)
        requires
            sum_fits(old(self).numer(), old(self).denom(), rhs.numer(), rhs.denom(), -1, T::lowest(), T::highest()),
        ensures
            (final(self).numer(), final(self).denom()) == reduced_sum(old(self).numer(), old(self).denom(), rhs.numer(), rhs.denom(), -1),
    {
        let sub = self.minus(rhs);
        *self = sub;
    }
}

impl<T: Int> std::ops::SubAssign<T> for Rational<T> {
    fn sub_assign(&mut self, rhs: T)
        requires
            sum_fits(old(self).numer(), old(self).denom(), rhs.value(), 1, -1, T::lowest(), T::highest()),
        ensures
            (final(self).numer(), final(self).denom()) == reduced_sum(old(self).numer(), old(self).denom(), rhs.value(), 1, -1),
    {
        let sub = self.minus(Self::from_integer(rhs));
        *self = sub;
    }
}

impl<T: Int> MulSpecImpl for Rational<T> {
    open spec fn obeys_mul_spec() -> bool {
        true
    }

    open spec fn mul_req(self, rhs: Rational<T>) -> bool {
        product_fits(self.numer(), self.denom(), rhs.numer(), rhs.denom(), T::lowest(), T::highest())
    }

    open spec fn mul_spec(self, rhs: Rational<T>) -> Rational<T> {
        Rational::with_parts(reduced_product(self.numer(), self.denom(), rhs.numer(), rhs.denom()))
    }
}

impl<T: Int> std::ops::Mul for Rational<T> {
    type Output = Self;

    fn mul(self, rhs: Self) -> Self::Output {
        let r = self.times(rhs);
        proof {
            r.lemma_with_parts();
        }
        r
    }
}

impl<T: Int> MulSpecImpl<T> for Rational<T> {
    open spec fn obeys_mul_spec() -> bool {
        true
    }

    open spec fn mul_req(self, rhs: T) -> bool {
        product_fits(self.numer(), self.denom(), rhs.value(), 1, T::lowest(), T::highest())
    }

    open spec fn mul_spec(self, rhs: T) -> Rational<T> {
        Rational::with_parts(reduced_product(self.numer(), self.denom(), rhs.value(), 1))
    }
}

impl<T: Int> std::ops::Mul<T> for Rational<T> {
    type Output = Self;

    fn mul(self, rhs: T) -> Self::Output {
        let rhs = Self::from_integer(rhs);
        let r = self.times(rhs);
        proof {
            r.lemma_with_parts();
        }
        r
    }
}

impl<T: Int> std::ops::MulAssign for Rational<T> {
    fn mul_assign(&mut self, rhs: Self)
        requires
            product_fits(old(self).numer(), old(self).denom(), rhs.numer(), rhs.denom(), T::lowest(), T::highest()),
        ensures
            (final(self).numer(), final(self).denom()) == reduced_product(old(self).numer(), old(self).denom(), rhs.numer(), rhs.denom()),
    {
        let mul = self.times(rhs);
        *self = mul;
    }
}

impl<T: Int> std::ops::MulAssign<T> for Rational<T> {
    fn mul_assign(&mut self, rhs: T)
        requires
            product_fits(old(self).numer(), old(self).denom(), rhs.value(), 1, T::lowest(), T::highest()),
        ensures
            (final(self).numer(), final(self).denom()) == reduced_product(old(self).numer(), old(self).denom(), rhs.value(), 1),
    {
        let mul = self.times(Self::from_integer(rhs));
        *self = mul;
    }
}

impl<T: Int> DivSpecImpl for Rational<T> {
    open spec fn obeys_div_spec() -> bool {
        true
    }

    open spec fn div_req(self, rhs: Rational<T>) -> bool {
        quotient_fits(self.numer(), self.denom(), rhs.numer(), rhs.denom(), T::lowest(), T::highest())
    }

    open spec fn div_spec(self, rhs: Rational<T>) -> Rational<T> {
        Rational::with_parts(reduced_quotient(self.numer(), self.denom(), rhs.numer(), rhs.denom()))
    }
}

impl<T: Int> std::ops::Div for Rational<T> {
    type Output = Self;

    fn div(self, rhs: Self) -> Self::Output {
        let r = self.over(rhs);
        proof {
            r.lemma_with_parts();
        }
        r
    }
}

impl<T: Int> DivSpecImpl<T> for Rational<T> {
    open spec fn obeys_div_spec() -> bool {
        true
    }

    open spec fn div_req(self, rhs: T) -> bool {
        quotient_fits(self.numer(), self.denom(), rhs.value(), 1, T::lowest(), T::highest())
    }

    open spec fn div_spec(self, rhs: T) -> Rational<T> {
        Rational::with_parts(reduced_quotient(self.numer(), self.denom(), rhs.value(), 1))
    }
}

impl<T: Int> std::ops::Div<T> for Rational<T> {
    type Output = Self;

    fn div(self, rhs: T) -> Self::Output {
        let rhs = Self::from_integer(rhs);
        let r = self.over(rhs);
        proof {
            r.lemma_with_parts();
        }
        r
    }
}

impl<T: Int> std::ops::DivAssign for Rational<T> {
    fn div_assign(&mut self, rhs: Self)
        requires
            quotient_fits(old(self).numer(), old(self).denom(), rhs.numer(), rhs.denom(), T::lowest(), T::highest()),
        ensures
            (final(self).numer(), final(self).denom()) == reduced_quotient(old(self).numer(), old(self).denom(), rhs.numer(), rhs.denom()),
    {
        let div = self.over(rhs);
        *self = div;
    }
}

impl<T: Int> std::ops::DivAssign<T> for Rational<T> {
    fn div_assign(&mut self, rhs: T)
        requires
            quotient_fits(old(self).numer(), old(self).denom(), rhs.value(), 1, T::lowest(), T::highest()),
        ensures
            (final(self).numer(), final(self).denom()) == reduced_quotient(old(self).numer(), old(self).denom(), rhs.value(), 1),
    {
        let div = self.over(Self::from_integer(rhs));
        *self = div;
    }
}

} // verus!

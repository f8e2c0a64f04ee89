//! Integer helpers: truncating division as a mathematical function, greatest
//! common divisors, divisors, integer square roots and primes.

use vstd::prelude::*;

verus! {

/// The quotient of `a` by `b`, rounded towards zero.
pub open spec fn trunc_div(a: int, b: int) -> int {
    if a >= 0 {
        a / b
    } else {
        -((-a) / b)
    }
}

/// The remainder that goes with `trunc_div`: it has the sign of `a`.
pub open spec fn trunc_rem(a: int, b: int) -> int {
    if a >= 0 {
        a % b
    } else {
        -((-a) % b)
    }
}

/// The magnitude of `x`.
pub open spec fn magnitude(x: int) -> int {
    if x >= 0 {
        x
    } else {
        -x
    }
}

/// A nonzero divisor leaves a truncating remainder of smaller magnitude,
/// with the sign of the dividend, and quotient and remainder make up the
/// dividend.
pub proof fn lemma_trunc_div_rem(a: int, b: int)
    requires
        b != 0,
    ensures
        magnitude(trunc_rem(a, b)) < magnitude(b),
        a >= 0 ==> trunc_rem(a, b) >= 0,
        a <= 0 ==> trunc_rem(a, b) <= 0,
        a == b * trunc_div(a, b) + trunc_rem(a, b),
        magnitude(trunc_div(a, b)) <= magnitude(a),
{
    let x = magnitude(a);
    if b > 0 {
        assert(0 <= x % b && x % b < b && x == b * (x / b) + x % b) by (nonlinear_arith)
            requires
                b > 0,
        ;
    } else {
        assert(0 <= x % b && x % b < -b && x == b * (x / b) + x % b) by (nonlinear_arith)
            requires
                b < 0,
        ;
    }
    assert(0int % b == 0) by (nonlinear_arith)
        requires
            b != 0,
    ;
    let q = x / b;
    let r = x % b;
    assert(magnitude(q) <= x) by (nonlinear_arith)
        requires
            x == b * q + r,
            0 <= r < magnitude(b),
            b != 0,
            x >= 0,
    ;
    if a < 0 {
        assert(b * (-q) == -(b * q)) by (nonlinear_arith);
    }
}

/// The truncating remainder does not depend on the divisor's sign.
pub proof fn lemma_trunc_rem_ignores_sign(a: int, b: int)
    requires
        b != 0,
    ensures
        trunc_rem(a, b) == trunc_rem(a, magnitude(b)),
{
    if b < 0 {
        let x = magnitude(a);
        let r = x % (-b);
        let q = x / (-b);
        assert(x == (-b) * q + r && 0 <= r < -b) by (nonlinear_arith)
            requires
                b < 0,
                r == x % (-b),
                q == x / (-b),
        ;
        let r2 = x % b;
        let q2 = x / b;
        assert(x == b * q2 + r2 && 0 <= r2 < -b) by (nonlinear_arith)
            requires
                b < 0,
                r2 == x % b,
                q2 == x / b,
        ;
        assert(r == r2) by (nonlinear_arith)
            requires
                x == (-b) * q + r,
                0 <= r < -b,
                x == b * q2 + r2,
                0 <= r2 < -b,
                b < 0,
        ;
    }
}

/// The truncating quotient of two values of a primitive type is a value of
/// the type, but for the least value of a signed type divided by minus one.
pub proof fn lemma_quotient_fits(a: int, b: int, lowest: int, highest: int)
    requires
        lowest <= a <= highest,
        lowest <= b <= highest,
        lowest == 0 || lowest == -highest - 1,
        b != 0,
        !(a == lowest && b == -1),
    ensures
        lowest <= trunc_div(a, b) <= highest,
{
    lemma_trunc_div_rem(a, b);
    let q = trunc_div(a, b);
    let r = trunc_rem(a, b);
    if lowest == 0 {
        assert(q >= 0) by (nonlinear_arith)
            requires
                a == b * q + r,
                a >= 0,
                b > 0,
                0 <= r < b,
        ;
    } else if a == lowest && b == 1 {
        assert(q == a) by (nonlinear_arith)
            requires
                a == b * q + r,
                b == 1,
                magnitude(r) < 1,
        ;
    } else if a == lowest {
        assert(magnitude(q) * 2 <= magnitude(a) + 1) by (nonlinear_arith)
            requires
                a == b * q + r,
                magnitude(b) >= 2,
                magnitude(r) < magnitude(b),
                r <= 0,
                a < 0,
        ;
    }
}

/// What Euclid's algorithm yields on `(a, b)` with truncating remainders:
/// a greatest common divisor of the two, of either sign.
pub open spec fn gcd_spec(a: int, b: int) -> int
    decreases magnitude(b),
    via gcd_spec_decreases
{
    if b == 0 {
        a
    } else {
        gcd_spec(b, trunc_rem(a, b))
    }
}

#[via_fn]
proof fn gcd_spec_decreases(a: int, b: int) {
    if b != 0 {
        lemma_trunc_div_rem(a, b);
    }
}

/// Numbers that differ by a multiple of `m` leave the same remainder.
pub proof fn lemma_same_remainder(x: int, y: int, k: int, m: int)
    requires
        m > 0,
        x == y + m * k,
    ensures
        x % m == y % m,
{
    vstd::arithmetic::div_mod::lemma_mod_multiples_vanish(k, y, m);
}

/// The quotient of `a` by `b`, rounded towards minus infinity.
pub open spec fn floor_div(a: int, b: int) -> int {
    if b > 0 {
        a / b
    } else {
        (-a) / (-b)
    }
}

/// The remainder that goes with `floor_div`: it has the sign of `b`.
pub open spec fn floor_rem(a: int, b: int) -> int {
    a - b * floor_div(a, b)
}

/// How the truncating and the flooring quotient differ: by one, where the
/// remainder is not zero and the signs of dividend and divisor differ.
pub proof fn lemma_floor_from_trunc(a: int, b: int)
    requires
        b != 0,
    ensures
        floor_div(a, b) == if (trunc_rem(a, b) > 0 && b < 0) || (trunc_rem(a, b) < 0 && b > 0) {
            trunc_div(a, b) - 1
        } else {
            trunc_div(a, b)
        },
        floor_rem(a, b) == if (trunc_rem(a, b) > 0 && b < 0) || (trunc_rem(a, b) < 0 && b > 0) {
            trunc_rem(a, b) + b
        } else {
            trunc_rem(a, b)
        },
        b > 0 ==> 0 <= floor_rem(a, b) < b,
        b < 0 ==> b < floor_rem(a, b) <= 0,
{
    lemma_trunc_div_rem(a, b);
    let q = trunc_div(a, b);
    let r = trunc_rem(a, b);
    let adjust = (r > 0 && b < 0) || (r < 0 && b > 0);
    let fq = if adjust {
        q - 1
    } else {
        q
    };
    let fr = if adjust {
        r + b
    } else {
        r
    };
    assert(a == fq * b + fr) by (nonlinear_arith)
        requires
            a == b * q + r,
            fq == if adjust {
                q - 1
            } else {
                q
            },
            fr == if adjust {
                r + b
            } else {
                r
            },
    ;
    assert(b * fq == fq * b) by (nonlinear_arith);
    if b > 0 {
        assert(0 <= fr < b);
        vstd::arithmetic::div_mod::lemma_fundamental_div_mod_converse(a, b, fq, fr);
    } else {
        assert(b < fr <= 0);
        assert(-a == fq * (-b) + (-fr)) by (nonlinear_arith)
            requires
                a == fq * b + fr,
        ;
        vstd::arithmetic::div_mod::lemma_fundamental_div_mod_converse(-a, -b, fq, -fr);
    }
}

/// `r` is the integer square root of `n`.
pub open spec fn is_sqrt_floor(n: int, r: int) -> bool {
    0 <= r && r * r <= n < (r + 1) * (r + 1)
}

/// Squares of numbers that are not negative stand as the numbers do.
pub proof fn lemma_square_is_monotonic(a: int, b: int)
    requires
        0 <= a <= b,
    ensures
        a * a <= b * b,
{
    assert(a * a <= b * b) by (nonlinear_arith)
        requires
            0 <= a <= b,
    ;
}

/// From five on, the square of half of `n + 1` exceeds `n`.
proof fn lemma_half_squared_exceeds(n: int)
    ensures
        n >= 5 ==> ((n + 1) / 2) * ((n + 1) / 2) > n,
{
    if n >= 5 {
        let h = (n + 1) / 2;
        assert(h * h > n) by (nonlinear_arith)
            requires
                2 * h >= n,
                h >= 3,
        ;
    }
}

/// A primitive integer type: its values as mathematical integers, its range,
/// and the arithmetic that stays in the range.
pub trait Int: Copy + Eq + std::hash::Hash {
    /// The value as a mathematical integer.
    spec fn value(self) -> int;

    /// The least value of the type.
    spec fn lowest() -> int;

    /// The greatest value of the type.
    spec fn highest() -> int;

    /// The range of the type: it holds every value, and is that of an
    /// unsigned or of a signed type of eight to sixty-four bits.
    proof fn lemma_range(self)
        ensures
            Self::lowest() <= self.value() <= Self::highest(),
            127 <= Self::highest() < 0x1_0000_0000_0000_0000,
            Self::lowest() == 0 || Self::lowest() == -Self::highest() - 1,
    ;

    /// Two values with one mathematical value are equal.
    proof fn lemma_value_is_injective(self, other: Self)
        ensures
            self.value() == other.value() ==> self == other,
    ;

    /// Zero.
    fn zero() -> (r: Self)
        ensures
            r.value() == 0,
    ;

    /// One.
    fn one() -> (r: Self)
        ensures
            r.value() == 1,
    ;

    /// The number after this one.
    fn next(self) -> (r: Self)
        requires
            self.value() < Self::highest(),
        ensures
            r.value() == self.value() + 1,
    ;

    /// The number before this one.
    fn prev(self) -> (r: Self)
        requires
            self.value() > Self::lowest(),
        ensures
            r.value() == self.value() - 1,
    ;

    /// The sum.
    fn plus(self, other: Self) -> (r: Self)
        requires
            Self::lowest() <= self.value() + other.value() <= Self::highest(),
        ensures
            r.value() == self.value() + other.value(),
    ;

    /// The difference.
    fn minus(self, other: Self) -> (r: Self)
        requires
            Self::lowest() <= self.value() - other.value() <= Self::highest(),
        ensures
            r.value() == self.value() - other.value(),
    ;

    /// The product.
    fn times(self, other: Self) -> (r: Self)
        requires
            Self::lowest() <= self.value() * other.value() <= Self::highest(),
        ensures
            r.value() == self.value() * other.value(),
    ;

    /// The quotient, rounded towards zero.
    fn quot(self, other: Self) -> (r: Self)
        requires
            other.value() != 0,
            !(self.value() == Self::lowest() && other.value() == -1),
        ensures
            r.value() == trunc_div(self.value(), other.value()),
    ;

    /// The remainder, with the sign of the dividend.
    fn rem(self, other: Self) -> (r: Self)
        requires
            other.value() != 0,
            !(self.value() == Self::lowest() && other.value() == -1),
        ensures
            r.value() == trunc_rem(self.value(), other.value()),
    ;

    /// Whether `self < other`.
    fn less(self, other: Self) -> (r: bool)
        ensures
            r == (self.value() < other.value()),
    ;

    /// Whether `self == other`.
    fn same(self, other: Self) -> (r: bool)
        ensures
            r == (self.value() == other.value()),
    ;

    /// The integer square root: the largest number whose square is at most
    /// `self`; zero for a negative `self`.
    fn sqrt_floor(self) -> (r: Self)
        requires
            self.value() >= 0 ==> self.value() < Self::highest() && ((self.value() + 1) / 2) * ((
            self.value() + 1) / 2) <= Self::highest(),
        ensures
            self.value() < 0 ==> r.value() == 0,
            self.value() >= 0 ==> is_sqrt_floor(self.value(), r.value()),
    {
        if self.less(Self::zero()) {
            return Self::zero();
        }
        proof {
            self.lemma_range();
        }
        let two = Self::one().next();
        let mut ok = Self::zero();
        let mut ng = self.next();
        let ghost n = self.value();
        let ghost first = (n + 1) / 2;
        proof {
            self.lemma_range();
            assert((n + 1) * (n + 1) > n) by (nonlinear_arith)
                requires
                    n >= 0,
            ;
        }
        while Self::one().less(ng.minus(ok))
            invariant
                n == self.value(),
                n >= 0,
                n < Self::highest(),
                first == (n + 1) / 2,
                first * first <= Self::highest(),
                Self::highest() >= 127,
                Self::lowest() <= 0,
                two.value() == 2,
                0 <= ok.value() < ng.value() <= n + 1,
                ok.value() * ok.value() <= n,
                ng.value() * ng.value() > n,
                (ng.value() == n + 1 && ok.value() == 0) || ng.value() <= first || n <= 4,
            decreases ng.value() - ok.value(),
        {
            proof {
                ok.lemma_range();
                ng.lemma_range();
            }
            let mid = ng.plus(ok).quot(two);
            proof {
                let m = mid.value();
                assert(m == (ng.value() + ok.value()) / 2);
                if m <= first {
                    lemma_square_is_monotonic(m, first);
                }
                if m <= 4 {
                    lemma_square_is_monotonic(m, 4);
                }
                lemma_half_squared_exceeds(n);
            }
            if !self.less(mid.times(mid)) {
                ok = mid;
            } else {
                ng = mid;
            }
        }
        ok
    }

    /// Whether the number is zero.
    fn is_zero(&self) -> (r: bool)
        ensures
            r == (self.value() == 0),
    {
        self.same(Self::zero())
    }

    /// Whether the number is one.
    fn is_one(&self) -> (r: bool)
        ensures
            r == (self.value() == 1),
    {
        self.same(Self::one())
    }

    /// Quotient and remainder, rounded towards zero.
    fn div_rem(&self, other: &Self) -> (r: (Self, Self))
        requires
            other.value() != 0,
            !(self.value() == Self::lowest() && other.value() == -1),
        ensures
            r.0.value() == trunc_div(self.value(), other.value()),
            r.1.value() == trunc_rem(self.value(), other.value()),
    {
        (self.quot(*other), self.rem(*other))
    }

    /// The quotient, rounded towards minus infinity.
    fn div_floor(&self, other: &Self) -> (r: Self)
        requires
            other.value() != 0,
            !(self.value() == Self::lowest() && other.value() == -1),
        ensures
            r.value() == floor_div(self.value(), other.value()),
    {
        // Algorithm from [Daan Leijen. _Division and Modulus for Computer Scientists_,
        // December 2001](http://research.microsoft.com/pubs/151917/divmodnote-letter.pdf)
        let (d, r) = self.div_rem(other);
        proof {
            self.lemma_range();
            other.lemma_range();
            d.lemma_range();
            lemma_trunc_div_rem(self.value(), other.value());
            lemma_floor_from_trunc(self.value(), other.value());
            let a = self.value();
            let b = other.value();
            let q = d.value();
            let rr = r.value();
            if rr != 0 {
                assert(magnitude(b) >= 2);
                assert(magnitude(q) * 2 <= magnitude(a)) by (nonlinear_arith)
                    requires
                        a == b * q + rr,
                        magnitude(b) >= 2,
                        magnitude(rr) < magnitude(b),
                        a >= 0 ==> rr >= 0,
                        a <= 0 ==> rr <= 0,
                ;
            }
        }
        if (Self::zero().less(r) && other.less(Self::zero())) || (r.less(Self::zero())
            && Self::zero().less(*other)) {
            d.prev()
        } else {
            d
        }
    }

    /// The remainder that goes with `div_floor`: it has the sign of `other`.
    fn mod_floor(&self, other: &Self) -> (r: Self)
        requires
            other.value() != 0,
            !(self.value() == Self::lowest() && other.value() == -1),
        ensures
            r.value() == floor_rem(self.value(), other.value()),
    {
        let r = self.rem(*other);
        proof {
            self.lemma_range();
            other.lemma_range();
            lemma_trunc_div_rem(self.value(), other.value());
            lemma_floor_from_trunc(self.value(), other.value());
        }
        if (Self::zero().less(r) && other.less(Self::zero())) || (r.less(Self::zero())
            && Self::zero().less(*other)) {
            r.plus(*other)
        } else {
            r
        }
    }
}

/// Euclid's algorithm on `(a, b)` never divides the least value of a signed
/// type by minus one, the one division that leaves the type.
pub open spec fn euclid_fits(a: int, b: int, lowest: int) -> bool
    decreases magnitude(b),
    via euclid_fits_decreases
{
    if b == 0 {
        true
    } else {
        !(a == lowest && b == -1) && euclid_fits(b, trunc_rem(a, b), lowest)
    }
}

#[via_fn]
proof fn euclid_fits_decreases(a: int, b: int, lowest: int) {
    if b != 0 {
        lemma_trunc_div_rem(a, b);
    }
}

/// Euclid's algorithm stays within an unsigned type, and within a signed
/// type where neither argument is the least value.
pub proof fn lemma_euclid_fits(a: int, b: int, lowest: int)
    requires
        lowest <= 0,
        lowest == 0 ==> a >= 0 && b >= 0,
        lowest != 0 ==> magnitude(a) < -lowest && magnitude(b) < -lowest,
    ensures
        euclid_fits(a, b, lowest),
    decreases magnitude(b),
{
    if b != 0 {
        lemma_trunc_div_rem(a, b);
        lemma_euclid_fits(b, trunc_rem(a, b), lowest);
    }
}

/// Euclid's algorithm stays within the type where the second argument is
/// one.
pub proof fn lemma_euclid_fits_one(a: int, lowest: int)
    ensures
        euclid_fits(a, 1, lowest),
        gcd_spec(a, 1) == 1,
        trunc_rem(a, 1) == 0,
        trunc_div(a, 1) == a,
{
    assert(a == 1 * a) by (nonlinear_arith);
    lemma_exact_division(a, 1, a);
    reveal_with_fuel(euclid_fits, 3);
    reveal_with_fuel(gcd_spec, 3);
}

/// Euclid's algorithm leaves a nonzero result but on two zeros, and one that
/// is no larger in magnitude than a nonzero argument.
pub proof fn lemma_gcd_magnitude(a: int, b: int)
    ensures
        gcd_spec(a, b) == 0 <==> (a == 0 && b == 0),
        b != 0 ==> magnitude(gcd_spec(a, b)) <= magnitude(b),
        a != 0 ==> magnitude(gcd_spec(a, b)) <= magnitude(a),
    decreases magnitude(b),
{
    if b != 0 {
        lemma_trunc_div_rem(a, b);
        let r = trunc_rem(a, b);
        lemma_gcd_magnitude(b, r);
        if a != 0 {
            assert(if r != 0 {
                magnitude(r) <= magnitude(a)
            } else {
                magnitude(b) <= magnitude(a)
            }) by (nonlinear_arith)
                requires
                    a == b * trunc_div(a, b) + r,
                    magnitude(r) < magnitude(b),
                    a >= 0 ==> r >= 0,
                    a <= 0 ==> r <= 0,
                    a != 0,
            ;
        }
    }
}

/// Euclid's algorithm on two values that are not negative yields one that is
/// not negative.
pub proof fn lemma_gcd_sign(a: int, b: int)
    requires
        a >= 0,
        b >= 0,
    ensures
        gcd_spec(a, b) >= 0,
    decreases magnitude(b),
{
    if b != 0 {
        lemma_trunc_div_rem(a, b);
        lemma_gcd_sign(b, trunc_rem(a, b));
    }
}

/// Where `x` is `g` times `k`, the truncating quotient of `x` by `g` is `k`.
pub proof fn lemma_exact_division(x: int, g: int, k: int)
    requires
        g != 0,
        x == g * k,
    ensures
        trunc_div(x, g) == k,
        trunc_rem(x, g) == 0,
{
    lemma_trunc_div_rem(x, g);
    let q = trunc_div(x, g);
    let r = trunc_rem(x, g);
    assert(k == q && r == 0) by (nonlinear_arith)
        requires
            x == g * k,
            x == g * q + r,
            magnitude(r) < magnitude(g),
            g != 0,
    ;
}

/// What Euclid's algorithm yields divides both arguments.
pub proof fn lemma_gcd_divides(a: int, b: int)
    requires
        a != 0 || b != 0,
    ensures
        gcd_spec(a, b) != 0,
        a == gcd_spec(a, b) * trunc_div(a, gcd_spec(a, b)),
        b == gcd_spec(a, b) * trunc_div(b, gcd_spec(a, b)),
    decreases magnitude(b),
{
    let g = gcd_spec(a, b);
    lemma_gcd_magnitude(a, b);
    if b == 0 {
        assert(a == a * 1) by (nonlinear_arith);
        lemma_exact_division(a, a, 1);
        assert(0 == a * 0) by (nonlinear_arith);
        lemma_exact_division(0, a, 0);
    } else {
        lemma_trunc_div_rem(a, b);
        let q = trunc_div(a, b);
        let r = trunc_rem(a, b);
        lemma_gcd_divides(b, r);
        let kb = trunc_div(b, g);
        let kr = trunc_div(r, g);
        assert(a == g * (kb * q + kr)) by (nonlinear_arith)
            requires
                a == b * q + r,
                b == g * kb,
                r == g * kr,
        ;
        lemma_exact_division(a, g, kb * q + kr);
    }
}

/// Whatever divides both arguments divides what Euclid's algorithm yields.
pub proof fn lemma_gcd_is_greatest(a: int, b: int, c: int)
    requires
        c != 0,
        a == c * trunc_div(a, c),
        b == c * trunc_div(b, c),
    ensures
        gcd_spec(a, b) == c * trunc_div(gcd_spec(a, b), c),
    decreases magnitude(b),
{
    if b != 0 {
        lemma_trunc_div_rem(a, b);
        let q = trunc_div(a, b);
        let r = trunc_rem(a, b);
        let ka = trunc_div(a, c);
        let kb = trunc_div(b, c);
        assert(r == c * (ka - kb * q)) by (nonlinear_arith)
            requires
                a == b * q + r,
                a == c * ka,
                b == c * kb,
        ;
        lemma_exact_division(r, c, ka - kb * q);
        lemma_gcd_is_greatest(b, r, c);
    }
}

/// A greatest common divisor of `a` and `b`, by Euclid's algorithm with
/// truncating remainders: it may be negative.
pub fn gcd<T>(a: T, b: T) -> (r: T) where T: Int
    requires
        euclid_fits(a.value(), b.value(), T::lowest()),
    ensures
        r.value() == gcd_spec(a.value(), b.value()),
    decreases magnitude(b.value()),
{
    if b.same(T::zero()) {
        a
    } else {
        proof {
            a.lemma_range();
            b.lemma_range();
            lemma_trunc_div_rem(a.value(), b.value());
        }
        gcd(b, a.rem(b))
    }
}

/// `a / gcd(a, b) * b`: a common multiple of `a` and `b`.
pub fn lcm<T>(a: T, b: T) -> (r: T) where T: Int
    requires
        euclid_fits(a.value(), b.value(), T::lowest()),
        a.value() != 0 || b.value() != 0,
        !(a.value() == T::lowest() && gcd_spec(a.value(), b.value()) == -1),
        T::lowest() <= trunc_div(a.value(), gcd_spec(a.value(), b.value())) * b.value() <= T::highest(),
    ensures
        r.value() == trunc_div(a.value(), gcd_spec(a.value(), b.value())) * b.value(),
{
    let g = gcd(a, b);
    proof {
        lemma_gcd_magnitude(a.value(), b.value());
        a.lemma_range();
        g.lemma_range();
    }
    a.quot(g).times(b)
}

/// `c * c`.
pub open spec fn square(c: int) -> int {
    c * c
}

/// `d` is a positive divisor of `n`.
pub open spec fn is_divisor(d: int, n: int) -> bool {
    1 <= d && n % d == 0
}

/// Some item of `s` has the value `d`.
pub open spec fn has_value<T: Int>(s: Seq<T>, d: int) -> bool {
    exists|i: int| 0 <= i < s.len() && (#[trigger] s[i]).value() == d
}

/// The values of `s` are strictly increasing.
pub open spec fn is_increasing<T: Int>(s: Seq<T>) -> bool {
    forall|i: int, j: int| 0 <= i < j < s.len() ==> (#[trigger] s[i]).value() < (#[trigger] s[j]).value()
}

/// The squares up to the first that exceeds `n` are values of a type whose
/// greatest value is `highest`.
pub open spec fn squares_fit(n: int, highest: int) -> bool {
    forall|c: int| 1 <= c && square(c - 1) <= n ==> #[trigger] square(c) <= highest
}

/// Where `d * e == n` for positive `d`, `e` is the quotient, and both are
/// divisors of `n`.
proof fn lemma_cofactor(n: int, d: int, e: int)
    requires
        d >= 1,
        e >= 0,
        d * e == n,
    ensures
        n / d == e,
        n % d == 0,
        e >= 1 ==> n % e == 0 && n / e == d,
{
    assert(n == e * d + 0) by (nonlinear_arith)
        requires
            d * e == n,
    ;
    vstd::arithmetic::div_mod::lemma_fundamental_div_mod_converse(n, d, e, 0);
    if e >= 1 {
        vstd::arithmetic::div_mod::lemma_fundamental_div_mod_converse(n, e, d, 0);
    }
}

/// A positive divisor `d` of a positive `n` has the cofactor `n / d`, which
/// is positive and stands to `d` opposite to how their squares stand to `n`.
proof fn lemma_divisor_pair(n: int, d: int)
    requires
        n >= 1,
        is_divisor(d, n),
    ensures
        d * (n / d) == n,
        n / d >= 1,
        d <= n,
        is_divisor(n / d, n),
        n / (n / d) == d,
        square(d) < n <==> square(n / d) > n,
        square(d) == n <==> square(n / d) == n,
        square(d) < n ==> d < n / d,
        square(d) > n ==> d > n / d,
{
    vstd::arithmetic::div_mod::lemma_fundamental_div_mod(n, d);
    let e = n / d;
    assert(e >= 1 && d <= n) by (nonlinear_arith)
        requires
            n == d * e,
            n >= 1,
            d >= 1,
    ;
    lemma_cofactor(n, d, e);
    assert((d * d < n <==> e * e > n) && (d * d == n <==> e * e == n) && (d * d < n ==> d < e) && (d
        * d > n ==> d > e)) by (nonlinear_arith)
        requires
            n == d * e,
            d >= 1,
            e >= 1,
    ;
}

/// Of two divisors of `n`, the larger has the smaller cofactor.
proof fn lemma_cofactors_are_opposite(n: int, c: int, d: int)
    requires
        n >= 1,
        is_divisor(c, n),
        is_divisor(d, n),
        c < d,
    ensures
        n / c > n / d,
{
    lemma_divisor_pair(n, c);
    lemma_divisor_pair(n, d);
    let e = n / c;
    let f = n / d;
    assert(e > f) by (nonlinear_arith)
        requires
            c * e == n,
            d * f == n,
            1 <= c < d,
            e >= 1,
            f >= 1,
    ;
}

/// The positive divisors of `n`, in ascending order; none where `n` is not
/// positive.
pub fn divosors<T>(n: T) -> (r: Vec<T>) where T: Int
    requires
        squares_fit(n.value(), T::highest()),
    ensures
        is_increasing(r@),
        forall|i: int| 0 <= i < r@.len() ==> is_divisor((#[trigger] r@[i]).value(), n.value()),
        forall|d: int| n.value() >= 1 && is_divisor(d, n.value()) ==> has_value(r@, d),
        n.value() < 1 ==> r@.len() == 0,
{
    let mut ret: Vec<T> = Vec::new();
    let mut large: Vec<T> = Vec::new();
    let mut cur = T::one();
    let ghost nv = n.value();
    proof {
        n.lemma_range();
        assert(square(0) == 0);
        assert(square(1) == 1);
        assert forall|d: int| nv >= 1 && is_divisor(d, nv) && square(d) > nv && nv / d < 1 implies has_value(
            large@,
            d,
        ) by {
            lemma_divisor_pair(nv, d);
        }
    }
    loop
        invariant
            nv == n.value(),
            squares_fit(nv, T::highest()),
            T::highest() >= 127,
            T::lowest() <= 0,
            nv <= T::highest(),
            cur.value() >= 1,
            cur.value() == 1 || square(cur.value() - 1) <= nv,
            nv < 1 ==> ret@.len() == 0 && large@.len() == 0,
            is_increasing(ret@),
            forall|i: int|
                0 <= i < ret@.len() ==> is_divisor((#[trigger] ret@[i]).value(), nv) && ret@[i].value()
                    < cur.value() && square(ret@[i].value()) <= nv,
            forall|d: int| 1 <= d < cur.value() && nv % d == 0 ==> has_value(ret@, d),
            forall|i: int, j: int|
                0 <= i < j < large@.len() ==> (#[trigger] large@[i]).value() > (#[trigger] large@[j]).value(),
            forall|i: int|
                0 <= i < large@.len() ==> is_divisor((#[trigger] large@[i]).value(), nv) && square(
                    large@[i].value(),
                ) > nv && nv / large@[i].value() < cur.value(),
            forall|d: int|
                nv >= 1 && is_divisor(d, nv) && square(d) > nv && nv / d < cur.value() ==> has_value(
                    large@,
                    d,
                ),
        ensures
            nv < 1 ==> ret@.len() == 0 && large@.len() == 0,
            is_increasing(ret@),
            forall|i: int|
                0 <= i < ret@.len() ==> is_divisor((#[trigger] ret@[i]).value(), nv) && square(
                    ret@[i].value(),
                ) <= nv,
            forall|d: int| is_divisor(d, nv) && square(d) <= nv ==> has_value(ret@, d),
            forall|i: int, j: int|
                0 <= i < j < large@.len() ==> (#[trigger] large@[i]).value() > (#[trigger] large@[j]).value(),
            forall|i: int|
                0 <= i < large@.len() ==> is_divisor((#[trigger] large@[i]).value(), nv) && square(
                    large@[i].value(),
                ) > nv,
            forall|d: int| nv >= 1 && is_divisor(d, nv) && square(d) > nv ==> has_value(large@, d),
        decreases nv + 2 - cur.value(),
    {
        let ghost c = cur.value();
        proof {
            assert(square(c) <= T::highest());
            cur.lemma_range();
        }
        let sq = cur.times(cur);
        if n.less(sq) {
            proof {
                assert forall|d: int| is_divisor(d, nv) && square(d) <= nv implies has_value(ret@, d) by {
                    if d >= c {
                        lemma_square_is_monotonic(c, d);
                    }
                }
                assert forall|d: int| nv >= 1 && is_divisor(d, nv) && square(d) > nv implies has_value(
                    large@,
                    d,
                ) by {
                    lemma_divisor_pair(nv, d);
                    let e = nv / d;
                    if e >= c {
                        lemma_square_is_monotonic(c, e);
                    }
                }
            }
            break ;
        }
        proof {
            assert(c <= nv) by (nonlinear_arith)
                requires
                    c * c <= nv,
                    c >= 1,
            ;
            assert(c < T::highest()) by (nonlinear_arith)
                requires
                    c * c <= nv,
                    nv <= T::highest(),
                    T::highest() >= 127,
                    c >= 1,
            ;
        }
        let ghost small_before = ret@;
        let ghost large_before = large@;
        if n.rem(cur).is_zero() {
            ret.push(cur);
            proof {
                assert(ret@[ret@.len() - 1].value() == c);
                lemma_divisor_pair(nv, c);
            }
            if !sq.same(n) {
                let pair = n.quot(cur);
                large.push(pair);
                proof {
                    let e = nv / c;
                    assert(large@[large@.len() - 1].value() == e);
                    assert forall|i: int, j: int| 0 <= i < j < large@.len() implies (#[trigger] large@[i]).value()
                        > (#[trigger] large@[j]).value() by {
                        if j == large@.len() - 1 {
                            let f = large_before[i].value();
                            lemma_divisor_pair(nv, f);
                            lemma_cofactors_are_opposite(nv, nv / f, c);
                        }
                    }
                }
            }
        }
        proof {
            assert forall|d: int| 1 <= d < c + 1 && nv % d == 0 implies has_value(ret@, d) by {
                if d < c {
                    assert(has_value(small_before, d));
                    let i = choose|i: int| 0 <= i < small_before.len() && (#[trigger] small_before[i]).value() == d;
                    assert(ret@[i].value() == d);
                } else {
                    assert(ret@[ret@.len() - 1].value() == d);
                }
            }
            assert forall|d: int|
                nv >= 1 && is_divisor(d, nv) && square(d) > nv && nv / d < c + 1 implies has_value(
                large@,
                d,
            ) by {
                lemma_divisor_pair(nv, d);
                if nv / d < c {
                    assert(has_value(large_before, d));
                    let i = choose|i: int| 0 <= i < large_before.len() && (#[trigger] large_before[i]).value() == d;
                    assert(large@[i].value() == d);
                } else {
                    assert(large@[large@.len() - 1].value() == d);
                }
            }
            assert(square(c + 1 - 1) <= nv);
        }
        cur = cur.next();
    }
    let ghost small = ret@;
    let mut j: usize = large.len();
    while j > 0
        invariant
            j <= large@.len(),
            ret@.len() == small.len() + (large@.len() - j),
            forall|i: int| 0 <= i < small.len() ==> #[trigger] ret@[i] == small[i],
            forall|k: int|
                small.len() <= k < ret@.len() ==> #[trigger] ret@[k] == large@[large@.len() - 1 - (k
                    - small.len())],
        decreases j,
    {
        j = j - 1;
        ret.push(large[j]);
    }
    proof {
        assert forall|a: int, b: int| 0 <= a < b < ret@.len() implies (#[trigger] ret@[a]).value() < (
        #[trigger] ret@[b]).value() by {
            if b < small.len() {
                assert(small[a].value() < small[b].value());
            } else if a < small.len() {
                let e = large@[large@.len() - 1 - (b - small.len())];
                assert(ret@[b] == e);
                assert(square(small[a].value()) <= nv < square(e.value()));
                if small[a].value() >= e.value() {
                    lemma_square_is_monotonic(e.value(), small[a].value());
                }
            } else {
                let x = large@.len() - 1 - (a - small.len());
                let y = large@.len() - 1 - (b - small.len());
                assert(ret@[a] == large@[x]);
                assert(ret@[b] == large@[y]);
                assert(large@[y].value() > large@[x].value());
            }
        }
        assert forall|i: int| 0 <= i < ret@.len() implies is_divisor((#[trigger] ret@[i]).value(), nv) by {
            if i < small.len() {
                assert(is_divisor(small[i].value(), nv));
            } else {
                assert(ret@[i] == large@[large@.len() - 1 - (i - small.len())]);
            }
        }
        assert forall|d: int| nv >= 1 && is_divisor(d, nv) implies has_value(ret@, d) by {
            if square(d) <= nv {
                assert(has_value(small, d));
                let i = choose|i: int| 0 <= i < small.len() && (#[trigger] small[i]).value() == d;
                assert(ret@[i].value() == d);
            } else {
                assert(has_value(large@, d));
                let i = choose|i: int| 0 <= i < large@.len() && (#[trigger] large@[i]).value() == d;
                let k = small.len() + (large@.len() - 1 - i);
                assert(ret@[k] == large@[i]);
            }
        }
    }
    ret
}

} // verus!

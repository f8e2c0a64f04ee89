//! Arithmetic modulo a positive integer: powers, inverses and a residue type.

use vstd::prelude::*;
use vstd::std_specs::ops::{AddSpecImpl, SubSpecImpl, MulSpecImpl, DivSpecImpl};
use vstd::arithmetic::div_mod::{lemma_mul_mod_noop_left, lemma_mul_mod_noop_right, lemma_add_mod_noop_right, lemma_sub_mod_noop_right, lemma_mod_bound, lemma_mod_twice};
use vstd::arithmetic::power::{pow, lemma_pow0, lemma_pow1, lemma_pow_adds, lemma_pow_distributes};
use vstd::arithmetic::div_mod::{lemma_fundamental_div_mod, lemma_mod_multiples_vanish, lemma_mod_equivalence, lemma_small_mod};
use crate::integer::{trunc_rem, gcd_spec, lemma_trunc_rem_ignores_sign, magnitude};

verus! {

/// The largest modulus, in magnitude, whose residues can be multiplied in an
/// `i64`.
pub const MAX_MODULUS: i64 = 3_037_000_500;

/// `trunc_rem` by a positive modulus, for a value that is not positive.
proof fn lemma_trunc_rem_of_nonpositive(x: int, m: int)
    requires
        m > 0,
        x <= 0,
    ensures
        trunc_rem(x, m) == -((-x) % m),
{
    if x == 0 {
        assert(0int % m == 0) by {
            vstd::arithmetic::div_mod::lemma_small_mod(0, m as nat);
        }
    }
}

/// A truncating remainder is smaller in magnitude than the modulus and is
/// its own remainder.
pub proof fn lemma_trunc_rem_bound(a: int, m: int)
    requires
        m > 0,
    ensures
        -m < trunc_rem(a, m) < m,
        a >= 0 ==> trunc_rem(a, m) >= 0,
        a <= 0 ==> trunc_rem(a, m) <= 0,
        trunc_rem(trunc_rem(a, m), m) == trunc_rem(a, m),
{
    lemma_trunc_rem_of_nonpositive(0, m);
    if a >= 0 {
        lemma_mod_bound(a, m);
        lemma_mod_twice(a, m);
    } else {
        lemma_mod_bound(-a, m);
        lemma_mod_twice(-a, m);
        lemma_trunc_rem_of_nonpositive(-((-a) % m), m);
    }
}

/// Reducing one factor first does not change a product's truncating
/// remainder.
pub proof fn lemma_trunc_rem_of_product(a: int, b: int, m: int)
    requires
        m > 0,
    ensures
        trunc_rem(trunc_rem(a, m) * b, m) == trunc_rem(a * b, m),
{
    let ra = trunc_rem(a, m);
    lemma_trunc_rem_bound(a, m);
    if a >= 0 {
        if b >= 0 {
            assert(ra * b >= 0 && a * b >= 0) by (nonlinear_arith)
                requires
                    ra >= 0,
                    a >= 0,
                    b >= 0,
            ;
            lemma_mul_mod_noop_left(a, b, m);
        } else {
            assert(ra * b <= 0 && a * b <= 0 && -(ra * b) == ra * (-b) && -(a * b) == a * (-b))
                by (nonlinear_arith)
                requires
                    ra >= 0,
                    a >= 0,
                    b < 0,
            ;
            lemma_trunc_rem_of_nonpositive(ra * b, m);
            lemma_trunc_rem_of_nonpositive(a * b, m);
            lemma_mul_mod_noop_left(a, -b, m);
        }
    } else {
        let pa = (-a) % m;
        if b >= 0 {
            assert(ra * b <= 0 && a * b <= 0 && -(ra * b) == pa * b && -(a * b) == (-a) * b)
                by (nonlinear_arith)
                requires
                    ra == -pa,
                    pa >= 0,
                    a < 0,
                    b >= 0,
            ;
            lemma_trunc_rem_of_nonpositive(ra * b, m);
            lemma_trunc_rem_of_nonpositive(a * b, m);
            lemma_mul_mod_noop_left(-a, b, m);
        } else {
            assert(ra * b >= 0 && a * b >= 0 && ra * b == pa * (-b) && a * b == (-a) * (-b))
                by (nonlinear_arith)
                requires
                    ra == -pa,
                    pa >= 0,
                    a < 0,
                    b < 0,
            ;
            lemma_mul_mod_noop_left(-a, -b, m);
        }
    }
}

/// Reducing the base first does not change the truncating remainder of a
/// multiple of a power.
proof fn lemma_trunc_rem_of_power(c: int, b: int, e: nat, m: int)
    requires
        m > 0,
    ensures
        trunc_rem(c * pow(trunc_rem(b, m), e), m) == trunc_rem(c * pow(b, e), m),
    decreases e,
{
    let rb = trunc_rem(b, m);
    if e == 0 {
        lemma_pow0(rb);
        lemma_pow0(b);
    } else {
        let e1 = (e - 1) as nat;
        assert(pow(rb, e) == rb * pow(rb, e1)) by {
            reveal(pow);
        }
        assert(pow(b, e) == b * pow(b, e1)) by {
            reveal(pow);
        }
        let p = pow(rb, e1);
        let q = pow(b, e1);
        assert(c * (rb * p) == rb * (c * p)) by (nonlinear_arith);
        lemma_trunc_rem_of_product(b, c * p, m);
        assert(b * (c * p) == (c * b) * p) by (nonlinear_arith);
        lemma_trunc_rem_of_power(c * b, b, e1, m);
        assert((c * b) * q == c * (b * q)) by (nonlinear_arith);
    }
}

/// `x` to the power `n`, reduced by `m` with a truncating remainder; one
/// where `n` is not positive.
pub open spec fn mod_pow_spec(x: int, n: int, m: int) -> int {
    if n <= 0 {
        1
    } else {
        trunc_rem(pow(x, n as nat), m)
    }
}

/// `x` to the power `n`, modulo `m`.
pub fn mod_pow(x: i64, n: i64, m: i64) -> (r: i64)
    requires
        m != 0,
        magnitude(m as int) <= MAX_MODULUS,
        !(x == i64::MIN && m == -1),
    ensures
        r == mod_pow_spec(x as int, n as int, m as int),
{
    let ghost x0 = x as int;
    let ghost n0 = n as int;
    let ghost mm = magnitude(m as int);
    let mut res: i64 = 1;
    let mut x: i64 = x % m;
    let mut n: i64 = n;
    proof {
        lemma_trunc_rem_ignores_sign(x0, m as int);
        lemma_trunc_rem_bound(x0, mm);
        if n0 > 0 {
            lemma_trunc_rem_of_power(1, x0, n0 as nat, mm);
            lemma_trunc_rem_ignores_sign(pow(x0, n0 as nat), m as int);
        }
    }
    while n > 0
        invariant
            m != 0,
            mm == magnitude(m as int),
            mm <= MAX_MODULUS,
            n <= n0,
            -mm < x < mm,
            -mm < res < mm || res == 1,
            n0 <= 0 ==> res == 1,
            n0 > 0 ==> (res == 1 && n > 0) || trunc_rem(res as int, mm) == res,
            n0 > 0 ==> n >= 0 && trunc_rem(res * pow(x as int, n as nat), mm) == trunc_rem(
                pow(x0, n0 as nat),
                mm,
            ),
        decreases n,
    {
        let ghost res_before = res as int;
        let ghost x_before = x as int;
        let ghost n_before = n as nat;
        let ghost half = (n / 2) as nat;
        proof {
            assert(n & 1 == 1 <==> n % 2 == 1) by (bit_vector)
                requires
                    n > 0,
            ;
            assert(n >> 1 == n / 2) by (bit_vector)
                requires
                    n > 0,
            ;
            assert(-9223372030926249001 <= res * x <= 9223372030926249001
                && -9223372030926249001 <= x * x <= 9223372030926249001) by (nonlinear_arith)
                requires
                    -3037000499 <= x <= 3037000499,
                    -3037000499 <= res <= 3037000499,
            ;
            lemma_trunc_rem_ignores_sign(res_before * x_before, m as int);
            lemma_trunc_rem_ignores_sign(x_before * x_before, m as int);
        }
        if n & 1 == 1 {
            res = (res * x) % m;
        }
        x = (x * x) % m;
        n = n >> 1;
        proof {
            lemma_trunc_rem_bound(res_before * x_before, mm);
            lemma_trunc_rem_bound(x_before * x_before, mm);
            let sq = x_before * x_before;
            assert(pow(x_before, 2 * half) == pow(sq, half)) by {
                lemma_pow_distributes(x_before, x_before, half);
                lemma_pow_adds(x_before, half, half);
            }
            if n_before % 2 == 1 {
                assert(pow(x_before, n_before) == x_before * pow(sq, half)) by {
                    lemma_pow_adds(x_before, 1, 2 * half);
                    lemma_pow1(x_before);
                }
                assert(res_before * (x_before * pow(sq, half)) == (res_before * x_before) * pow(
                    sq,
                    half,
                )) by (nonlinear_arith);
                lemma_trunc_rem_of_product(res_before * x_before, pow(x as int, half), mm);
                lemma_trunc_rem_of_power(res_before * x_before, sq, half, mm);
            } else {
                lemma_trunc_rem_of_power(res_before, sq, half, mm);
            }
        }
    }
    proof {
        if n0 > 0 {
            lemma_pow0(x as int);
        }
    }
    res
}

/// Where `m` divides `x` and `y`, it divides `x - t * y`.
proof fn lemma_multiples_combine(x: int, y: int, t: int, m: int)
    requires
        m > 0,
        x % m == 0,
        y % m == 0,
    ensures
        (x - t * y) % m == 0,
{
    lemma_fundamental_div_mod(x, m);
    lemma_fundamental_div_mod(y, m);
    let k = x / m - t * (y / m);
    assert(x - t * y == m * k + 0) by (nonlinear_arith)
        requires
            x == m * (x / m),
            y == m * (y / m),
            k == x / m - t * (y / m),
    ;
    lemma_mod_multiples_vanish(k, 0, m);
    lemma_small_mod(0, m as nat);
}

/// The coefficient that the extended algorithm of Euclid ends with when it
/// starts from the remainders `a`, `b` with the coefficients `u`, `v`.
pub open spec fn euclid_coefficient(a: int, b: int, u: int, v: int) -> int
    decreases b,
{
    if b <= 0 {
        u
    } else {
        euclid_coefficient(b, a % b, v, u - (a / b) * v)
    }
}

/// What `mod_inv` yields: for a positive `m`, the coefficient of `a` that
/// Euclid's extended algorithm finds for `a` and `m`, brought into `[0, m)`,
/// and zero for a negative `a`; for a negative `m`, the truncating remainder
/// of one.
pub open spec fn mod_inv_spec(a: int, m: int) -> int {
    if m < 0 {
        trunc_rem(1, m)
    } else if a < 0 {
        0
    } else {
        euclid_coefficient(a, m, 1, 0) % m
    }
}

/// The inverse of `a` modulo `m`, where `m` is positive, `a` is not negative
/// and the two have no common divisor but one: the value in `[0, m)` whose
/// product with `a` leaves the remainder of their greatest common divisor.
pub fn mod_inv(a: i64, m: i64) -> (r: i64)
    requires
        m != 0,
    ensures
        r == mod_inv_spec(a as int, m as int),
        m > 0 ==> 0 <= r < m,
        m > 0 && a >= 0 ==> (a * r) % (m as int) == gcd_spec(a as int, m as int) % (m as int),
{
    let ghost a0 = a as int;
    let ghost mi = m as int;
    let mut a: i64 = a;
    let mut b: i64 = m;
    let mut u: i64 = 1;
    let mut v: i64 = 0;
    let ghost regular = a0 >= 0 && mi > 0;
    proof {
        if regular {
            lemma_small_mod(0, m as nat);
            assert((0 * a0 - mi) % mi == 0) by {
                lemma_mod_multiples_vanish(-1, 0, mi);
            }
            assert(magnitude(1) * mi + magnitude(0) * a0 == mi) by (nonlinear_arith);
        }
    }
    while b > 0
        invariant
            mi == m,
            m != 0,
            regular == (a0 >= 0 && mi > 0),
            regular ==> a >= 0 && b >= 0,
            regular ==> gcd_spec(a as int, b as int) == gcd_spec(a0, mi),
            regular ==> euclid_coefficient(a as int, b as int, u as int, v as int)
                == euclid_coefficient(a0, mi, 1, 0),
            regular ==> (u * a0 - a) % mi == 0 && (v * a0 - b) % mi == 0,
            regular ==> (u >= 0 && v <= 0) || (u <= 0 && v >= 0),
            regular ==> magnitude(u as int) * b + magnitude(v as int) * a == mi,
            !regular ==> (a == a0 && b == m && u == 1 && v == 0) || (b <= 0 && u == 0 && m > 0),
        decreases
            if b > 0 {
                b as int
            } else {
                0
            },
    {
        let ghost ua = magnitude(u as int);
        let ghost va = magnitude(v as int);
        let ghost a1 = a as int;
        let ghost b1 = b as int;
        let ghost u1 = u as int;
        let ghost v1 = v as int;
        let t = a / b;
        proof {
            if regular {
                lemma_fundamental_div_mod(a1, b1);
                vstd::arithmetic::div_mod::lemma_mod_bound(a1, b1);
                let ti = t as int;
                assert(0 <= ti * b1 <= a1 && ti >= 0) by (nonlinear_arith)
                    requires
                        a1 == b1 * ti + a1 % b1,
                        0 <= a1 % b1 < b1,
                        a1 >= 0,
                ;
                assert(ti * va <= mi && ua + ti * va <= mi && va * (a1 - ti * b1) + (ua + ti * va) * b1
                    == mi && ti * va >= 0) by (nonlinear_arith)
                    requires
                        ua * b1 + va * a1 == mi,
                        0 <= ti * b1 <= a1,
                        b1 >= 1,
                        ti >= 0,
                        ua >= 0,
                        va >= 0,
                ;
                assert(magnitude(ti * v1) == ti * va && magnitude(u1 - ti * v1) == ua + ti * va) by (nonlinear_arith)
                    requires
                        ti >= 0,
                        va == magnitude(v1),
                        ua == magnitude(u1),
                        (u1 >= 0 && v1 <= 0) || (u1 <= 0 && v1 >= 0),
                ;
                assert((v1 <= 0 && u1 - ti * v1 >= 0) || (v1 >= 0 && u1 - ti * v1 <= 0)) by (nonlinear_arith)
                    requires
                        ti >= 0,
                        (u1 >= 0 && v1 <= 0) || (u1 <= 0 && v1 >= 0),
                ;
                lemma_multiples_combine(u1 * a0 - a1, v1 * a0 - b1, ti, mi);
                assert((u1 - ti * v1) * a0 - (a1 - ti * b1) == (u1 * a0 - a1) - ti * (v1 * a0 - b1))
                    by (nonlinear_arith);
                assert(trunc_rem(a1, b1) == a1 - ti * b1);
            } else {
                // a negative number over a positive modulus: the one step that is taken
                crate::integer::lemma_trunc_div_rem(a1, b1);
                let ti = t as int;
                assert(ti * 0 == 0 && ti * b1 == a1 - trunc_rem(a1, b1)) by (nonlinear_arith)
                    requires
                        a1 == b1 * ti + trunc_rem(a1, b1),
                ;
            }
        }
        a = a - t * b;
        std::mem::swap(&mut a, &mut b);
        u = u - t * v;
        std::mem::swap(&mut u, &mut v);
    }
    let ghost g = a as int;
    let ghost u1 = u as int;
    proof {
        crate::integer::lemma_trunc_div_rem(u1, mi);
        if !regular && mi > 0 {
            lemma_small_mod(0, m as nat);
        }
    }
    u = u % m;
    if u < 0 {
        u = u + m;
    }
    proof {
        if regular {
            crate::integer::lemma_trunc_div_rem(u1, mi);
            let r = u as int;
            let k = if trunc_rem(u1, mi) < 0 {
                crate::integer::trunc_div(u1, mi) - 1
            } else {
                crate::integer::trunc_div(u1, mi)
            };
            assert(r == u1 % mi) by {
                if u1 < 0 {
                    lemma_fundamental_div_mod(-u1, mi);
                    lemma_mod_bound(-u1, mi);
                    let q = (-u1) / mi;
                    let pr = (-u1) % mi;
                    if pr == 0 {
                        assert(u1 == mi * (-q) + 0) by (nonlinear_arith)
                            requires
                                -u1 == mi * q + pr,
                                pr == 0,
                        ;
                        lemma_mod_multiples_vanish(-q, 0, mi);
                    } else {
                        assert(u1 == mi * (-q - 1) + (mi - pr)) by (nonlinear_arith)
                            requires
                                -u1 == mi * q + pr,
                        ;
                        lemma_mod_multiples_vanish(-q - 1, mi - pr, mi);
                        lemma_small_mod((mi - pr) as nat, mi as nat);
                    }
                }
            }
            assert(r == u1 - mi * k) by (nonlinear_arith)
                requires
                    u1 == mi * crate::integer::trunc_div(u1, mi) + trunc_rem(u1, mi),
                    r == if trunc_rem(u1, mi) < 0 {
                        trunc_rem(u1, mi) + mi
                    } else {
                        trunc_rem(u1, mi)
                    },
                    k == if trunc_rem(u1, mi) < 0 {
                        crate::integer::trunc_div(u1, mi) - 1
                    } else {
                        crate::integer::trunc_div(u1, mi)
                    },
            ;
            assert((mi * a0) % mi == 0) by {
                lemma_mod_multiples_vanish(a0, 0, mi);
                lemma_small_mod(0, m as nat);
            }
            lemma_multiples_combine(u1 * a0 - g, mi * a0, k, mi);
            assert(a0 * r - g == (u1 * a0 - g) - k * (mi * a0)) by (nonlinear_arith)
                requires
                    r == u1 - mi * k,
            ;
            lemma_mod_equivalence(a0 * r, g, mi);
        }
    }
    u
}

/// The product of two values below `MAX_MODULUS` fits in an `i64`.
proof fn lemma_residues_multiply(x: int, y: int)
    requires
        0 <= x < MAX_MODULUS,
        0 <= y < MAX_MODULUS,
    ensures
        0 <= x * y <= 9223372030926249001,
{
    assert(0 <= x * y <= 9223372030926249001) by (nonlinear_arith)
        requires
            0 <= x <= 3037000499,
            0 <= y <= 3037000499,
    ;
}

/// A residue modulo a positive integer.
#[derive(Clone, Copy, Debug)]
pub struct ModInt {
    value: i64,
    modulo: i64,
}

impl ModInt {
    #[verifier::type_invariant]
    spec fn well_formed(self) -> bool {
        0 < self.modulo <= MAX_MODULUS && 0 <= self.value < self.modulo
    }

    /// The residue, in `[0, modulo)`.
    pub closed spec fn value(self) -> int {
        self.value as int
    }

    /// The modulus.
    pub closed spec fn modulo(self) -> int {
        self.modulo as int
    }

    /// The residue of `value` modulo `modulo`.
    pub closed spec fn residue(value: int, modulo: int) -> ModInt {
        ModInt { value: (value % modulo) as i64, modulo: modulo as i64 }
    }

    /// What `residue` holds.
    pub proof fn lemma_residue(value: int, modulo: int)
        requires
            0 < modulo <= MAX_MODULUS,
        ensures
            Self::residue(value, modulo).value() == value % modulo,
            Self::residue(value, modulo).modulo() == modulo,
    {
        lemma_mod_bound(value, modulo);
    }

    /// The residue of `value` modulo `modulo`.
    pub fn new(value: i64, modulo: i64) -> (r: Self)
        requires
            0 < modulo <= MAX_MODULUS,
        ensures
            r == Self::residue(value as int, modulo as int),
    {
        let r = value % modulo;
        proof {
            lemma_trunc_rem_bound(value as int, modulo as int);
            lemma_mod_bound(value as int, modulo as int);
            if value < 0 {
                // -((-value) % modulo) and value % modulo differ by a multiple of modulo
                lemma_fundamental_div_mod(-value, modulo as int);
                let q = (-value) / (modulo as int);
                let pr = (-value) % (modulo as int);
                if pr == 0 {
                    assert(value == modulo * (-q) + 0) by (nonlinear_arith)
                        requires
                            -value == modulo * q + pr,
                            pr == 0,
                    ;
                    lemma_mod_multiples_vanish(-q, 0, modulo as int);
                    lemma_small_mod(0, modulo as nat);
                } else {
                    assert(value == modulo * (-q - 1) + (modulo - pr)) by (nonlinear_arith)
                        requires
                            -value == modulo * q + pr,
                    ;
                    lemma_mod_multiples_vanish(-q - 1, modulo - pr, modulo as int);
                    lemma_small_mod((modulo - pr) as nat, modulo as nat);
                }
            }
        }
        Self { value: if r < 0 { r + modulo } else { r }, modulo }
    }

    /// Whether the residue is `other`.
    pub fn is_scalar(&self, other: i64) -> (r: bool)
        ensures
            r == (self.value() == other),
    {
        self.value == other
    }

    /// The residue of the sum with `other`.
    pub fn add_scalar(self, other: i64) -> (r: Self)
        ensures
            r == Self::residue(self.value() + other, self.modulo()),
    {
        proof {
            use_type_invariant(self);
            lemma_add_mod_noop_right(self.value as int, other as int, self.modulo as int);
        }
        self + Self::new(other, self.modulo)
    }

    /// The residue of the difference with `other`.
    pub fn sub_scalar(self, other: i64) -> (r: Self)
        ensures
            r == Self::residue(self.value() - other, self.modulo()),
    {
        proof {
            use_type_invariant(self);
            lemma_sub_mod_noop_right(self.value as int, other as int, self.modulo as int);
        }
        self - Self::new(other, self.modulo)
    }

    /// The residue of the product with `other`.
    pub fn mul_scalar(self, other: i64) -> (r: Self)
        ensures
            r == Self::residue(self.value() * other, self.modulo()),
    {
        proof {
            use_type_invariant(self);
            lemma_mul_mod_noop_right(self.value as int, other as int, self.modulo as int);
        }
        self * Self::new(other, self.modulo)
    }

    /// The residue of the product with the inverse of `other` as `mod_inv`
    /// yields it.
    pub fn div_scalar(self, other: i64) -> (r: Self)
        ensures
            r == Self::residue(
                self.value() * mod_inv_spec(other as int, self.modulo()),
                self.modulo(),
            ),
    {
        proof {
            use_type_invariant(self);
        }
        let inv = mod_inv(other, self.modulo);
        proof {
            lemma_residues_multiply(self.value as int, inv as int);
        }
        Self::new(self.value * inv, self.modulo)
    }
}

impl AddSpecImpl for ModInt {
    open spec fn obeys_add_spec() -> bool {
        true
    }

    open spec fn add_req(self, other: ModInt) -> bool {
        true
    }

    open spec fn add_spec(self, other: ModInt) -> ModInt {
        ModInt::residue(self.value() + other.value(), self.modulo())
    }
}

impl std::ops::Add for ModInt {
    type Output = Self;

    fn add(self, other: Self) -> Self {
        proof {
            use_type_invariant(self);
            use_type_invariant(other);
        }
        Self::new(self.value + other.value, self.modulo)
    }
}

impl SubSpecImpl for ModInt {
    open spec fn obeys_sub_spec() -> bool {
        true
    }

    open spec fn sub_req(self, other: ModInt) -> bool {
        true
    }

    open spec fn sub_spec(self, other: ModInt) -> ModInt {
        ModInt::residue(self.value() - other.value(), self.modulo())
    }
}

impl std::ops::Sub for ModInt {
    type Output = Self;

    fn sub(self, other: Self) -> Self {
        proof {
            use_type_invariant(self);
            use_type_invariant(other);
        }
        Self::new(self.value - other.value, self.modulo)
    }
}

impl MulSpecImpl for ModInt {
    open spec fn obeys_mul_spec() -> bool {
        true
    }

    open spec fn mul_req(self, other: ModInt) -> bool {
        true
    }

    open spec fn mul_spec(self, other: ModInt) -> ModInt {
        ModInt::residue(self.value() * other.value(), self.modulo())
    }
}

impl std::ops::Mul for ModInt {
    type Output = Self;

    fn mul(self, other: Self) -> Self {
        proof {
            use_type_invariant(self);
            use_type_invariant(other);
            lemma_residues_multiply(self.value as int, other.value as int);
        }
        Self::new(self.value * other.value, self.modulo)
    }
}

impl DivSpecImpl for ModInt {
    open spec fn obeys_div_spec() -> bool {
        true
    }

    open spec fn div_req(self, other: ModInt) -> bool {
        true
    }

    open spec fn div_spec(self, other: ModInt) -> ModInt {
        ModInt::residue(self.value() * mod_inv_spec(other.value(), self.modulo()), self.modulo())
    }
}

impl std::ops::Div for ModInt {
    type Output = Self;

    fn div(self, other: Self) -> Self {
        proof {
            use_type_invariant(self);
            use_type_invariant(other);
        }
        let inv = mod_inv(other.value, self.modulo);
        proof {
            lemma_residues_multiply(self.value as int, inv as int);
        }
        Self::new(self.value * inv, self.modulo)
    }
}

impl std::ops::AddAssign for ModInt {
    fn add_assign(&mut self, other: Self)
        ensures
            *final(self) == ModInt::residue(old(self).value() + other.value(), old(self).modulo()),
    {
        *self = *self + other;
    }
}

impl std::ops::SubAssign for ModInt {
    fn sub_assign(&mut self, other: Self)
        ensures
            *final(self) == ModInt::residue(old(self).value() - other.value(), old(self).modulo()),
    {
        *self = *self - other;
    }
}

impl std::ops::MulAssign for ModInt {
    fn mul_assign(&mut self, other: Self)
        ensures
            *final(self) == ModInt::residue(old(self).value() * other.value(), old(self).modulo()),
    {
        *self = *self * other;
    }
}

impl std::ops::DivAssign for ModInt {
    fn div_assign(&mut self, other: Self)
        ensures
            *final(self) == ModInt::residue(
                old(self).value() * mod_inv_spec(other.value(), old(self).modulo()),
                old(self).modulo(),
            ),
    {
        *self = *self / other;
    }
}

} // verus!

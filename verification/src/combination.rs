//! Binomial coefficients modulo a number, from tables of factorials and of
//! their inverses.

use vstd::prelude::*;
use vstd::arithmetic::div_mod::{lemma_fundamental_div_mod, lemma_mod_bound, lemma_small_mod};
use crate::integer::lemma_same_remainder;
use crate::prime::is_prime;

verus! {

/// The largest table that `Comb::new` builds.
pub const MAX_TABLE_SIZE: usize = 10_000_000;

/// The smallest table that `Comb::new` builds.
pub const MIN_TABLE_SIZE: usize = 10;

/// The number of entries of the tables that `Comb::new` builds for
/// `max_size`.
pub open spec fn table_size(max_size: usize) -> usize {
    if max_size < MIN_TABLE_SIZE {
        MIN_TABLE_SIZE
    } else {
        max_size
    }
}

/// The factorial of `i`, reduced modulo `m` after each multiplication.
pub open spec fn factorial_mod(i: nat, m: nat) -> nat
    decreases i,
{
    if i <= 1 {
        1
    } else {
        factorial_mod((i - 1) as nat, m) * i % m
    }
}

/// The table entry for the inverse of `i` modulo `m`: for a prime `m` and
/// `0 < i < m` the inverse of `i`.
pub open spec fn inverse_mod(i: nat, m: nat) -> nat
    decreases i,
{
    if i == 0 {
        0
    } else if i == 1 {
        1
    } else if m == 0 {
        0
    } else {
        (m - inverse_mod(m % i, m) * (m / i) % m) as nat
    }
}

/// The product of the table entries for the inverses of `1` to `i`, reduced
/// modulo `m` after each multiplication.
pub open spec fn factorial_inverse_mod(i: nat, m: nat) -> nat
    decreases i,
{
    if i <= 1 {
        1
    } else {
        factorial_inverse_mod((i - 1) as nat, m) * inverse_mod(i, m) % m
    }
}

/// What `Comb::calc` yields for `n` and `k`.
pub open spec fn binomial_mod(n: nat, k: nat, m: nat) -> nat {
    if n < k {
        0
    } else {
        factorial_mod(n, m) * (factorial_inverse_mod(k, m) * factorial_inverse_mod(
            (n - k) as nat,
            m,
        ) % m) % m
    }
}

/// The table entries are at most the modulus.
pub proof fn lemma_tables_bounded(i: nat, m: nat)
    requires
        m >= 1,
    ensures
        factorial_mod(i, m) <= m,
        inverse_mod(i, m) <= m,
        factorial_inverse_mod(i, m) <= m,
    decreases i,
{
    if i >= 2 {
        lemma_tables_bounded((i - 1) as nat, m);
        lemma_tables_bounded(m % i, m);
        assert((factorial_mod((i - 1) as nat, m) * i) % m < m);
        assert((inverse_mod(m % i, m) * (m / i)) % m < m);
        assert((factorial_inverse_mod((i - 1) as nat, m) * inverse_mod(i, m)) % m < m);
    }
}

/// The factorial of `i`.
pub open spec fn factorial(i: nat) -> nat
    decreases i,
{
    if i <= 1 {
        1
    } else {
        factorial((i - 1) as nat) * i
    }
}

/// The remainder of a product is that of the product of the remainders.
proof fn lemma_product_of_remainders(a: int, b: int, ra: int, rb: int, m: int)
    requires
        m > 0,
        a % m == ra % m,
        b % m == rb % m,
    ensures
        (a * b) % m == (ra * rb) % m,
{
    vstd::arithmetic::div_mod::lemma_mul_mod_noop_general(a, b, m);
    vstd::arithmetic::div_mod::lemma_mul_mod_noop_general(ra, rb, m);
}

/// The table of factorials holds the factorials' remainders.
pub proof fn lemma_factorial_mod(i: nat, m: nat)
    requires
        m >= 2,
    ensures
        factorial_mod(i, m) == factorial(i) % m,
    decreases i,
{
    if i <= 1 {
        lemma_small_mod(1, m);
    } else {
        let before = (i - 1) as nat;
        lemma_factorial_mod(before, m);
        vstd::arithmetic::div_mod::lemma_mod_twice(factorial(before) as int, m as int);
        vstd::arithmetic::div_mod::lemma_mod_twice(i as int, m as int);
        lemma_product_of_remainders(
            factorial_mod(before, m) as int,
            i as int,
            factorial(before) as int,
            i as int,
            m as int,
        );
    }
}

/// Modulo a prime, the table of inverses holds inverses: the product of
/// `i` with its entry leaves one.
pub proof fn lemma_inverse_mod(i: nat, m: nat)
    requires
        is_prime(m as int),
        1 <= i < m,
    ensures
        (inverse_mod(i, m) * i) % m == 1,
    decreases i,
{
    let mi = m as int;
    if i == 1 {
        lemma_small_mod(1, m);
    } else {
        let r = m % i;
        let q = m / i;
        lemma_fundamental_div_mod(mi, i as int);
        lemma_mod_bound(mi, i as int);
        assert(mi % (i as int) != 0);
        lemma_inverse_mod(r, m);
        let v = inverse_mod(r, m) as int;
        let t = v * q;
        lemma_fundamental_div_mod(t, mi);
        lemma_mod_bound(t, mi);
        lemma_fundamental_div_mod(v * r, mi);
        let k = t / mi;
        let j = (v * r) / mi;
        let w = inverse_mod(i, m) as int;
        assert(w == mi - t % mi);
        let ii = i as int;
        assert(w * ii == 1 + mi * (ii - v + k * ii + j)) by (nonlinear_arith)
            requires
                w == mi - t % mi,
                t == mi * k + t % mi,
                t == v * q,
                mi == ii * q + r,
                v * r == mi * j + 1,
        ;
        lemma_same_remainder(w * ii, 1, ii - v + k * ii + j, mi);
        lemma_small_mod(1, m);
    }
}

/// Modulo a prime, the table of the factorials' inverses holds inverses:
/// the product of the two entries for a number below the modulus leaves
/// one.
pub proof fn lemma_factorial_inverse_mod(i: nat, m: nat)
    requires
        is_prime(m as int),
        i < m,
    ensures
        (factorial_inverse_mod(i, m) * factorial_mod(i, m)) % m == 1,
    decreases i,
{
    let mi = m as int;
    if i <= 1 {
        lemma_small_mod(1, m);
    } else {
        let before = (i - 1) as nat;
        lemma_factorial_inverse_mod(before, m);
        lemma_inverse_mod(i, m);
        let a = factorial_inverse_mod(before, m) as int;
        let b = factorial_mod(before, m) as int;
        let v = inverse_mod(i, m) as int;
        let ii = i as int;
        vstd::arithmetic::div_mod::lemma_mod_twice(a * v, mi);
        vstd::arithmetic::div_mod::lemma_mod_twice(b * ii, mi);
        lemma_product_of_remainders((a * v) % mi, (b * ii) % mi, a * v, b * ii, mi);
        assert((a * v) * (b * ii) == (a * b) * (v * ii)) by (nonlinear_arith);
        lemma_small_mod(1, m);
        lemma_product_of_remainders(a * b, v * ii, 1, 1, mi);
        assert(factorial_inverse_mod(i, m) == (a * v) % mi);
        assert(factorial_mod(i, m) == (b * ii) % mi);
        assert(((a * v) % mi) * ((b * ii) % mi) % mi == ((a * v) * (b * ii)) % mi);
        assert(((a * b) * (v * ii)) % mi == (1int * 1int) % mi);
    }
}

/// Modulo a prime above `n`, what `Comb::calc` yields for `k <= n` is the
/// number of ways to choose `k` of `n`: its product with the factorials of
/// `k` and of `n - k` leaves what the factorial of `n` leaves.
pub proof fn lemma_binomial_mod(n: nat, k: nat, m: nat)
    requires
        is_prime(m as int),
        k <= n < m,
    ensures
        (binomial_mod(n, k, m) * (factorial(k) * factorial((n - k) as nat))) % m == factorial(n) % m,
{
    let mi = m as int;
    let rest = (n - k) as nat;
    lemma_factorial_mod(n, m);
    lemma_factorial_mod(k, m);
    lemma_factorial_mod(rest, m);
    lemma_factorial_inverse_mod(k, m);
    lemma_factorial_inverse_mod(rest, m);
    let fn_ = factorial_mod(n, m) as int;
    let fk = factorial_mod(k, m) as int;
    let fr = factorial_mod(rest, m) as int;
    let ik = factorial_inverse_mod(k, m) as int;
    let ir = factorial_inverse_mod(rest, m) as int;
    lemma_small_mod(1, m);
    // the two pairs of entries leave one
    lemma_product_of_remainders(ik * fk, ir * fr, 1, 1, mi);
    assert((ik * fk) * (ir * fr) == (ik * ir) * (fk * fr)) by (nonlinear_arith);
    // the inner remainder and the outer one
    let inner = (ik * ir) % mi;
    vstd::arithmetic::div_mod::lemma_mod_twice(ik * ir, mi);
    let outer = binomial_mod(n, k, m) as int;
    assert(outer == (fn_ * inner) % mi);
    vstd::arithmetic::div_mod::lemma_mod_twice(fn_ * inner, mi);
    vstd::arithmetic::div_mod::lemma_mod_twice(fn_, mi);
    lemma_product_of_remainders(fn_, inner, fn_, ik * ir, mi);
    // outer * (fk * fr) leaves what fn_ * ((ik * ir) * (fk * fr)) leaves, which is what fn_ leaves
    vstd::arithmetic::div_mod::lemma_mod_twice(fk * fr, mi);
    lemma_product_of_remainders(outer, fk * fr, fn_ * (ik * ir), fk * fr, mi);
    assert((fn_ * (ik * ir)) * (fk * fr) == fn_ * ((ik * ir) * (fk * fr))) by (nonlinear_arith);
    lemma_product_of_remainders(fn_, (ik * ir) * (fk * fr), fn_, 1, mi);
    assert(fn_ * 1 == fn_) by (nonlinear_arith);
    // the factorials in place of their remainders
    vstd::arithmetic::div_mod::lemma_mod_twice(factorial(k) as int, mi);
    vstd::arithmetic::div_mod::lemma_mod_twice(factorial(rest) as int, mi);
    lemma_product_of_remainders(fk, fr, factorial(k) as int, factorial(rest) as int, mi);
    lemma_product_of_remainders(
        outer,
        fk * fr,
        outer,
        factorial(k) as int * factorial(rest) as int,
        mi,
    );
    vstd::arithmetic::div_mod::lemma_mod_twice(factorial(n) as int, mi);
}

/// Tables from which binomial coefficients modulo a number follow in
/// constant time.
pub struct Comb {
    max_size: usize,
    modulo: usize,
    factorical_table: Vec<usize>,
    factorical_inverse_table: Vec<usize>,
    inverse_table: Vec<usize>,
}

impl Comb {
    /// The number of entries of each table.
    pub closed spec fn max_size(&self) -> nat {
        self.max_size as nat
    }

    /// The modulus.
    pub closed spec fn modulo(&self) -> nat {
        self.modulo as nat
    }

    /// The tables hold what their definitions say.
    pub closed spec fn wf(&self) -> bool {
        &&& self.modulo >= 1
        &&& self.modulo * self.modulo <= usize::MAX
        &&& self.factorical_table@.len() == self.max_size
        &&& self.factorical_inverse_table@.len() == self.max_size
        &&& self.inverse_table@.len() == self.max_size
        &&& forall|i: int|
            0 <= i < self.max_size ==> #[trigger] self.factorical_table@[i] == factorial_mod(
                i as nat,
                self.modulo as nat,
            )
        &&& forall|i: int|
            0 <= i < self.max_size ==> #[trigger] self.factorical_inverse_table@[i]
                == factorial_inverse_mod(i as nat, self.modulo as nat)
        &&& forall|i: int|
            0 <= i < self.max_size ==> #[trigger] self.inverse_table@[i] == inverse_mod(
                i as nat,
                self.modulo as nat,
            )
    }

    /// Tables of `max_size` entries, and of ten where `max_size` is less.
    pub fn new(max_size: usize, modulo: usize) -> (c: Self)
        requires
            max_size <= MAX_TABLE_SIZE,
            modulo >= 1,
            modulo * modulo <= usize::MAX,
            modulo * table_size(max_size) <= usize::MAX,
        ensures
            c.wf(),
            c.modulo() == modulo,
            c.max_size() == table_size(max_size),
    {
        let max_size = if max_size < 10 {
            10
        } else {
            max_size
        };
        let mut factorical_table: Vec<usize> = vec![0; max_size];
        let mut factorical_inverse_table: Vec<usize> = vec![0; max_size];
        let mut inverse_table: Vec<usize> = vec![0; max_size];
        factorical_table.set(0, 1);
        factorical_table.set(1, 1);
        factorical_inverse_table.set(0, 1);
        factorical_inverse_table.set(1, 1);
        inverse_table.set(1, 1);
        let ghost m = modulo as nat;
        let mut i: usize = 2;
        while i < max_size
            invariant
                2 <= i <= max_size <= MAX_TABLE_SIZE,
                m == modulo,
                modulo >= 1,
                modulo * modulo <= usize::MAX,
                modulo * max_size <= usize::MAX,
                factorical_table@.len() == max_size,
                factorical_inverse_table@.len() == max_size,
                inverse_table@.len() == max_size,
                forall|j: int| 0 <= j < i ==> #[trigger] factorical_table@[j] == factorial_mod(j as nat, m),
                forall|j: int|
                    0 <= j < i ==> #[trigger] factorical_inverse_table@[j] == factorial_inverse_mod(
                        j as nat,
                        m,
                    ),
                forall|j: int| 0 <= j < i ==> #[trigger] inverse_table@[j] == inverse_mod(j as nat, m),
            decreases max_size - i,
        {
            proof {
                lemma_tables_bounded((i - 1) as nat, m);
                lemma_tables_bounded((modulo % i) as nat, m);
                lemma_tables_bounded(i as nat, m);
                let f = factorial_mod((i - 1) as nat, m);
                let v = inverse_mod((modulo % i) as nat, m);
                let g = factorial_inverse_mod((i - 1) as nat, m);
                let w = inverse_mod(i as nat, m);
                let q = (modulo / i) as nat;
                assert(f * i <= m * max_size) by (nonlinear_arith)
                    requires
                        f <= m,
                        i <= max_size,
                ;
                assert(v * q <= m * m) by (nonlinear_arith)
                    requires
                        v <= m,
                        q <= m,
                ;
                assert(g * w <= m * m) by (nonlinear_arith)
                    requires
                        g <= m,
                        w <= m,
                ;
            }
            let fact = factorical_table[i - 1] * i % modulo;
            factorical_table.set(i, fact);
            let inv = modulo - inverse_table[modulo % i] * (modulo / i) % modulo;
            inverse_table.set(i, inv);
            let fact_inv = factorical_inverse_table[i - 1] * inverse_table[i] % modulo;
            factorical_inverse_table.set(i, fact_inv);
            i = i + 1;
        }
        Self { max_size, modulo, factorical_table, factorical_inverse_table, inverse_table }
    }

    /// The number of ways to choose `k` of `n`, modulo a prime modulus that
    /// is larger than `n`; zero where `n < k`.
    pub fn calc(&self, n: usize, k: usize) -> (r: usize)
        requires
            self.wf(),
            k <= n ==> n < self.max_size(),
        ensures
            r == binomial_mod(n as nat, k as nat, self.modulo()),
    {
        if n < k {
            0
        } else {
            proof {
                let m = self.modulo as nat;
                lemma_tables_bounded(n as nat, m);
                lemma_tables_bounded(k as nat, m);
                lemma_tables_bounded((n - k) as nat, m);
                let a = factorial_inverse_mod(k as nat, m);
                let b = factorial_inverse_mod((n - k) as nat, m);
                let f = factorial_mod(n as nat, m);
                assert(a * b <= m * m) by (nonlinear_arith)
                    requires
                        a <= m,
                        b <= m,
                ;
                let c = a * b % m;
                assert(f * c <= m * m) by (nonlinear_arith)
                    requires
                        f <= m,
                        c <= m,
                ;
            }
            self.factorical_table[n] * (self.factorical_inverse_table[k]
                * self.factorical_inverse_table[n - k] % self.modulo) % self.modulo
        }
    }
}

} // verus!

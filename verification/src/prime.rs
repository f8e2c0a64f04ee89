//! Primes: the sieve of Eratosthenes and factorization by trial division.

use vstd::prelude::*;
use std::collections::{HashMap, VecDeque};
use vstd::arithmetic::power::pow;
use vstd::arithmetic::power2::{lemma2_to64, lemma_pow2_strictly_increases, lemma_pow2_unfold, pow2};
use vstd::std_specs::hash::obeys_key_model;
use crate::integer::{has_value, is_increasing, is_sqrt_floor, lemma_square_is_monotonic, square, Int};

verus! {

/// `p` is a prime number.
pub open spec fn is_prime(p: int) -> bool {
    p >= 2 && forall|d: int| 2 <= d < p ==> #[trigger] (p % d) != 0
}

/// No number from two to `bound` divides `x`.
pub open spec fn is_unsieved(x: int, bound: int) -> bool {
    forall|d: int| 2 <= d <= bound ==> #[trigger] (x % d) != 0
}

/// Every prime below `p` has a square of at most `n`: the sieve reaches `p`.
pub open spec fn is_reached(p: int, n: int) -> bool {
    forall|q: int| is_prime(q) && q < p ==> #[trigger] square(q) <= n
}

/// The square of every prime that the sieve reaches is a value of a type
/// whose greatest value is `highest`.
pub open spec fn primes_fit(n: int, highest: int) -> bool {
    forall|p: int| is_prime(p) && p <= n && is_reached(p, n) ==> #[trigger] square(p) <= highest
}

/// The sieve stays within a type that holds the square of `n`.
pub proof fn lemma_primes_fit(n: int, highest: int)
    requires
        square(n) <= highest,
    ensures
        primes_fit(n, highest),
{
    assert forall|p: int| is_prime(p) && p <= n && is_reached(p, n) implies #[trigger] square(p)
        <= highest by {
        lemma_square_is_monotonic(p, n);
    }
}

/// What divides a divisor of `x` divides `x`.
pub proof fn lemma_divides_transitive(e: int, d: int, x: int)
    requires
        e >= 1,
        d >= 1,
        d % e == 0,
        x % d == 0,
    ensures
        x % e == 0,
{
    vstd::arithmetic::div_mod::lemma_fundamental_div_mod(d, e);
    vstd::arithmetic::div_mod::lemma_fundamental_div_mod(x, d);
    let j = d / e;
    let k = x / d;
    assert(x == (j * k) * e + 0) by (nonlinear_arith)
        requires
            d == e * j,
            x == d * k,
    ;
    vstd::arithmetic::div_mod::lemma_fundamental_div_mod_converse(x, e, j * k, 0);
}

/// A number from two on that nothing from two to `bound` divides, and that
/// is less than the square of `bound + 1`, is prime.
pub proof fn lemma_unsieved_is_prime(x: int, bound: int)
    requires
        x >= 2,
        bound >= 0,
        is_unsieved(x, bound),
        x < square(bound + 1),
    ensures
        is_prime(x),
{
    assert forall|d: int| 2 <= d < x implies #[trigger] (x % d) != 0 by {
        if x % d == 0 {
            vstd::arithmetic::div_mod::lemma_fundamental_div_mod(x, d);
            let e = x / d;
            assert(e >= 2 && e < x && (d <= bound || e <= bound)) by (nonlinear_arith)
                requires
                    x == d * e,
                    2 <= d < x,
                    x < (bound + 1) * (bound + 1),
                    bound >= 0,
            ;
            assert(x == d * e + 0);
            vstd::arithmetic::div_mod::lemma_fundamental_div_mod_converse(x, e, d, 0);
            if d <= bound {
                assert(x % d != 0);
            } else {
                assert(x % e != 0);
            }
        }
    }
}

/// A prime has no divisor from two to a bound below it.
pub proof fn lemma_prime_is_unsieved(p: int, bound: int)
    requires
        is_prime(p),
        bound < p,
    ensures
        is_unsieved(p, bound),
{
}

/// The numbers of `deque` that `p` does not divide, in their order.
fn sieve_out<T: Int>(deque: &VecDeque<T>, p: T) -> (r: VecDeque<T>)
    requires
        p.value() >= 2,
        forall|i: int| 0 <= i < deque@.len() ==> (#[trigger] deque@[i]).value() >= 0,
        is_increasing(deque@),
    ensures
        is_increasing(r@),
        forall|i: int|
            0 <= i < r@.len() ==> has_value(deque@, (#[trigger] r@[i]).value()) && r@[i].value()
                % p.value() != 0,
        forall|i: int|
            0 <= i < deque@.len() && (#[trigger] deque@[i]).value() % p.value() != 0 ==> has_value(
                r@,
                deque@[i].value(),
            ),
{
    let mut out: VecDeque<T> = VecDeque::new();
    let mut i: usize = 0;
    while i < deque.len()
        invariant
            i <= deque@.len(),
            p.value() >= 2,
            forall|k: int| 0 <= k < deque@.len() ==> (#[trigger] deque@[k]).value() >= 0,
            is_increasing(deque@),
            is_increasing(out@),
            forall|k: int|
                0 <= k < out@.len() ==> has_value(deque@, (#[trigger] out@[k]).value()) && out@[k].value()
                    % p.value() != 0 && (i > 0 && out@[k].value() <= deque@[i - 1].value()),
            forall|k: int|
                0 <= k < i && (#[trigger] deque@[k]).value() % p.value() != 0 ==> has_value(
                    out@,
                    deque@[k].value(),
                ),
        decreases deque@.len() - i,
    {
        let x = deque[i];
        let ghost before = out@;
        proof {
            x.lemma_range();
            p.lemma_range();
            vstd::arithmetic::div_mod::lemma_mod_bound(x.value(), p.value());
        }
        if !x.rem(p).is_zero() {
            out.push_back(x);
            proof {
                assert(out@[out@.len() - 1] == x);
                assert forall|a: int, b: int| 0 <= a < b < out@.len() implies (#[trigger] out@[a]).value()
                    < (#[trigger] out@[b]).value() by {
                    if b == out@.len() - 1 {
                        assert(out@[a] == before[a]);
                        assert(before[a].value() <= deque@[i - 1].value());
                    } else {
                        assert(out@[a] == before[a] && out@[b] == before[b]);
                    }
                }
            }
        }
        proof {
            assert forall|k: int| 0 <= k < out@.len() implies has_value(deque@, (#[trigger] out@[k]).value())
                && out@[k].value() % p.value() != 0 && out@[k].value() <= deque@[i as int].value() by {
                if k < before.len() {
                    assert(out@[k] == before[k]);
                } else {
                    assert(out@[k] == x);
                }
            }
            assert forall|k: int|
                0 <= k < i + 1 && (#[trigger] deque@[k]).value() % p.value() != 0 implies has_value(
                out@,
                deque@[k].value(),
            ) by {
                if k < i {
                    assert(has_value(before, deque@[k].value()));
                    let w = choose|w: int| 0 <= w < before.len() && (#[trigger] before[w]).value() == deque@[k].value();
                    assert(out@[w] == before[w]);
                } else {
                    assert(out@[out@.len() - 1] == x);
                }
            }
        }
        i = i + 1;
    }
    out
}

/// The state of the sieve when `p` has been taken from the front of
/// `deque` and put at the end of `primes`: `primes` holds the primes up to
/// `p`, and `deque` the numbers above `p` up to `n` that nothing from two to
/// below `p` divides.
pub open spec fn is_sieve_state<T: Int>(primes: Seq<T>, deque: Seq<T>, p: int, n: int) -> bool {
    &&& 2 <= p <= n
    &&& is_prime(p)
    &&& primes.len() > 0
    &&& primes.last().value() == p
    &&& is_increasing(primes)
    &&& forall|i: int| 0 <= i < primes.len() ==> is_prime((#[trigger] primes[i]).value())
    &&& forall|i: int| 0 <= i < primes.len() - 1 ==> square((#[trigger] primes[i]).value()) <= n
    &&& forall|q: int| is_prime(q) && q <= p ==> has_value(primes, q)
    &&& is_increasing(deque)
    &&& forall|i: int|
        0 <= i < deque.len() ==> p < (#[trigger] deque[i]).value() <= n && is_unsieved(
            deque[i].value(),
            p - 1,
        )
    &&& forall|x: int| p < x <= n && is_unsieved(x, p - 1) ==> has_value(deque, x)
}

/// The first number left after the multiples of `p` are gone is the next
/// prime, and the sieve is in its state for it.
proof fn lemma_next_prime<T: Int>(primes: Seq<T>, deque: Seq<T>, rest: Seq<T>, p: int, n: int, next: T)
    requires
        is_sieve_state(primes, deque, p, n),
        square(p) <= n,
        is_increasing(rest),
        forall|i: int|
            0 <= i < rest.len() ==> has_value(deque, (#[trigger] rest[i]).value()) && rest[i].value()
                % p != 0,
        forall|i: int|
            0 <= i < deque.len() && (#[trigger] deque[i]).value() % p != 0 ==> has_value(
                rest,
                deque[i].value(),
            ),
        rest.len() > 0,
        next == rest[0],
    ensures
        is_sieve_state(primes.push(next), rest.subrange(1, rest.len() as int), next.value(), n),
{
    let np = next.value();
    let tail = rest.subrange(1, rest.len() as int);
    let more = primes.push(next);
    // What is left has no divisor from two to p.
    assert forall|i: int| 0 <= i < rest.len() implies p < (#[trigger] rest[i]).value() <= n
        && is_unsieved(rest[i].value(), p) by {
        let x = rest[i].value();
        let w = choose|w: int| 0 <= w < deque.len() && (#[trigger] deque[w]).value() == x;
        assert(is_unsieved(deque[w].value(), p - 1));
    }
    // Whatever has no divisor from two to p is left.
    assert forall|x: int| p < x <= n && is_unsieved(x, p) implies has_value(rest, x) by {
        assert(is_unsieved(x, p - 1));
        assert(has_value(deque, x));
        let w = choose|w: int| 0 <= w < deque.len() && (#[trigger] deque[w]).value() == x;
        assert(x % p != 0);
        assert(has_value(rest, deque[w].value()));
    }
    // A number between p and the first one left has a divisor up to p.
    assert forall|x: int, d: int| p < x <= n && is_unsieved(x, p) && p < d < np implies #[trigger] (x
        % d) != 0 by {
        if x % d == 0 {
            if is_unsieved(d, p) {
                assert(has_value(rest, d));
                let w = choose|w: int| 0 <= w < rest.len() && (#[trigger] rest[w]).value() == d;
                if w > 0 {
                    assert(rest[0].value() < rest[w].value());
                }
            } else {
                let e = choose|e: int| 2 <= e <= p && #[trigger] (d % e) == 0;
                lemma_divides_transitive(e, d, x);
                assert(x % e != 0);
            }
        }
    }
    assert(is_unsieved(rest[0].value(), p));
    assert forall|x: int| p < x <= n && is_unsieved(x, p) implies is_unsieved(x, np - 1) by {
        assert forall|d: int| 2 <= d <= np - 1 implies #[trigger] (x % d) != 0 by {
            if d > p {
                assert(p < x <= n && is_unsieved(x, p) && p < d < np);
            }
        }
    }
    assert(is_unsieved(np, np - 1));
    assert(is_prime(np));
    assert(more.last() == next);
    assert forall|a: int, b: int| 0 <= a < b < more.len() implies (#[trigger] more[a]).value() < (
    #[trigger] more[b]).value() by {
        if b == more.len() - 1 {
            assert(more[a] == primes[a]);
            if a < primes.len() - 1 {
                assert(primes[a].value() < primes[primes.len() - 1].value());
            }
        } else {
            assert(more[a] == primes[a] && more[b] == primes[b]);
        }
    }
    assert forall|i: int| 0 <= i < more.len() implies is_prime((#[trigger] more[i]).value()) by {
        if i < primes.len() {
            assert(more[i] == primes[i]);
        }
    }
    assert forall|i: int| 0 <= i < more.len() - 1 implies square((#[trigger] more[i]).value()) <= n by {
        assert(more[i] == primes[i]);
    }
    assert forall|q: int| is_prime(q) && q <= np implies has_value(more, q) by {
        if q <= p {
            assert(has_value(primes, q));
            let w = choose|w: int| 0 <= w < primes.len() && (#[trigger] primes[w]).value() == q;
            assert(more[w] == primes[w]);
        } else if q < np {
            lemma_prime_is_unsieved(q, p);
            assert(has_value(rest, q));
            let w = choose|w: int| 0 <= w < rest.len() && (#[trigger] rest[w]).value() == q;
            if w > 0 {
                assert(rest[0].value() < rest[w].value());
            }
        } else {
            assert(more[more.len() - 1].value() == q);
        }
    }
    assert forall|a: int, b: int| 0 <= a < b < tail.len() implies (#[trigger] tail[a]).value() < (
    #[trigger] tail[b]).value() by {
        assert(tail[a] == rest[a + 1] && tail[b] == rest[b + 1]);
    }
    assert forall|i: int| 0 <= i < tail.len() implies np < (#[trigger] tail[i]).value() <= n
        && is_unsieved(tail[i].value(), np - 1) by {
        assert(tail[i] == rest[i + 1]);
        assert(rest[0].value() < rest[i + 1].value());
    }
    assert forall|x: int| np < x <= n && is_unsieved(x, np - 1) implies has_value(tail, x) by {
        assert(is_unsieved(x, p));
        assert(has_value(rest, x));
        let w = choose|w: int| 0 <= w < rest.len() && (#[trigger] rest[w]).value() == x;
        assert(w > 0);
        assert(tail[w - 1] == rest[w]);
    }
}

/// The product of the powers of `keys` with the exponents that `m` gives
/// them.
pub open spec fn power_product<T: Int>(keys: Seq<T>, m: Map<T, usize>) -> int
    decreases keys.len(),
{
    if keys.len() == 0 {
        1
    } else {
        power_product(keys.drop_last(), m) * pow(keys.last().value(), m[keys.last()] as nat)
    }
}

/// `m` gives the primes that divide `n`, each with a positive exponent, and
/// `n` is the product of their powers.
pub open spec fn is_factorization<T: Int>(m: Map<T, usize>, n: int) -> bool {
    &&& forall|k: T| #[trigger] m.contains_key(k) ==> is_prime(k.value()) && m[k] >= 1
    &&& exists|keys: Seq<T>|
        {
            &&& is_increasing(keys)
            &&& forall|k: T| m.contains_key(k) <==> #[trigger] keys.contains(k)
            &&& power_product(keys, m) == n
        }
}

/// A key that is not among `keys` does not change their product.
proof fn lemma_product_ignores_other_keys<T: Int>(keys: Seq<T>, m: Map<T, usize>, k: T, c: usize)
    requires
        !keys.contains(k),
    ensures
        power_product(keys, m.insert(k, c)) == power_product(keys, m),
    decreases keys.len(),
{
    if keys.len() > 0 {
        let init = keys.drop_last();
        assert(keys.contains(keys.last()));
        assert forall|x: T| init.contains(x) implies keys.contains(x) by {
            let i = choose|i: int| 0 <= i < init.len() && init[i] == x;
            assert(keys[i] == x);
        }
        lemma_product_ignores_other_keys(init, m, k, c);
    }
}

/// Where no prime up to `bound` divides `t`, nothing from two to `bound`
/// does.
proof fn lemma_no_prime_divisor(t: int, bound: int, d: int)
    requires
        forall|q: int| is_prime(q) && q <= bound ==> #[trigger] (t % q) != 0,
        2 <= d <= bound,
    ensures
        t % d != 0,
    decreases d,
{
    if !is_prime(d) {
        let e = choose|e: int| 2 <= e < d && #[trigger] (d % e) == 0;
        lemma_no_prime_divisor(t, bound, e);
        if t % d == 0 {
            lemma_divides_transitive(e, d, t);
        }
    }
}

/// Dividing `t` by a divisor `p` from two on leaves a positive number less
/// than `t`, which times `p` is `t`, and which nothing divides that does not
/// divide `t`.
proof fn lemma_strip(t: int, p: int)
    requires
        t >= 1,
        p >= 2,
        t % p == 0,
    ensures
        1 <= t / p < t,
        p * (t / p) == t,
        2 * (t / p) <= t,
        forall|q: int| q >= 1 && #[trigger] (t % q) != 0 ==> (t / p) % q != 0,
{
    vstd::arithmetic::div_mod::lemma_fundamental_div_mod(t, p);
    let u = t / p;
    assert(1 <= u < t && 2 * u <= t) by (nonlinear_arith)
        requires
            t == p * u,
            t >= 1,
            p >= 2,
    ;
    assert forall|q: int| q >= 1 && #[trigger] (t % q) != 0 implies u % q != 0 by {
        if u % q == 0 {
            assert(t == p * u + 0);
            vstd::arithmetic::div_mod::lemma_fundamental_div_mod_converse(t, u, p, 0);
            lemma_divides_transitive(q, u, t);
        }
    }
}

/// The primes up to a number, and the number's prime factors.
pub trait Prime<T: Int> {
    /// The number itself.
    spec fn number(&self) -> int;

    /// The primes up to the number, in ascending order.
    fn lower_primes(&self) -> (r: Vec<T>)
        requires
            self.number() >= 2 ==> self.number() < T::highest() && primes_fit(
                self.number(),
                T::highest(),
            ),
        ensures
            is_increasing(r@),
            forall|i: int|
                0 <= i < r@.len() ==> is_prime((#[trigger] r@[i]).value()) && r@[i].value()
                    <= self.number(),
            forall|p: int| is_prime(p) && p <= self.number() ==> has_value(r@, p),
    ;

    /// The primes that divide the number, each with its exponent; nothing
    /// for a number below two.
    fn factorize(&self) -> (m: HashMap<T, usize>)
        requires
            obeys_key_model::<T>(),
            self.number() >= 0 ==> self.number() < T::highest() && square((self.number() + 1) / 2)
                <= T::highest(),
        ensures
            self.number() < 2 ==> m@ == Map::<T, usize>::empty(),
            self.number() >= 2 ==> is_factorization(m@, self.number()),
    ;
}

impl<T> Prime<T> for T where T: Int {
    open spec fn number(&self) -> int {
        self.value()
    }

    /// By the sieve of Eratosthenes.
    fn lower_primes(&self) -> (r: Vec<T>) {
        let this = *self;
        let mut v: Vec<T> = Vec::new();
        let ghost n = this.value();
        if !T::one().less(this) {
            return v;
        }
        let mut deque: VecDeque<T> = VecDeque::new();
        let mut t = T::one().next();  // 2, which is the first prime number
        proof {
            this.lemma_range();
        }
        // prepare `2, 3, 4, ..., this` sequence
        while !this.less(t)
            invariant
                n == this.value(),
                2 <= n < T::highest(),
                2 <= t.value() <= n + 1,
                deque@.len() == t.value() - 2,
                forall|i: int| 0 <= i < deque@.len() ==> (#[trigger] deque@[i]).value() == i + 2,
            decreases n + 1 - t.value(),
        {
            deque.push_back(t);
            t = t.next();
        }
        let mut p = match deque.pop_front() {
            Some(x) => x,
            None => return v,
        };
        v.push(p);
        proof {
            assert(p.value() == 2);
            assert(is_prime(2));
            assert forall|q: int| is_prime(q) && q <= 2 implies has_value(v@, q) by {
                assert(v@[0].value() == q);
            }
            assert forall|x: int| 2 < x <= n && is_unsieved(x, 1) implies has_value(deque@, x) by {
                assert(deque@[x - 3].value() == x);
            }
            assert(is_sieve_state(v@, deque@, 2, n));
        }
        loop
            invariant
                this == *self,
                n == this.value(),
                primes_fit(n, T::highest()),
                is_sieve_state(v@, deque@, p.value(), n),
            ensures
                is_sieve_state(v@, deque@, p.value(), n),
                square(p.value()) > n,
            decreases n - p.value(),
        {
            proof {
                assert forall|q: int| is_prime(q) && q < p.value() implies #[trigger] square(q) <= n by {
                    assert(has_value(v@, q));
                    let w = choose|w: int| 0 <= w < v@.len() && (#[trigger] v@[w]).value() == q;
                    assert(w < v@.len() - 1);
                }
                assert(is_reached(p.value(), n));
                assert(square(p.value()) <= T::highest());
                p.lemma_range();
            }
            if this.less(p.times(p)) {
                break ;
            }
            let rest = sieve_out(&deque, p);
            let ghost before = deque@;
            let ghost found = v@;
            let ghost old_p = p.value();
            deque = rest;
            let ghost left = deque@;
            p = match deque.pop_front() {
                Some(x) => x,
                None => {
                    proof {
                        assert forall|k: int| 0 <= k < v@.len() implies (#[trigger] v@[k]).value() <= n by {
                            if k < v@.len() - 1 {
                                assert(v@[k].value() < v@[v@.len() - 1].value());
                            }
                        }
                        assert forall|q: int| is_prime(q) && q <= n implies has_value(v@, q) by {
                            if q > old_p {
                                lemma_prime_is_unsieved(q, old_p - 1);
                                assert(has_value(before, q));
                                let w = choose|w: int| 0 <= w < before.len() && (#[trigger] before[w]).value() == q;
                                assert(q % old_p != 0);
                                assert(has_value(left, before[w].value()));
                            }
                        }
                    }
                    return v
                },
            };
            v.push(p);
            proof {
                lemma_next_prime(found, before, left, old_p, n, p);
            }
        }
        let ghost found = v@;
        let ghost last = p.value();
        let mut i: usize = 0;
        while i < deque.len()
            invariant
                i <= deque@.len(),
                v@.len() == found.len() + i,
                forall|k: int| 0 <= k < found.len() ==> #[trigger] v@[k] == found[k],
                forall|k: int| found.len() <= k < v@.len() ==> #[trigger] v@[k] == deque@[k - found.len()],
            decreases deque@.len() - i,
        {
            v.push(deque[i]);
            i = i + 1;
        }
        proof {
            assert forall|a: int, b: int| 0 <= a < b < v@.len() implies (#[trigger] v@[a]).value() < (
            #[trigger] v@[b]).value() by {
                if b < found.len() {
                    assert(found[a].value() < found[b].value());
                } else if a < found.len() {
                    assert(v@[b] == deque@[b - found.len()]);
                    if a < found.len() - 1 {
                        assert(found[a].value() < found[found.len() - 1].value());
                    }
                } else {
                    assert(v@[a] == deque@[a - found.len()] && v@[b] == deque@[b - found.len()]);
                }
            }
            assert forall|k: int| 0 <= k < v@.len() implies is_prime((#[trigger] v@[k]).value())
                && v@[k].value() <= n by {
                if k < found.len() {
                    assert(is_prime(found[k].value()));
                    if k < found.len() - 1 {
                        assert(found[k].value() < found[found.len() - 1].value());
                    }
                } else {
                    let x = deque@[k - found.len()].value();
                    assert(v@[k] == deque@[k - found.len()]);
                    assert(square(last - 1 + 1) > n);
                    lemma_unsieved_is_prime(x, last - 1);
                }
            }
            assert forall|q: int| is_prime(q) && q <= n implies has_value(v@, q) by {
                if q <= last {
                    assert(has_value(found, q));
                    let w = choose|w: int| 0 <= w < found.len() && (#[trigger] found[w]).value() == q;
                    assert(v@[w] == found[w]);
                } else {
                    lemma_prime_is_unsieved(q, last - 1);
                    assert(has_value(deque@, q));
                    let w = choose|w: int| 0 <= w < deque@.len() && (#[trigger] deque@[w]).value() == q;
                    assert(v@[found.len() + w] == deque@[w]);
                }
            }
        }
        v
    }

    /// By trial division by the primes up to the square root.
    fn factorize(&self) -> (m: HashMap<T, usize>) {
        broadcast use vstd::std_specs::hash::axiom_random_state_builds_valid_hashers;

        let mut ret: HashMap<T, usize> = HashMap::new();
        let ghost n = self.value();
        proof {
            self.lemma_range();
            assert(square((n + 1) / 2) == ((n + 1) / 2) * ((n + 1) / 2));
        }
        let root = self.sqrt_floor();
        proof {
            root.lemma_range();
            if n >= 0 {
                assert(root.value() <= n) by (nonlinear_arith)
                    requires
                        root.value() * root.value() <= n,
                        root.value() >= 0,
                ;
                lemma_primes_fit(root.value(), T::highest());
            }
        }
        let primes = root.lower_primes();
        proof {
            if n < 2 && primes@.len() > 0 {
                assert(is_prime(primes@[0].value()));
            }
        }
        let mut tmp = *self;
        let ghost s = root.value();
        let ghost mut keys: Seq<T> = Seq::empty();
        let mut i: usize = 0;
        while i < primes.len()
            invariant
                n == self.value(),
                i <= primes@.len(),
                obeys_key_model::<T>(),
                vstd::std_specs::hash::builds_valid_hashers::<std::hash::RandomState>(),
                T::highest() < 0x1_0000_0000_0000_0000,
                is_increasing(primes@),
                forall|j: int|
                    0 <= j < primes@.len() ==> is_prime((#[trigger] primes@[j]).value()) && primes@[j].value()
                        <= s,
                n < 2 ==> primes@.len() == 0 && ret@ == Map::<T, usize>::empty() && tmp.value() == n,
                n >= 2 ==> tmp.value() >= 1 && power_product(keys, ret@) * tmp.value() == n,
                is_increasing(keys),
                forall|k: T| ret@.contains_key(k) <==> #[trigger] keys.contains(k),
                forall|k: T| #[trigger] ret@.contains_key(k) ==> is_prime(k.value()) && ret@[k] >= 1,
                forall|j: int|
                    0 <= j < keys.len() && i < primes@.len() ==> (#[trigger] keys[j]).value()
                        < primes@[i as int].value(),
                forall|j: int| 0 <= j < keys.len() ==> (#[trigger] keys[j]).value() <= s,
                forall|j: int| 0 <= j < i ==> tmp.value() % (#[trigger] primes@[j]).value() != 0,
            decreases primes@.len() - i,
        {
            let prime = primes[i];
            let ghost p = prime.value();
            let ghost start = tmp.value();
            let mut count: usize = 0;
            let ghost before_insert = ret@;
            proof {
                tmp.lemma_range();
                prime.lemma_range();
                assert(pow(p, 0) == 1) by {
                    vstd::arithmetic::power::lemma_pow0(p);
                }
                assert(pow2(0) == 1) by {
                    lemma2_to64();
                }
            }
            while tmp.rem(prime).is_zero()
                invariant
                    p == prime.value(),
                    p >= 2,
                    n >= 2,
                    start >= 1,
                    T::highest() < 0x1_0000_0000_0000_0000,
                    1 <= tmp.value() <= start <= T::highest(),
                    pow(p, count as nat) * tmp.value() == start,
                    pow2(count as nat) * tmp.value() <= start,
                    count < 64,
                    forall|q: int| q >= 1 && #[trigger] (start % q) != 0 ==> tmp.value() % q != 0,
                decreases tmp.value(),
            {
                let ghost t = tmp.value();
                proof {
                    lemma_strip(t, p);
                    tmp.lemma_range();
                    lemma_pow2_unfold((count + 1) as nat);
                    vstd::arithmetic::power::lemma_pow1(p);
                    vstd::arithmetic::power::lemma_pow_adds(p, count as nat, 1);
                    let a = pow(p, count as nat);
                    let b = pow2(count as nat) as int;
                    let u = t / p;
                    assert((a * p) * u == start && (2 * b) * u <= start) by (nonlinear_arith)
                        requires
                            p * u == t,
                            a * t == start,
                            b * t <= start,
                            2 * u <= t,
                            b >= 0,
                    ;
                    if count + 1 >= 64 {
                        lemma2_to64();
                        if count + 1 > 64 {
                            lemma_pow2_strictly_increases(64, (count + 1) as nat);
                        }
                        assert(pow2((count + 1) as nat) * u >= 0x1_0000_0000_0000_0000) by (nonlinear_arith)
                            requires
                                pow2((count + 1) as nat) >= 0x1_0000_0000_0000_0000,
                                u >= 1,
                        ;
                    }
                }
                tmp = tmp.quot(prime);
                count = count + 1;
            }
            if count > 0 {
                let ghost before = ret@;
                let ghost listed = keys;
                proof {
                    assert(!listed.contains(prime)) by {
                        if listed.contains(prime) {
                            let j = choose|j: int| 0 <= j < listed.len() && listed[j] == prime;
                            assert(listed[j].value() < primes@[i as int].value());
                        }
                    }
                    lemma_product_ignores_other_keys(listed, before, prime, count);
                }
                ret.insert(prime, count);
                proof {
                    keys = listed.push(prime);
                    assert(keys.drop_last() =~= listed);
                    assert(keys.last() == prime);
                    assert(power_product(keys, ret@) == power_product(listed, before) * pow(
                        p,
                        count as nat,
                    ));
                    assert(power_product(keys, ret@) * tmp.value() == n) by (nonlinear_arith)
                        requires
                            power_product(keys, ret@) == power_product(listed, before) * pow(
                                p,
                                count as nat,
                            ),
                            pow(p, count as nat) * tmp.value() == start,
                            power_product(listed, before) * start == n,
                    ;
                    assert forall|a: int, b: int| 0 <= a < b < keys.len() implies (#[trigger] keys[a]).value()
                        < (#[trigger] keys[b]).value() by {
                        if b == keys.len() - 1 {
                            assert(keys[a] == listed[a]);
                        } else {
                            assert(keys[a] == listed[a] && keys[b] == listed[b]);
                        }
                    }
                    assert forall|k: T| ret@.contains_key(k) <==> #[trigger] keys.contains(k) by {
                        if k == prime {
                            assert(keys[keys.len() - 1] == k);
                        } else if listed.contains(k) {
                            let j = choose|j: int| 0 <= j < listed.len() && listed[j] == k;
                            assert(keys[j] == k);
                        } else if keys.contains(k) {
                            let j = choose|j: int| 0 <= j < keys.len() && keys[j] == k;
                            assert(listed[j] == k);
                        }
                    }
                }
            }
            proof {
                assert forall|j: int| 0 <= j < keys.len() && i + 1 < primes@.len() implies (
                #[trigger] keys[j]).value() < primes@[i + 1].value() by {
                    assert(primes@[i as int].value() < primes@[i + 1].value());
                    if count > 0 && j == keys.len() - 1 {
                    } else {
                        assert(keys[j].value() < primes@[i as int].value() || keys[j] == prime);
                    }
                }
                assert(is_prime(primes@[i as int].value()));
                assert forall|k: T| #[trigger] ret@.contains_key(k) implies is_prime(k.value()) && ret@[k]
                    >= 1 by {
                    if count == 0 || k != prime {
                        assert(before_insert.contains_key(k));
                    }
                }
                assert forall|j: int| 0 <= j < i + 1 implies tmp.value() % (#[trigger] primes@[j]).value()
                    != 0 by {
                    if j < i {
                        assert(start % primes@[j].value() != 0);
                    }
                }
            }
            i = i + 1;
        }
        if T::one().less(tmp) {
            let ghost before = ret@;
            let ghost listed = keys;
            let ghost t = tmp.value();
            proof {
                assert forall|q: int| is_prime(q) && q <= s implies #[trigger] (t % q) != 0 by {
                    assert(has_value(primes@, q));
                    let j = choose|j: int| 0 <= j < primes@.len() && (#[trigger] primes@[j]).value() == q;
                    assert(t % primes@[j].value() != 0);
                }
                assert forall|d: int| 2 <= d <= s implies #[trigger] (t % d) != 0 by {
                    lemma_no_prime_divisor(t, s, d);
                }
                assert forall|j: int| 0 <= j < listed.len() implies (#[trigger] listed[j]).value() >= 1 by {
                    assert(listed.contains(listed[j]));
                    assert(before.contains_key(listed[j]));
                    assert(before[listed[j]] >= 1);
                }
                assert(t <= n) by {
                    lemma_product_is_positive(listed, before);
                    assert(t <= power_product(listed, before) * t) by (nonlinear_arith)
                        requires
                            power_product(listed, before) >= 1,
                            t >= 1,
                    ;
                }
                assert(square(s + 1) == (s + 1) * (s + 1));
                lemma_unsieved_is_prime(t, s);
                assert(t > s) by {
                    if t <= s {
                        assert(t % t == 0) by (nonlinear_arith)
                            requires
                                t >= 2,
                        ;
                    }
                }
                assert(!listed.contains(tmp)) by {
                    if listed.contains(tmp) {
                        let j = choose|j: int| 0 <= j < listed.len() && listed[j] == tmp;
                        assert(listed[j].value() <= s);
                    }
                }
                lemma_product_ignores_other_keys(listed, before, tmp, 1);
            }
            ret.insert(tmp, 1);
            proof {
                keys = listed.push(tmp);
                assert(keys.drop_last() =~= listed);
                assert(keys.last() == tmp);
                vstd::arithmetic::power::lemma_pow1(t);
                assert(power_product(keys, ret@) == power_product(listed, before) * pow(t, 1));
                assert forall|k: T| #[trigger] ret@.contains_key(k) implies is_prime(k.value()) && ret@[k]
                    >= 1 by {
                    if k != tmp {
                        assert(before.contains_key(k));
                        assert(before[k] >= 1);
                    }
                }
                assert forall|a: int, b: int| 0 <= a < b < keys.len() implies (#[trigger] keys[a]).value()
                    < (#[trigger] keys[b]).value() by {
                    if b == keys.len() - 1 {
                        assert(keys[a] == listed[a]);
                        assert(listed[a].value() <= s);
                    } else {
                        assert(keys[a] == listed[a] && keys[b] == listed[b]);
                    }
                }
                assert forall|k: T| ret@.contains_key(k) <==> #[trigger] keys.contains(k) by {
                    if k == tmp {
                        assert(keys[keys.len() - 1] == k);
                    } else if listed.contains(k) {
                        let j = choose|j: int| 0 <= j < listed.len() && listed[j] == k;
                        assert(keys[j] == k);
                    } else if keys.contains(k) {
                        let j = choose|j: int| 0 <= j < keys.len() && keys[j] == k;
                        assert(listed[j] == k);
                    }
                }
            }
        } else {
            proof {
                if n >= 2 {
                    assert(power_product(keys, ret@) * 1 == n);
                }
            }
        }
        proof {
            if n >= 2 {
                assert(power_product(keys, ret@) == n);
                assert(is_increasing(keys) && (forall|k: T| ret@.contains_key(k) <==> #[trigger] keys.contains(k))
                    && power_product(keys, ret@) == n);
            }
        }
        ret
    }
}

/// A product of powers of positive numbers is positive.
proof fn lemma_product_is_positive<T: Int>(keys: Seq<T>, m: Map<T, usize>)
    requires
        forall|j: int| 0 <= j < keys.len() ==> (#[trigger] keys[j]).value() >= 1,
    ensures
        power_product(keys, m) >= 1,
    decreases keys.len(),
{
    if keys.len() > 0 {
        let init = keys.drop_last();
        assert forall|j: int| 0 <= j < init.len() implies (#[trigger] init[j]).value() >= 1 by {
            assert(init[j] == keys[j]);
        }
        lemma_product_is_positive(init, m);
        let b = keys.last().value();
        let e = m[keys.last()] as nat;
        vstd::arithmetic::power::lemma_pow_positive(b, e);
        assert(power_product(init, m) * pow(b, e) >= 1) by (nonlinear_arith)
            requires
                power_product(init, m) >= 1,
                pow(b, e) >= 1,
        ;
    }
}

} // verus!

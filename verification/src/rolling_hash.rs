//! Polynomial hashes of every prefix of a text, under several pairs of a
//! base and a modulus, from which the hash of any window follows.

use vstd::prelude::*;
use crate::integer::lemma_same_remainder;

verus! {

/// The largest scalar value of a `char`.
pub const MAX_CHAR: u64 = 0x10FFFF;

/// The hash of the first `i` characters of `text`.
pub open spec fn prefix_hash(text: Seq<char>, i: nat, base: nat, modulo: nat) -> nat
    decreases i,
{
    if i == 0 {
        0
    } else {
        (prefix_hash(text, (i - 1) as nat, base, modulo) + text[i - 1] as nat) * base % modulo
    }
}

/// `base` to the power `i`, reduced modulo `modulo` after each
/// multiplication.
pub open spec fn base_power(i: nat, base: nat, modulo: nat) -> nat
    decreases i,
{
    if i == 0 {
        1
    } else {
        base_power((i - 1) as nat, base, modulo) * base % modulo
    }
}

/// The hash of the window `[left, right)` of `text`.
pub open spec fn window_hash(text: Seq<char>, left: nat, right: nat, base: nat, modulo: nat) -> nat {
    ((prefix_hash(text, right, base, modulo) + modulo - prefix_hash(text, left, base, modulo)
        * base_power((right - left) as nat, base, modulo) % modulo) % (modulo as int)) as nat
}

/// The window's hash under each pair of `pairs`, a base and a modulus.
pub open spec fn window_hashes(text: Seq<char>, left: nat, right: nat, pairs: Seq<(u64, u64)>) -> Seq<
    u64,
> {
    Seq::new(
        pairs.len(),
        |j: int| window_hash(text, left, right, pairs[j].0 as nat, pairs[j].1 as nat) as u64,
    )
}

/// With this pair the hashes can be computed in a `u64`.
pub open spec fn pair_fits(base: u64, modulo: u64) -> bool {
    &&& modulo >= 1
    &&& modulo * modulo <= u64::MAX
    &&& (modulo + MAX_CHAR) * base <= u64::MAX
}

/// The pairs of a base and a modulus that `RollingHash::new` uses.
pub open spec fn default_pairs() -> Seq<(u64, u64)> {
    seq![
        (2315961251u64, 4294966367u64),
        (1692999586u64, 4294959359u64),
        (1009u64, 1_000_000_007u64),
    ]
}

/// Prefix hashes and powers are at most the modulus.
pub proof fn lemma_hash_bounded(text: Seq<char>, i: nat, base: nat, modulo: nat)
    requires
        modulo >= 1,
    ensures
        prefix_hash(text, i, base, modulo) < modulo,
        base_power(i, base, modulo) <= modulo,
    decreases i,
{
    if i > 0 {
        lemma_hash_bounded(text, (i - 1) as nat, base, modulo);
        assert(((prefix_hash(text, (i - 1) as nat, base, modulo) + text[i - 1] as nat) * base) % modulo
            < modulo);
        assert((base_power((i - 1) as nat, base, modulo) * base) % modulo < modulo);
    }
}

/// The hash of the `k` characters of `text` from position `left` on, taken as
/// a text of their own.
pub open spec fn hash_from(text: Seq<char>, left: nat, k: nat, base: nat, modulo: nat) -> nat
    decreases k,
{
    if k == 0 {
        0
    } else {
        (hash_from(text, left, (k - 1) as nat, base, modulo) + text[left + k - 1] as nat) * base
            % modulo
    }
}

/// The hash of a window is the hash of its characters taken as a text of
/// their own.
pub proof fn lemma_window_hash_is_hash_of_window(
    text: Seq<char>,
    left: nat,
    right: nat,
    base: nat,
    modulo: nat,
)
    requires
        left <= right <= text.len(),
        modulo >= 1,
    ensures
        window_hash(text, left, right, base, modulo) == hash_from(
            text,
            left,
            (right - left) as nat,
            base,
            modulo,
        ),
    decreases right - left,
{
    let m = modulo as int;
    let b = base as int;
    let hl = prefix_hash(text, left, base, modulo) as int;
    lemma_hash_bounded(text, left, base, modulo);
    if right == left {
        assert(hl * 1 == hl) by (nonlinear_arith);
        vstd::arithmetic::div_mod::lemma_small_mod(hl as nat, modulo);
        lemma_same_remainder(hl + m - hl, 0, 1, m);
        vstd::arithmetic::div_mod::lemma_small_mod(0, modulo);
    } else {
        let before = (right - 1) as nat;
        let k = (before - left) as nat;
        lemma_window_hash_is_hash_of_window(text, left, before, base, modulo);
        let c = text[right - 1] as nat as int;
        let hr = prefix_hash(text, before, base, modulo) as int;
        let pk = base_power(k, base, modulo) as int;
        let w = window_hash(text, left, before, base, modulo) as int;
        // every remainder as the number less a multiple of the modulus
        let t1 = (hr + c) * b;
        let t2 = pk * b;
        let t3 = hl * (t2 % m);
        let t4 = hl * pk;
        let t5 = hr + m - t4 % m;
        vstd::arithmetic::div_mod::lemma_fundamental_div_mod(t1, m);
        vstd::arithmetic::div_mod::lemma_fundamental_div_mod(t2, m);
        vstd::arithmetic::div_mod::lemma_fundamental_div_mod(t3, m);
        vstd::arithmetic::div_mod::lemma_fundamental_div_mod(t4, m);
        vstd::arithmetic::div_mod::lemma_fundamental_div_mod(t5, m);
        let q1 = t1 / m;
        let q2 = t2 / m;
        let q3 = t3 / m;
        let q4 = t4 / m;
        let q5 = t5 / m;
        assert(w == t5 % m);
        let lhs = t1 % m + m - t3 % m;
        let rhs = (w + c) * b;
        let core = hr + c - t4;
        // lhs == b * core + m * (1 - q1 + hl * q2 + q3)
        assert(t3 == hl * t2 - m * (hl * q2)) by (nonlinear_arith)
            requires
                t3 == hl * (t2 % m),
                t2 == m * q2 + t2 % m,
        ;
        assert(hl * t2 == b * t4) by (nonlinear_arith)
            requires
                t2 == pk * b,
                t4 == hl * pk,
        ;
        assert(t1 == b * (hr + c)) by (nonlinear_arith)
            requires
                t1 == (hr + c) * b,
        ;
        assert(b * core == b * (hr + c) - b * t4) by (nonlinear_arith)
            requires
                core == hr + c - t4,
        ;
        let k1 = 1 - q1 + hl * q2 + q3;
        assert(lhs == b * core + m * k1) by (nonlinear_arith)
            requires
                lhs == t1 % m + m - t3 % m,
                t1 == m * q1 + t1 % m,
                t3 == m * q3 + t3 % m,
                t3 == hl * t2 - m * (hl * q2),
                hl * t2 == b * t4,
                t1 == b * (hr + c),
                b * core == b * (hr + c) - b * t4,
                k1 == 1 - q1 + hl * q2 + q3,
        ;
        // rhs == b * core + m * (b * (1 + q4 - q5))
        let k2 = b * (1 + q4 - q5);
        assert(w + c == core + m * (1 + q4 - q5)) by (nonlinear_arith)
            requires
                w == t5 % m,
                t5 == m * q5 + t5 % m,
                t5 == hr + m - t4 % m,
                t4 == m * q4 + t4 % m,
                core == hr + c - t4,
        ;
        assert(rhs == b * core + m * k2) by (nonlinear_arith)
            requires
                rhs == (w + c) * b,
                w + c == core + m * (1 + q4 - q5),
                k2 == b * (1 + q4 - q5),
        ;
        lemma_same_remainder(lhs, b * core, k1, m);
        lemma_same_remainder(rhs, b * core, k2, m);
        assert(prefix_hash(text, right, base, modulo) == t1 % m);
        assert(base_power((right - left) as nat, base, modulo) == t2 % m);
        assert(window_hash(text, left, right, base, modulo) == lhs % m);
        assert(hash_from(text, left, (right - left) as nat, base, modulo) == rhs % m);
    }
}

/// Windows with the same characters have the same hash.
pub proof fn lemma_equal_windows_hash_equally(
    text: Seq<char>,
    left1: nat,
    left2: nat,
    len: nat,
    base: nat,
    modulo: nat,
)
    requires
        left1 + len <= text.len(),
        left2 + len <= text.len(),
        modulo >= 1,
        text.subrange(left1 as int, (left1 + len) as int) == text.subrange(left2 as int, (left2 + len) as int),
    ensures
        window_hash(text, left1, left1 + len, base, modulo) == window_hash(
            text,
            left2,
            left2 + len,
            base,
            modulo,
        ),
{
    lemma_window_hash_is_hash_of_window(text, left1, left1 + len, base, modulo);
    lemma_window_hash_is_hash_of_window(text, left2, left2 + len, base, modulo);
    lemma_hash_from_equal_windows(text, left1, left2, len, len, base, modulo);
}

/// The hashes from two positions agree as far as the characters do.
proof fn lemma_hash_from_equal_windows(
    text: Seq<char>,
    left1: nat,
    left2: nat,
    len: nat,
    k: nat,
    base: nat,
    modulo: nat,
)
    requires
        k <= len,
        left1 + len <= text.len(),
        left2 + len <= text.len(),
        text.subrange(left1 as int, (left1 + len) as int) == text.subrange(left2 as int, (left2 + len) as int),
    ensures
        hash_from(text, left1, k, base, modulo) == hash_from(text, left2, k, base, modulo),
    decreases k,
{
    if k > 0 {
        lemma_hash_from_equal_windows(text, left1, left2, len, (k - 1) as nat, base, modulo);
        let a = text.subrange(left1 as int, (left1 + len) as int);
        let b = text.subrange(left2 as int, (left2 + len) as int);
        assert(a[k - 1] == text[left1 + k - 1]);
        assert(b[k - 1] == text[left2 + k - 1]);
    }
}

/// A modulus of a polynomial hash.
#[derive(Debug)]
pub struct RHMod(pub u64);

/// A base of a polynomial hash.
#[derive(Debug)]
pub struct RHBase(pub u64);

/// The hash of a prefix, and the power of the base that goes with its
/// length.
#[derive(Debug)]
struct RHInner {
    hash: u64,
    power: u64,
}

/// The scalar value of `c`.
fn char_code(c: char) -> (r: u64)
    ensures
        r == c as nat,
        r <= MAX_CHAR,
{
    c as u64
}

impl RHInner {
    fn new(hash: u64, power: u64) -> (r: RHInner)
        ensures
            r.hash == hash,
            r.power == power,
    {
        RHInner { hash: hash, power: power }
    }
}

/// The hashes and powers for every prefix of a text, under each pair of a
/// base and a modulus.
pub struct RollingHash {
    hash_pow_list: Vec<(RHMod, Vec<RHInner>)>,
    target: Ghost<Seq<char>>,
    bases: Ghost<Seq<u64>>,
}

impl RollingHash {
    /// The text that was hashed.
    pub closed spec fn text(&self) -> Seq<char> {
        self.target@
    }

    /// The pairs of a base and a modulus that the text was hashed under.
    pub closed spec fn pairs(&self) -> Seq<(u64, u64)> {
        Seq::new(self.hash_pow_list@.len(), |j: int| (self.bases@[j], self.hash_pow_list@[j].0.0))
    }

    /// The tables hold the hash and the power for every prefix.
    pub closed spec fn wf(&self) -> bool {
        &&& self.bases@.len() == self.hash_pow_list@.len()
        &&& forall|j: int| 0 <= j < self.hash_pow_list@.len() ==> #[trigger] self.row_ok(j)
    }

    closed spec fn row_ok(&self, j: int) -> bool {
        let modulo = self.hash_pow_list@[j].0.0;
        let base = self.bases@[j];
        let row = self.hash_pow_list@[j].1@;
        &&& pair_fits(base, modulo)
        &&& row.len() == self.target@.len() + 1
        &&& forall|i: int|
            0 <= i < row.len() ==> (#[trigger] row[i]).hash == prefix_hash(
                self.target@,
                i as nat,
                base as nat,
                modulo as nat,
            ) && row[i].power == base_power(i as nat, base as nat, modulo as nat)
    }

    /// The hashes of `target` under the three default pairs.
    pub fn new(target: &[char]) -> (r: RollingHash)
        requires
            target@.len() < usize::MAX,
        ensures
            r.wf(),
            r.text() == target@,
            r.pairs() == default_pairs(),
    {
        // https://competitive12.blogspot.com/2019/06/blog-post_26.html
        let base_mod: [(RHBase, RHMod); 3] = [
            (RHBase(2315961251), RHMod(4294966367)),
            (RHBase(1692999586), RHMod(4294959359)),
            (RHBase(1009), RHMod(1_000_000_007)),
        ];
        proof {
            assert(pair_fits(2315961251, 4294966367));
            assert(pair_fits(1692999586, 4294959359));
            assert(pair_fits(1009, 1_000_000_007));
        }
        let r = RollingHash::with_base_mod(target, base_mod.as_slice());
        assert(r.pairs() =~= default_pairs());
        r
    }

    fn with_base_mod(target: &[char], base_mod: &[(RHBase, RHMod)]) -> (r: RollingHash)
        requires
            target@.len() < usize::MAX,
            forall|j: int|
                0 <= j < base_mod@.len() ==> pair_fits((#[trigger] base_mod@[j]).0.0, base_mod@[j].1.0),
        ensures
            r.wf(),
            r.text() == target@,
            r.pairs() == Seq::new(base_mod@.len(), |j: int| (base_mod@[j].0.0, base_mod@[j].1.0)),
    {
        let mut hp_list: Vec<(RHMod, Vec<RHInner>)> = Vec::new();
        let ghost mut bases: Seq<u64> = Seq::empty();
        let mut j: usize = 0;
        while j < base_mod.len()
            invariant
                j <= base_mod@.len(),
                target@.len() < usize::MAX,
                forall|k: int|
                    0 <= k < base_mod@.len() ==> pair_fits(
                        (#[trigger] base_mod@[k]).0.0,
                        base_mod@[k].1.0,
                    ),
                hp_list@.len() == j,
                bases.len() == j,
                forall|k: int| 0 <= k < j ==> #[trigger] bases[k] == base_mod@[k].0.0,
                forall|k: int| 0 <= k < j ==> (#[trigger] hp_list@[k]).0.0 == base_mod@[k].1.0,
                forall|k: int|
                    0 <= k < j ==> #[trigger] (RollingHash {
                        hash_pow_list: hp_list,
                        target: Ghost(target@),
                        bases: Ghost(bases),
                    }).row_ok(k),
            decreases base_mod@.len() - j,
        {
            let base = base_mod[j].0.0;
            let modulo = base_mod[j].1.0;
            assert(pair_fits(base_mod@[j as int].0.0, base_mod@[j as int].1.0));
            let mut hp: Vec<RHInner> = Vec::with_capacity(target.len() + 1);
            hp.push(RHInner::new(0, 1));
            let mut i: usize = 0;
            while i < target.len()
                invariant
                    i <= target@.len(),
                    target@.len() < usize::MAX,
                    pair_fits(base, modulo),
                    hp@.len() == i + 1,
                    forall|k: int|
                        0 <= k <= i ==> (#[trigger] hp@[k]).hash == prefix_hash(
                            target@,
                            k as nat,
                            base as nat,
                            modulo as nat,
                        ) && hp@[k].power == base_power(k as nat, base as nat, modulo as nat),
                decreases target@.len() - i,
            {
                let c = char_code(target[i]);
                let hash = hp[i].hash;
                let power = hp[i].power;
                proof {
                    lemma_hash_bounded(target@, i as nat, base as nat, modulo as nat);
                    assert(modulo <= 0xFFFF_FFFF) by (nonlinear_arith)
                        requires
                            modulo * modulo <= u64::MAX,
                    ;
                    assert((hash + c) * base <= (modulo + MAX_CHAR) * base) by (nonlinear_arith)
                        requires
                            hash + c <= modulo + MAX_CHAR,
                    ;
                    assert(power * base <= (modulo + MAX_CHAR) * base) by (nonlinear_arith)
                        requires
                            power <= modulo + MAX_CHAR,
                    ;
                }
                let next_hash = (hash + c) * base % modulo;
                let next_power = power * base % modulo;
                hp.push(RHInner::new(next_hash, next_power));
                i = i + 1;
            }
            let ghost before = RollingHash {
                hash_pow_list: hp_list,
                target: Ghost(target@),
                bases: Ghost(bases),
            };
            let ghost listed = hp_list@;
            hp_list.push((RHMod(modulo), hp));
            proof {
                bases = bases.push(base);
                assert forall|k: int| 0 <= k < j implies #[trigger] hp_list@[k] == listed[k] by {}
                let after = RollingHash {
                    hash_pow_list: hp_list,
                    target: Ghost(target@),
                    bases: Ghost(bases),
                };
                assert forall|k: int| 0 <= k < j + 1 implies #[trigger] after.row_ok(k) by {
                    if k < j {
                        assert(before.row_ok(k));
                    }
                }
            }
            j = j + 1;
        }
        let r = RollingHash { hash_pow_list: hp_list, target: Ghost(target@), bases: Ghost(bases) };
        assert(r.pairs() =~= Seq::new(
            base_mod@.len(),
            |j: int| (base_mod@[j].0.0, base_mod@[j].1.0),
        ));
        r
    }

    /// The hash of the window `[left, right)` of the text under each pair.
    pub fn get(&self, left: usize, right: usize) -> (r: Vec<u64>)
        requires
            self.wf(),
            left <= right <= self.text().len(),
        ensures
            r@ == window_hashes(self.text(), left as nat, right as nat, self.pairs()),
    {
        let mut out: Vec<u64> = Vec::new();
        let mut j: usize = 0;
        while j < self.hash_pow_list.len()
            invariant
                self.wf(),
                left <= right <= self.target@.len(),
                j <= self.hash_pow_list@.len(),
                out@.len() == j,
                forall|k: int|
                    0 <= k < j ==> #[trigger] out@[k] == window_hash(
                        self.target@,
                        left as nat,
                        right as nat,
                        self.bases@[k] as nat,
                        self.hash_pow_list@[k].0.0 as nat,
                    ),
            decreases self.hash_pow_list@.len() - j,
        {
            assert(self.row_ok(j as int));
            let modulo = self.hash_pow_list[j].0.0;
            let hp = &self.hash_pow_list[j].1;
            proof {
                let b = self.bases@[j as int] as nat;
                lemma_hash_bounded(self.target@, left as nat, b, modulo as nat);
                lemma_hash_bounded(self.target@, right as nat, b, modulo as nat);
                lemma_hash_bounded(self.target@, (right - left) as nat, b, modulo as nat);
                assert(hp@[left as int].hash * hp@[right - left].power <= modulo * modulo
                    && 2 * modulo - 1 <= modulo * modulo) by (nonlinear_arith)
                    requires
                        hp@[left as int].hash <= modulo,
                        hp@[right - left].power <= modulo,
                        modulo >= 1,
                ;
            }
            let h = (hp[right].hash + modulo - hp[left].hash * hp[right - left].power % modulo)
                % modulo;
            out.push(h);
            j = j + 1;
        }
        assert(out@ =~= window_hashes(self.text(), left as nat, right as nat, self.pairs()));
        out
    }

    /// Whether the two windows have the same hash under every pair.
    pub fn equal(&self, left1: usize, right1: usize, left2: usize, right2: usize) -> (r: bool)
        requires
            self.wf(),
            left1 <= right1 <= self.text().len(),
            left2 <= right2 <= self.text().len(),
        ensures
            r == (window_hashes(self.text(), left1 as nat, right1 as nat, self.pairs())
                == window_hashes(self.text(), left2 as nat, right2 as nat, self.pairs())),
    {
        let a = self.get(left1, right1);
        let b = self.get(left2, right2);
        let mut j: usize = 0;
        while j < a.len()
            invariant
                a@ == window_hashes(self.text(), left1 as nat, right1 as nat, self.pairs()),
                b@ == window_hashes(self.text(), left2 as nat, right2 as nat, self.pairs()),
                a@.len() == b@.len(),
                j <= a@.len(),
                forall|k: int| 0 <= k < j ==> a@[k] == b@[k],
            decreases a@.len() - j,
        {
            if a[j] != b[j] {
                assert(a@[j as int] != b@[j as int]);
                return false;
            }
            j = j + 1;
        }
        assert(a@ =~= b@);
        true
    }
}

} // verus!

//! A disjoint-set forest with path compression and union by rank.

use vstd::prelude::*;

verus! {

/// How many positions of `s` hold `r`.
pub open spec fn occurrences(s: Seq<usize>, r: usize) -> nat
    decreases s.len(),
{
    if s.len() == 0 {
        0
    } else {
        occurrences(s.drop_last(), r) + if s.last() == r {
            1nat
        } else {
            0nat
        }
    }
}

/// `s` with every `from` replaced by `to`.
pub open spec fn relabel(s: Seq<usize>, from: usize, to: usize) -> Seq<usize> {
    Seq::new(
        s.len(),
        |i: int|
            if s[i] == from {
                to
            } else {
                s[i]
            },
    )
}

/// Two different values occur no more often together than the sequence is
/// long.
proof fn lemma_occurrences_two(s: Seq<usize>, a: usize, b: usize)
    requires
        a != b,
    ensures
        occurrences(s, a) + occurrences(s, b) <= s.len(),
    decreases s.len(),
{
    if s.len() > 0 {
        lemma_occurrences_two(s.drop_last(), a, b);
    }
}

/// How often each value occurs after one has been replaced by another.
proof fn lemma_occurrences_after_relabel(s: Seq<usize>, from: usize, to: usize, r: usize)
    requires
        from != to,
    ensures
        occurrences(relabel(s, from, to), r) == if r == from {
            0
        } else if r == to {
            occurrences(s, from) + occurrences(s, to)
        } else {
            occurrences(s, r)
        },
    decreases s.len(),
{
    if s.len() > 0 {
        assert(relabel(s, from, to).drop_last() =~= relabel(s.drop_last(), from, to));
        lemma_occurrences_after_relabel(s.drop_last(), from, to, r);
    }
}

/// Each of the first `n` numbers occurs once among them.
proof fn lemma_occurrences_of_distinct(n: nat, r: usize)
    requires
        n <= usize::MAX,
    ensures
        occurrences(Seq::new(n, |i: int| i as usize), r) == if r < n {
            1nat
        } else {
            0nat
        },
    decreases n,
{
    if n > 0 {
        let s = Seq::new(n, |i: int| i as usize);
        assert(s.drop_last() =~= Seq::new((n - 1) as nat, |i: int| i as usize));
        lemma_occurrences_of_distinct((n - 1) as nat, r);
    }
}

/// The representatives after the sets of `x` and `y`, which differ, have
/// been merged: the representative of `y` takes the place of that of `x`
/// where the rank of `x` is below that of `y`, else that of `x` takes the
/// place of that of `y`.
pub open spec fn united(reps: Seq<usize>, ranks: Seq<i64>, x: int, y: int) -> Seq<usize> {
    if ranks[x] < ranks[y] {
        relabel(reps, reps[x], reps[y])
    } else {
        relabel(reps, reps[y], reps[x])
    }
}

/// The ranks after the sets of `x` and `y`, which differ, have been merged:
/// where the representative of `x` stays one and the two representatives
/// had one rank, its rank is one more.
pub open spec fn united_ranks(reps: Seq<usize>, ranks: Seq<i64>, x: int, y: int) -> Seq<i64> {
    if !(ranks[x] < ranks[y]) && ranks[reps[x] as int] == ranks[reps[y] as int] {
        ranks.update(reps[x] as int, (ranks[reps[x] as int] + 1) as i64)
    } else {
        ranks
    }
}

/// After `from` has been replaced by `to`, two positions hold one value
/// where they held one before, or where each held `from` or `to`.
pub proof fn lemma_relabel_merges(s: Seq<usize>, from: usize, to: usize, a: int, b: int)
    requires
        0 <= a < s.len(),
        0 <= b < s.len(),
    ensures
        relabel(s, from, to)[a] == relabel(s, from, to)[b] <==> s[a] == s[b] || ((s[a] == from || s[a]
            == to) && (s[b] == from || s[b] == to)),
{
}

/// A partition of the numbers below a bound into sets, each with one of its
/// elements as representative.
#[derive(Clone)]
pub struct DisjointSet {
    parent: Vec<usize>,
    sizes: Vec<i64>,
    rank: Vec<i64>,
    reps: Ghost<Seq<usize>>,
    height: Ghost<Seq<nat>>,
}

impl DisjointSet {
    /// The number of elements.
    pub closed spec fn len(&self) -> nat {
        self.parent@.len()
    }

    /// The representative of each element's set.
    pub closed spec fn representatives(&self) -> Seq<usize> {
        self.reps@
    }

    /// The rank of each element: for a representative, a bound on the height
    /// of its tree that decides which of two representatives stays one.
    pub closed spec fn ranks(&self) -> Seq<i64> {
        self.rank@
    }

    /// The forest's invariant.
    pub closed spec fn wf(&self) -> bool {
        self.grown(self.parent.len())
    }

    /// What a well-formed forest's representatives are like: each is an
    /// element, and represents itself.
    pub proof fn lemma_representatives(&self, i: int)
        requires
            self.wf(),
            0 <= i < self.len(),
        ensures
            self.representatives().len() == self.len(),
            self.ranks().len() == self.len(),
            self.representatives()[i] < self.len(),
            self.representatives()[self.representatives()[i] as int] == self.representatives()[i],
    {
        let r = self.reps@[i] as int;
        assert(self.grown_at(self.parent.len(), i));
        assert(self.grown_at(self.parent.len(), r));
    }

    /// `n` sets of one element each.
    pub fn new(n: usize) -> (s: Self)
        requires
            n <= i64::MAX,
        ensures
            s.wf(),
            s.len() == n,
            s.representatives() == Seq::new(n as nat, |i: int| i as usize),
            s.ranks() == Seq::new(n as nat, |i: int| 0i64),
    {
        let mut parent: Vec<usize> = Vec::new();
        let mut sizes: Vec<i64> = Vec::new();
        let mut rank: Vec<i64> = Vec::new();
        let mut i: usize = 0;
        while i < n
            invariant
                i <= n,
                parent.len() == i,
                sizes.len() == i,
                rank.len() == i,
                forall|k: int| 0 <= k < i ==> parent[k] == k && sizes[k] == 1 && rank[k] == 0,
            decreases n - i,
        {
            parent.push(i);
            sizes.push(1);
            rank.push(0);
            i = i + 1;
        }
        let ghost reps = Seq::new(n as nat, |i: int| i as usize);
        let ghost height = Seq::new(n as nat, |i: int| 0nat);
        let s = Self { parent, sizes, rank, reps: Ghost(reps), height: Ghost(height) };
        proof {
            assert forall|k: int| 0 <= k < n implies #[trigger] s.grown_at(n, k) by {
                lemma_occurrences_of_distinct(n as nat, k as usize);
            }
        }
        s
    }

    /// The representative of `x`'s set, or `None` where `x` is no element.
    /// The sets stay as they are.
    pub fn root(&mut self, x: usize) -> (r: Option<usize>)
        requires
            old(self).wf(),
        ensures
            final(self).wf(),
            final(self).len() == old(self).len(),
            final(self).representatives() == old(self).representatives(),
            final(self).ranks() == old(self).ranks(),
            r == if x < old(self).len() {
                Some(old(self).representatives()[x as int])
            } else {
                None
            },
    {
        self.find(x)
    }

    fn find(&mut self, x: usize) -> (r: Option<usize>)
        requires
            old(self).wf(),
        ensures
            final(self).wf(),
            final(self).parent@.len() == old(self).parent@.len(),
            final(self).reps == old(self).reps,
            final(self).height == old(self).height,
            final(self).sizes == old(self).sizes,
            final(self).rank == old(self).rank,
            forall|i: int|
                0 <= i < old(self).parent@.len() && old(self).parent@[i] == i ==> final(self).parent@[i] == i,
            r == if x < old(self).parent@.len() {
                Some(old(self).reps@[x as int])
            } else {
                None
            },
        decreases
            if x < old(self).parent@.len() {
                old(self).height@[old(self).reps@[x as int] as int] - old(self).height@[x as int]
            } else {
                0
            },
    {
        if x >= self.parent.len() {
            None
        } else if self.parent[x] == x {
            assert(self.grown_at(self.parent.len(), x as int));
            Some(x)
        } else {
            let px = self.parent[x];
            let ghost top = self.parent.len();
            proof {
                assert(self.grown_at(top, x as int));
                assert(self.grown_at(top, px as int));
            }
            let found = self.find(px);
            let root = found.unwrap();
            let ghost mid = self.parent@;
            let ghost inner = *self;
            proof {
                assert(inner.grown_at(top, x as int));
                assert(inner.grown_at(top, root as int));
            }
            self.parent.set(x, root);
            proof {
                assert forall|i: int| 0 <= i < mid.len() implies #[trigger] self.grown_at(top, i) by {
                    assert(inner.grown_at(top, i));
                }
            }
            Some(root)
        }
    }

    /// Merges the sets of `x` and `y`. Nothing changes where one of them is no
    /// element or both are in one set already; otherwise the representative
    /// of one of the two sets comes to represent both: that of `y` where `x`
    /// has the lower rank, else that of `x`.
    pub fn unite(&mut self, x: usize, y: usize)
        requires
            old(self).wf(),
        ensures
            final(self).wf(),
            final(self).len() == old(self).len(),
            x < old(self).len() && y < old(self).len() ==> final(self).representatives()[x as int]
                == final(self).representatives()[y as int],
            (x >= old(self).len() || y >= old(self).len() || old(self).representatives()[x as int]
                == old(self).representatives()[y as int]) ==> final(self).representatives() == old(
                self,
            ).representatives() && final(self).ranks() == old(self).ranks(),
            (x < old(self).len() && y < old(self).len() && old(self).representatives()[x as int]
                != old(self).representatives()[y as int]) ==> final(self).representatives()
                == united(old(self).representatives(), old(self).ranks(), x as int, y as int)
                && final(self).ranks() == united_ranks(
                old(self).representatives(),
                old(self).ranks(),
                x as int,
                y as int,
            ),
    {
        let x_root = match self.find(x) {
            None => return ,
            Some(val) => val,
        };
        let y_root = match self.find(y) {
            None => return ,
            Some(val) => val,
        };
        if x_root == y_root {
            return ;
        }
        let ghost n = self.parent@.len();
        let ghost top = self.parent.len();
        proof {
            assert(self.grown_at(top, x as int));
            assert(self.grown_at(top, y as int));
            assert(self.grown_at(top, x_root as int));
            assert(self.grown_at(top, y_root as int));
        }
        if self.rank[x] < self.rank[y] {
            self.attach(x_root, y_root);
            proof {
                assert forall|i: int| 0 <= i < n implies #[trigger] self.grown_at(top, i) by {
                    assert(self.grown_at(y_root, i));
                }
            }
        } else {
            self.attach(y_root, x_root);
            let ghost attached = *self;
            if self.rank[x_root] == self.rank[y_root] {
                let bumped = self.rank[x_root] + 1;
                self.rank.set(x_root, bumped);
            }
            proof {
                assert forall|i: int| 0 <= i < n implies #[trigger] self.grown_at(top, i) by {
                    assert(attached.grown_at(x_root, i));
                }
            }
        }
    }

    fn attach(&mut self, loser: usize, winner: usize)
        requires
            old(self).wf(),
            loser < old(self).parent@.len(),
            winner < old(self).parent@.len(),
            loser != winner,
            old(self).parent@[loser as int] == loser,
            old(self).parent@[winner as int] == winner,
        ensures
            final(self).parent@.len() == old(self).parent@.len(),
            final(self).reps@ == relabel(old(self).reps@, loser, winner),
            final(self).rank == old(self).rank,
            final(self).sizes@[winner as int] == old(self).sizes@[winner as int] + old(self).sizes@[loser as int],
            final(self).grown(winner),
    {
        let ghost n = self.parent@.len();
        let ghost reps = self.reps@;
        let ghost height = self.height@;
        let ghost top = self.parent.len();
        proof {
            assert(self.grown_at(top, loser as int));
            assert(self.grown_at(top, winner as int));
            lemma_occurrences_two(reps, loser, winner);
        }
        self.parent.set(loser, winner);
        let merged = self.sizes[winner] + self.sizes[loser];
        self.sizes.set(winner, merged);
        proof {
            let lifted = if height[winner as int] > height[loser as int] {
                height[winner as int]
            } else {
                height[loser as int] + 1
            };
            self.reps = Ghost(relabel(reps, loser, winner));
            self.height = Ghost(height.update(winner as int, lifted));
            assert forall|i: int| 0 <= i < n implies #[trigger] self.grown_at(winner, i) by {
                let p = old(self).parent@[i];
                assert(old(self).grown_at(top, i));
                assert(old(self).grown_at(top, reps[i] as int));
                assert(old(self).grown_at(top, p as int));
                if self.parent@[i] == i {
                    lemma_occurrences_after_relabel(reps, loser, winner, i as usize);
                }
            }
        }
    }

    /// The invariant at `i`, with nothing said of the rank of `root`.
    closed spec fn grown_at(&self, root: usize, i: int) -> bool {
        let n = self.parent@.len();
        &&& self.parent@[i] < n
        &&& self.reps@[i] < n
        &&& self.reps@[self.parent@[i] as int] == self.reps@[i]
        &&& self.parent@[self.reps@[i] as int] == self.reps@[i]
        &&& self.height@[i] <= self.height@[self.reps@[i] as int]
        &&& self.parent@[i] == i ==> self.reps@[i] == i
        &&& self.parent@[i] != i ==> self.height@[i] < self.height@[self.parent@[i] as int]
        &&& self.parent@[i] == i ==> self.sizes@[i] == occurrences(self.reps@, i as usize)
        &&& self.parent@[i] == i && i != root ==> 0 <= self.rank@[i] < self.sizes@[i]
    }

    /// The invariant, with nothing said of the rank of `root`; the whole
    /// invariant where `root` is no element.
    closed spec fn grown(&self, root: usize) -> bool {
        let n = self.parent@.len();
        &&& n <= i64::MAX
        &&& self.sizes@.len() == n
        &&& self.rank@.len() == n
        &&& self.reps@.len() == n
        &&& self.height@.len() == n
        &&& forall|i: int| 0 <= i < n ==> #[trigger] self.grown_at(root, i)
    }

    /// Whether `x` and `y` are elements of one set. The sets stay as they
    /// are.
    pub fn same(&mut self, x: usize, y: usize) -> (r: bool)
        requires
            old(self).wf(),
        ensures
            final(self).wf(),
            final(self).len() == old(self).len(),
            final(self).representatives() == old(self).representatives(),
            final(self).ranks() == old(self).ranks(),
            r == (x < old(self).len() && y < old(self).len() && old(self).representatives()[x as int]
                == old(self).representatives()[y as int]),
    {
        let x_root = match self.find(x) {
            None => return false,
            Some(val) => val,
        };
        let y_root = match self.find(y) {
            None => return false,
            Some(val) => val,
        };
        x_root == y_root
    }

    /// The number of elements in `x`'s set, or `None` where `x` is no
    /// element. The sets stay as they are.
    pub fn size(&mut self, x: usize) -> (r: Option<i64>)
        requires
            old(self).wf(),
        ensures
            final(self).wf(),
            final(self).len() == old(self).len(),
            final(self).representatives() == old(self).representatives(),
            final(self).ranks() == old(self).ranks(),
            r == if x < old(self).len() {
                Some(
                    occurrences(
                        old(self).representatives(),
                        old(self).representatives()[x as int],
                    ) as i64,
                )
            } else {
                None
            },
    {
        match self.find(x) {
            None => None,
            Some(r) => {
                proof {
                    let top = self.parent.len();
                    assert(self.grown_at(top, x as int));
                    assert(self.grown_at(top, r as int));
                }
                Some(self.sizes[r])
            },
        }
    }
}

} // verus!

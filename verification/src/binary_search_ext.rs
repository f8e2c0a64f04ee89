//! Binary search on slices whose items are partitioned by a predicate.

use vstd::prelude::*;
use vstd::std_specs::cmp::{PartialOrdIs, PartialOrdSpec};

verus! {

/// Comparisons of `T` with `<`, `<=`, `>`, `>=` go by its specification.
pub open spec fn ordered<T: PartialOrd>() -> bool {
    T::obeys_partial_cmp_spec()
}

/// `x >= v`.
pub open spec fn at_least<T: PartialOrd>(x: T, v: T) -> bool {
    x.is_ge(&v)
}

/// `x > v`.
pub open spec fn above<T: PartialOrd>(x: T, v: T) -> bool {
    x.is_gt(&v)
}

/// `p` is what `f` computes: whatever `f` returns on `x` is `p(x)`.
pub open spec fn decides<T, P: Fn(&T) -> bool>(f: P, p: spec_fn(T) -> bool) -> bool {
    forall|x: T, r: bool| #[trigger] call_ensures(f, (&x,), r) ==> r == p(x)
}

/// Once `p` holds of an item of `s`, it holds of every later item.
pub open spec fn is_partitioned<T>(s: Seq<T>, p: spec_fn(T) -> bool) -> bool {
    forall|i: int, j: int| 0 <= i <= j < s.len() && p(s[i]) ==> p(s[j])
}

/// `r` is where `p` begins to hold in `s`: it holds of no item before `r`
/// and of every item from `r` on.
pub open spec fn is_partition_point<T>(s: Seq<T>, p: spec_fn(T) -> bool, r: int) -> bool {
    &&& 0 <= r <= s.len()
    &&& forall|i: int| 0 <= i < r ==> !p(#[trigger] s[i])
    &&& forall|i: int| r <= i < s.len() ==> p(#[trigger] s[i])
}

/// A sequence has at most one partition point.
pub proof fn lemma_partition_point_is_unique<T>(s: Seq<T>, p: spec_fn(T) -> bool, a: int, b: int)
    requires
        is_partition_point(s, p, a),
        is_partition_point(s, p, b),
    ensures
        a == b,
{
    if a < b {
        assert(p(s[a]));
        assert(!p(s[a]));
    } else if b < a {
        assert(p(s[b]));
        assert(!p(s[b]));
    }
}

/// Where `p` fails just before `r` and holds at `r`, in a sequence that `p`
/// partitions, `r` is the partition point.
pub proof fn lemma_boundary_is_partition_point<T>(s: Seq<T>, p: spec_fn(T) -> bool, r: int)
    requires
        is_partitioned(s, p),
        0 <= r <= s.len(),
        r > 0 ==> !p(s[r - 1]),
        r < s.len() ==> p(s[r]),
    ensures
        is_partition_point(s, p, r),
{
}

/// Binary search on a slice.
pub trait BinarySearchExt {
    type Item;

    /// The items, in order.
    spec fn items(&self) -> Seq<Self::Item>;

    /// In a slice sorted in ascending order, the least index whose item is
    /// greater than or equal to `value`; the length where there is none. On
    /// any other slice an index up to the length.
    fn lower_bound(&self, value: &Self::Item) -> (r: usize) where Self::Item: Ord
        requires
            2 * self.items().len() <= i64::MAX,
        ensures
            r <= self.items().len(),
            ordered::<Self::Item>() && is_partitioned(self.items(), |x: Self::Item| at_least(x, *value))
                ==> is_partition_point(self.items(), |x: Self::Item| at_least(x, *value), r as int),
    ;

    /// In a slice sorted in ascending order, the least index whose item is
    /// greater than `value`; the length where there is none. On any other
    /// slice an index up to the length.
    fn upper_bound(&self, value: &Self::Item) -> (r: usize) where Self::Item: Ord
        requires
            2 * self.items().len() <= i64::MAX,
        ensures
            r <= self.items().len(),
            ordered::<Self::Item>() && is_partitioned(self.items(), |x: Self::Item| above(x, *value))
                ==> is_partition_point(self.items(), |x: Self::Item| above(x, *value), r as int),
    ;

    /// The least index whose item satisfies `predicate`, for every predicate
    /// that `predicate` computes and that partitions the slice; the length
    /// where no item satisfies it.
    fn lower_bound_by<P: Fn(&Self::Item) -> bool>(&self, predicate: P) -> (r: usize)
        requires
            2 * self.items().len() <= i64::MAX,
            forall|i: int|
                0 <= i < self.items().len() ==> call_requires(predicate, (&#[trigger] self.items()[i],)),
        ensures
            r <= self.items().len(),
            forall|p: spec_fn(Self::Item) -> bool|
                #[trigger] decides(predicate, p) && is_partitioned(self.items(), p)
                    ==> is_partition_point(self.items(), p, r as int),
    ;
}

impl<T> BinarySearchExt for [T] {
    type Item = T;

    open spec fn items(&self) -> Seq<T> {
        self@
    }

    fn lower_bound(&self, value: &T) -> (r: usize) where T: Ord {
        let ghost p = |x: T| at_least(x, *value);
        let mut ok: i64 = self.len() as i64;
        let mut ng: i64 = -1;
        while ok - ng > 1
            invariant
                -1 <= ng < ok <= self@.len(),
                2 * self@.len() <= i64::MAX,
                p == |x: T| at_least(x, *value),
                ordered::<T>() ==> (ng >= 0 ==> !p(self@[ng as int])) && (ok < self@.len() ==> p(
                    self@[ok as int],
                )),
            decreases ok - ng,
        {
            let mid = (ok + ng) / 2;
            if self[mid as usize] >= *value {
                ok = mid;
            } else {
                ng = mid;
            }
        }
        proof {
            if ordered::<T>() && is_partitioned(self@, p) {
                lemma_boundary_is_partition_point(self@, p, ok as int);
            }
        }
        ok as usize
    }

    fn upper_bound(&self, value: &T) -> (r: usize) where T: Ord {
        let ghost p = |x: T| above(x, *value);
        let mut ok: i64 = self.len() as i64;
        let mut ng: i64 = -1;
        while ok - ng > 1
            invariant
                -1 <= ng < ok <= self@.len(),
                2 * self@.len() <= i64::MAX,
                p == |x: T| above(x, *value),
                ordered::<T>() ==> (ng >= 0 ==> !p(self@[ng as int])) && (ok < self@.len() ==> p(
                    self@[ok as int],
                )),
            decreases ok - ng,
        {
            let mid = (ok + ng) / 2;
            if self[mid as usize] > *value {
                ok = mid;
            } else {
                ng = mid;
            }
        }
        proof {
            if ordered::<T>() && is_partitioned(self@, p) {
                lemma_boundary_is_partition_point(self@, p, ok as int);
            }
        }
        ok as usize
    }

    fn lower_bound_by<P: Fn(&T) -> bool>(&self, predicate: P) -> (r: usize) {
        let mut ok: i64 = self.len() as i64;
        let mut ng: i64 = -1;
        while ok - ng > 1
            invariant
                -1 <= ng < ok <= self@.len(),
                2 * self@.len() <= i64::MAX,
                forall|i: int| 0 <= i < self@.len() ==> call_requires(predicate, (&#[trigger] self@[i],)),
                forall|p: spec_fn(T) -> bool| #[trigger]
                    decides(predicate, p) ==> (ng >= 0 ==> !p(self@[ng as int])) && (ok < self@.len()
                        ==> p(self@[ok as int])),
            decreases ok - ng,
        {
            let mid = (ok + ng) / 2;
            if predicate(&self[mid as usize]) {
                ok = mid;
            } else {
                ng = mid;
            }
        }
        proof {
            assert forall|p: spec_fn(T) -> bool| #[trigger]
                decides(predicate, p) && is_partitioned(self@, p) implies is_partition_point(
                self@,
                p,
                ok as int,
            ) by {
                lemma_boundary_is_partition_point(self@, p, ok as int);
            }
        }
        ok as usize
    }
}

} // verus!

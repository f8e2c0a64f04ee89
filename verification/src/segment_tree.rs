//! A fixed-capacity tree that answers aggregate queries over ranges of
//! leaves for any associative combining function with a neutral element.

use vstd::prelude::*;

verus! {

/// `op` is what `f` computes: whatever `f` returns on `(a, b)` is `op(a, b)`.
pub open spec fn computes<T, F: Fn(T, T) -> T>(f: F, op: spec_fn(T, T) -> T) -> bool {
    forall|a: T, b: T, r: T| #[trigger] call_ensures(f, (a, b), r) ==> r == op(a, b)
}

/// `f` may be called on every pair of values.
pub open spec fn is_total<T, F: Fn(T, T) -> T>(f: F) -> bool {
    forall|a: T, b: T| #[trigger] call_requires(f, (a, b))
}

/// The values in `carrier` form a monoid under `op` with the neutral element
/// `id`.
pub open spec fn is_monoid<T>(carrier: spec_fn(T) -> bool, op: spec_fn(T, T) -> T, id: T) -> bool {
    &&& carrier(id)
    &&& forall|a: T, b: T| carrier(a) && carrier(b) ==> carrier(#[trigger] op(a, b))
    &&& forall|a: T| #[trigger] carrier(a) ==> op(id, a) == a && op(a, id) == a
    &&& forall|a: T, b: T, c: T|
        carrier(a) && carrier(b) && carrier(c) ==> #[trigger] op(op(a, b), c) == op(a, op(b, c))
}

/// Every value of `s` lies in `carrier`.
pub open spec fn all_in<T>(carrier: spec_fn(T) -> bool, s: Seq<T>) -> bool {
    forall|k: int| 0 <= k < s.len() ==> carrier(#[trigger] s[k])
}

/// The left-to-right fold of `op` over `s`, seeded with `id`.
pub open spec fn fold<T>(op: spec_fn(T, T) -> T, id: T, s: Seq<T>) -> T {
    s.fold_left(id, op)
}

/// The smallest power of two that is at least `size`, and at least one.
pub open spec fn padded(size: nat) -> nat
    decreases size,
{
    if size <= 1 {
        1
    } else {
        2 * padded(((size + 1) / 2) as nat)
    }
}

/// `n` is a power of two.
pub open spec fn is_power_of_two(n: nat) -> bool
    decreases n,
{
    if n <= 1 {
        n == 1
    } else {
        n % 2 == 0 && is_power_of_two(n / 2)
    }
}

/// Slot `j` is `node` or lies on the way from `node` up to the root.
pub open spec fn reaches(j: int, node: int) -> bool
    decreases node,
{
    if node <= j || node <= 0 {
        node == j
    } else {
        reaches(j, (node - 1) / 2)
    }
}

/// Slot `j` lies strictly above `node` on the way to the root.
pub open spec fn is_above(j: int, node: int) -> bool {
    node > 0 && reaches(j, (node - 1) / 2)
}

/// Slot `j` of `slots` holds the combination of its two children.
pub open spec fn node_combines<T>(op: spec_fn(T, T) -> T, slots: Seq<T>, j: int) -> bool {
    slots[j] == op(slots[2 * j + 1], slots[2 * j + 2])
}

/// Whatever `f` computes, with `id` combined with itself giving `id`: every
/// one of the first `internal` slots holds the combination of its children,
/// but for those strictly above `node`.
pub open spec fn combined_except_above<T, F: Fn(T, T) -> T>(
    f: F,
    id: T,
    slots: Seq<T>,
    internal: int,
    node: int,
) -> bool {
    forall|op: spec_fn(T, T) -> T| #[trigger]
        computes(f, op) && op(id, id) == id ==> forall|j: int|
            0 <= j < internal && !is_above(j, node) ==> #[trigger] node_combines(op, slots, j)
}

/// The part of `leaves` that lies both in `[begin, end)` and in `[left, right)`.
pub open spec fn overlap<T>(leaves: Seq<T>, begin: int, end: int, left: int, right: int) -> Seq<T> {
    let lo = if begin < left { left } else { begin };
    let hi = if end < right { end } else { right };
    if lo < hi {
        leaves.subrange(lo, hi)
    } else {
        Seq::empty()
    }
}

/// A node that covers the span `[left, right)` of `n` leaves sits at slot
/// `node`.
pub open spec fn covers(n: int, node: int, left: int, right: int) -> bool {
    &&& 0 <= left < right <= n
    &&& 0 <= node
    &&& is_power_of_two((right - left) as nat)
    &&& (node + 1) * (right - left) == n + left
}

/// The padded size is a power of two, and no less than the size.
pub proof fn lemma_padded_is_power_of_two(size: nat)
    ensures
        is_power_of_two(padded(size)),
        padded(size) >= size,
        padded(size) >= 1,
    decreases size,
{
    if size > 1 {
        lemma_padded_is_power_of_two(((size + 1) / 2) as nat);
    }
}

/// Twice a power of two below `size` is at most the padded size.
proof fn lemma_doubling_stays_below(n: nat, size: nat)
    requires
        is_power_of_two(n),
        n < size,
    ensures
        2 * n <= padded(size),
    decreases size,
{
    let half = ((size + 1) / 2) as nat;
    lemma_padded_is_power_of_two(half);
    if n > 1 {
        lemma_doubling_stays_below(n / 2, half);
    }
}

/// The least power of two that is no less than `size` is the padded size.
proof fn lemma_least_power_is_padded(n: nat, size: nat)
    requires
        is_power_of_two(n),
        n >= size,
        n == 1 || n / 2 < size,
    ensures
        n == padded(size),
    decreases n,
{
    if size > 1 {
        lemma_least_power_is_padded(n / 2, ((size + 1) / 2) as nat);
    }
}

/// A node that covers a span is a slot of the tree: a leaf where the span
/// holds one leaf, an internal node where it holds more.
proof fn lemma_slot_in_bounds(n: int, node: int, left: int, right: int)
    requires
        covers(n, node, left, right),
    ensures
        node < 2 * n - 1,
        right - left == 1 ==> node == n - 1 + left,
        right - left >= 2 ==> node < n - 1,
{
    let len = right - left;
    if len == 1 {
        assert((node + 1) * len == node + 1) by (nonlinear_arith)
            requires
                len == 1,
        ;
    }
    assert(node + 1 < 2 * n) by (nonlinear_arith)
        requires
            (node + 1) * len == n + left,
            len >= 1,
            left < n,
            node >= 0,
    ;
    if len >= 2 {
        assert(node + 1 < n) by (nonlinear_arith)
            requires
                (node + 1) * len == n + left,
                len >= 2,
                left < n,
                node >= 0,
        ;
    }
}

/// The children of a node that covers more than one leaf cover the two
/// halves of its span.
proof fn lemma_children_cover(n: int, node: int, left: int, right: int)
    requires
        covers(n, node, left, right),
        right - left >= 2,
    ensures
        (right - left) % 2 == 0,
        covers(n, 2 * node + 1, left, left + (right - left) / 2),
        covers(n, 2 * node + 2, left + (right - left) / 2, right),
        left + (right - left) / 2 == (left + right) / 2,
{
    let len = right - left;
    let half = len / 2;
    assert(is_power_of_two(half as nat));
    assert((2 * node + 2) * half == n + left) by (nonlinear_arith)
        requires
            (node + 1) * len == n + left,
            len == 2 * half,
    ;
    assert((2 * node + 3) * half == n + left + half) by (nonlinear_arith)
        requires
            (2 * node + 2) * half == n + left,
    ;
}

/// A complete binary tree over a power of two of leaves, laid out in one
/// vector: every internal node holds the combination of its two children, so
/// that the combination of any range of leaves takes a logarithmic number of
/// calls of the combining function.
#[verifier::reject_recursive_types(T)]
pub struct SegmentTree<T, F> where T: Clone + Copy, F: Fn(T, T) -> T {
    values: Vec<T>,
    n_leaves: usize,
    identity_elem: T,
    func: F,
}

impl<T, F> SegmentTree<T, F> where T: Clone + Copy, F: Fn(T, T) -> T {
    /// Every slot of the implicit tree: the root first, the leaves last.
    pub closed spec fn slots(&self) -> Seq<T> {
        self.values@
    }

    /// The number of leaves.
    pub closed spec fn leaf_count(&self) -> nat {
        self.n_leaves as nat
    }

    /// The neutral element given at construction.
    pub closed spec fn identity(&self) -> T {
        self.identity_elem
    }

    /// The combining function given at construction.
    pub closed spec fn func(&self) -> F {
        self.func
    }

    /// The leaf values, by logical position.
    pub open spec fn leaves(&self) -> Seq<T> {
        self.slots().subrange(self.leaf_count() - 1, 2 * self.leaf_count() - 1)
    }

    /// Every internal slot holds the combination of its two children,
    /// whatever operation the combining function computes, so long as that
    /// operation combines the neutral element with itself to itself.
    pub open spec fn nodes_combine_children(&self) -> bool {
        forall|op: spec_fn(T, T) -> T| #[trigger]
            computes(self.func(), op) && op(self.identity(), self.identity()) == self.identity()
                ==> forall|i: int|
                0 <= i < self.leaf_count() - 1 ==> #[trigger] node_combines(op, self.slots(), i)
    }

    /// The tree's invariant.
    pub open spec fn wf(&self) -> bool {
        &&& is_power_of_two(self.leaf_count())
        &&& self.slots().len() == 2 * self.leaf_count() - 1
        &&& is_total(self.func())
        &&& self.nodes_combine_children()
    }

    /// The tree's leaves lie in a monoid whose operation the combining
    /// function computes and whose neutral element is the tree's.
    pub open spec fn is_modelled_by(&self, carrier: spec_fn(T) -> bool, op: spec_fn(T, T) -> T) -> bool {
        &&& is_monoid(carrier, op, self.identity())
        &&& computes(self.func(), op)
        &&& all_in(carrier, self.leaves())
    }

    /// What a query over `[begin, end)` is under `op`: the fold of the leaves
    /// in the range.
    pub open spec fn spec_query(&self, op: spec_fn(T, T) -> T, begin: int, end: int) -> T {
        fold(op, self.identity(), self.leaves().subrange(begin, end))
    }

    /// `r` answers a query over `[begin, end)`: it is the fold of the leaves
    /// in the range under every monoid that models the tree.
    pub open spec fn is_query_result(&self, begin: int, end: int, r: T) -> bool {
        forall|carrier: spec_fn(T) -> bool, op: spec_fn(T, T) -> T| #[trigger]
            self.is_modelled_by(carrier, op) ==> r == self.spec_query(op, begin, end)
    }

    /// `r` is the fold, under every monoid that models the tree, of the
    /// leaves that lie both in `[begin, end)` and in `[left, right)`.
    pub open spec fn is_overlap_result(&self, begin: int, end: int, left: int, right: int, r: T) -> bool {
        forall|carrier: spec_fn(T) -> bool, op: spec_fn(T, T) -> T| #[trigger]
            self.is_modelled_by(carrier, op) ==> r == fold(
                op,
                self.identity(),
                overlap(self.leaves(), begin, end, left, right),
            )
    }

    /// A node's slot holds the fold of the leaves that it covers.
    pub proof fn lemma_node_is_fold(
        &self,
        carrier: spec_fn(T) -> bool,
        op: spec_fn(T, T) -> T,
        node: int,
        left: int,
        right: int,
    )
        requires
            self.wf(),
            self.is_modelled_by(carrier, op),
            covers(self.leaf_count() as int, node, left, right),
        ensures
            0 <= node < self.slots().len(),
            self.slots()[node] == fold(op, self.identity(), self.leaves().subrange(left, right)),
        decreases right - left,
    {
        let n = self.leaf_count() as int;
        let id = self.identity();
        let span = self.leaves().subrange(left, right);
        lemma_slot_in_bounds(n, node, left, right);
        if right - left == 1 {
            assert(span[0] == self.leaves()[left]);
            lemma_fold_of_one(carrier, op, id, span);
        } else {
            lemma_children_cover(n, node, left, right);
            let mid = left + (right - left) / 2;
            self.lemma_node_is_fold(carrier, op, 2 * node + 1, left, mid);
            self.lemma_node_is_fold(carrier, op, 2 * node + 2, mid, right);
            let a = self.leaves().subrange(left, mid);
            let b = self.leaves().subrange(mid, right);
            assert(a + b =~= span);
            lemma_fold_of_concatenation(carrier, op, id, a, b);
            assert(computes(self.func(), op) && op(id, id) == id);
            assert(!is_above(node, 0));
            assert(node_combines(op, self.slots(), node));
        }
    }

    /// A query over an empty range yields the neutral element.
    pub proof fn lemma_empty_range_is_identity(&self, carrier: spec_fn(T) -> bool, op: spec_fn(T, T) -> T, k: int, r: T)
        requires
            self.wf(),
            self.is_modelled_by(carrier, op),
            0 <= k <= self.leaf_count(),
            self.is_query_result(k, k, r),
        ensures
            r == self.identity(),
    {
        assert(self.leaves().subrange(k, k).len() == 0);
    }

    /// A query over one leaf yields that leaf.
    pub proof fn lemma_single_leaf_query(&self, carrier: spec_fn(T) -> bool, op: spec_fn(T, T) -> T, i: int)
        requires
            self.wf(),
            self.is_modelled_by(carrier, op),
            0 <= i < self.leaf_count(),
        ensures
            self.spec_query(op, i, i + 1) == self.leaves()[i],
    {
        let one = self.leaves().subrange(i, i + 1);
        assert(one[0] == self.leaves()[i]);
        lemma_fold_of_one(carrier, op, self.identity(), one);
    }

    /// Two answers to one query on one tree are equal.
    pub proof fn lemma_query_results_agree(
        &self,
        carrier: spec_fn(T) -> bool,
        op: spec_fn(T, T) -> T,
        begin: int,
        end: int,
        first: T,
        second: T,
    )
        requires
            self.is_modelled_by(carrier, op),
            self.is_query_result(begin, end, first),
            self.is_query_result(begin, end, second),
        ensures
            first == second,
    {
    }

    /// Right after leaf `i` is set to `v`, a query over `[i, i + 1)` yields
    /// `v`.
    pub proof fn lemma_update_is_visible(
        before: &Self,
        after: &Self,
        carrier: spec_fn(T) -> bool,
        op: spec_fn(T, T) -> T,
        i: int,
        v: T,
        r: T,
    )
        requires
            before.wf(),
            after.wf(),
            after.is_modelled_by(carrier, op),
            0 <= i < before.leaf_count(),
            after.leaf_count() == before.leaf_count(),
            after.leaves() == before.leaves().update(i, v),
            after.is_query_result(i, i + 1, r),
        ensures
            r == v,
    {
        after.lemma_single_leaf_query(carrier, op, i);
        assert(after.leaves()[i] == v);
    }

    /// A tree of the smallest power of two of leaves that is at least `size`
    /// (one where `size` is zero), each slot set to `init_value`.
    pub fn new(init_value: T, size: usize, func: F) -> (tree: Self)
        requires
            2 * padded(size as nat) <= usize::MAX,
            is_total(func),
        ensures
            tree.wf(),
            tree.leaf_count() == padded(size as nat),
            tree.identity() == init_value,
            tree.func() == func,
            tree.slots() =~= Seq::new((2 * padded(size as nat) - 1) as nat, |k: int| init_value),
            tree.leaves() =~= Seq::new(padded(size as nat), |k: int| init_value),
    {
        let mut n: usize = 1;
        while n < size
            invariant
                n >= 1,
                is_power_of_two(n as nat),
                n == 1 || n / 2 < size,
                2 * padded(size as nat) <= usize::MAX,
            decreases padded(size as nat) - n,
        {
            proof {
                lemma_doubling_stays_below(n as nat, size as nat);
            }
            n = n * 2;
        }
        proof {
            lemma_least_power_is_padded(n as nat, size as nat);
        }
        let total: usize = 2 * n - 1;
        let mut values: Vec<T> = Vec::new();
        while values.len() < total
            invariant
                values.len() <= total,
                forall|k: int| 0 <= k < values.len() ==> values[k] == init_value,
            decreases total - values.len(),
        {
            values.push(init_value);
        }
        Self { values, n_leaves: n, identity_elem: init_value, func }
    }

    /// Sets leaf `leaf_number` to `replace_value` and recomputes every node
    /// above it, from the leaf's parent up to the root.
    pub fn update(&mut self, leaf_number: usize, replace_value: T)
        requires
            old(self).wf(),
            leaf_number < old(self).leaf_count(),
        ensures
            final(self).wf(),
            final(self).nodes_combine_children(),
            final(self).leaf_count() == old(self).leaf_count(),
            final(self).identity() == old(self).identity(),
            final(self).func() == old(self).func(),
            final(self).leaves() == old(self).leaves().update(leaf_number as int, replace_value),
            final(self).is_query_result(leaf_number as int, leaf_number + 1, replace_value),
    {
        let ghost f = self.func;
        let ghost id = self.identity_elem;
        let ghost n = self.n_leaves as int;
        let ghost new_leaves = self.leaves().update(leaf_number as int, replace_value);
        let ghost before_write = self.values@;
        assert(self.values.len() == 2 * n - 1);
        let mut node_number: usize = leaf_number + self.n_leaves - 1;
        self.values.set(node_number, replace_value);
        proof {
            assert(self.leaves() =~= new_leaves);
            assert forall|op: spec_fn(T, T) -> T| #[trigger]
                computes(f, op) && op(id, id) == id implies forall|j: int|
                0 <= j < n - 1 && !is_above(j, node_number as int) ==> #[trigger] node_combines(
                    op,
                    self.values@,
                    j,
                ) by {
                assert forall|j: int|
                    0 <= j < n - 1 && !is_above(j, node_number as int) implies #[trigger] node_combines(
                    op,
                    self.values@,
                    j,
                ) by {
                    assert(!is_above(j, 0));
                    assert(node_combines(op, before_write, j));
                    if 2 * j + 1 == node_number || 2 * j + 2 == node_number {
                        assert((node_number - 1) / 2 == j);
                        assert(reaches(j, j));
                    }
                }
            }
        }
        while node_number > 0
            invariant
                self.func == f,
                self.identity_elem == id,
                self.n_leaves == n,
                n >= 1,
                self.values.len() == 2 * n - 1,
                node_number < 2 * n - 1,
                is_total(f),
                self.leaves() == new_leaves,
                combined_except_above(f, id, self.values@, n - 1, node_number as int),
            decreases node_number,
        {
            let ghost before = self.values@;
            let ghost child = node_number as int;
            node_number = (node_number - 1) / 2;
            let left = self.values[node_number * 2 + 1];
            let right = self.values[node_number * 2 + 2];
            let merged = (self.func)(left, right);
            self.values.set(node_number, merged);
            proof {
                let p = node_number as int;
                assert(self.leaves() =~= new_leaves);
                assert forall|op: spec_fn(T, T) -> T| #[trigger]
                    computes(f, op) && op(id, id) == id implies forall|j: int|
                    0 <= j < n - 1 && !is_above(j, p) ==> #[trigger] node_combines(
                        op,
                        self.values@,
                        j,
                    ) by {
                    assert forall|j: int| 0 <= j < n - 1 && !is_above(j, p) implies #[trigger] node_combines(
                        op,
                        self.values@,
                        j,
                    ) by {
                        if j != p {
                            assert(!reaches(j, p));
                            assert(!is_above(j, child));
                            assert(node_combines(op, before, j));
                            if 2 * j + 1 == p || 2 * j + 2 == p {
                                assert((p - 1) / 2 == j);
                                assert(reaches(j, j));
                            }
                        }
                    }
                }
            }
        }
        proof {
            assert forall|carrier: spec_fn(T) -> bool, op: spec_fn(T, T) -> T| #[trigger]
                self.is_modelled_by(carrier, op) implies replace_value == self.spec_query(
                op,
                leaf_number as int,
                leaf_number + 1,
            ) by {
                self.lemma_single_leaf_query(carrier, op, leaf_number as int);
            }
        }
    }

    /// The fold of the leaves in `[begin, end)`, left to right; the neutral
    /// element where the range is empty.
    pub fn query(&self, begin: usize, end: usize) -> (r: T)
        requires
            self.wf(),
            begin <= end <= self.leaf_count(),
        ensures
            self.is_query_result(begin as int, end as int, r),
    {
        proof {
            assert(overlap(self.leaves(), begin as int, end as int, 0, self.n_leaves as int)
                =~= self.leaves().subrange(begin as int, end as int));
        }
        self.internal_query(begin, end, 0, 0, self.n_leaves)
    }

    fn internal_query(&self, begin: usize, end: usize, node_number: usize, left: usize, right: usize) -> (r: T)
        requires
            self.wf(),
            begin <= end <= self.leaf_count(),
            covers(self.leaf_count() as int, node_number as int, left as int, right as int),
        ensures
            self.is_overlap_result(begin as int, end as int, left as int, right as int, r),
        decreases right - left,
    {
        let ghost id = self.identity_elem;
        let ghost n = self.n_leaves as int;
        proof {
            lemma_slot_in_bounds(n, node_number as int, left as int, right as int);
        }
        assert(self.values.len() == 2 * n - 1);
        if right <= begin || end <= left {
            self.identity_elem
        } else if begin <= left && right <= end {
            proof {
                assert forall|carrier: spec_fn(T) -> bool, op: spec_fn(T, T) -> T| #[trigger]
                    self.is_modelled_by(carrier, op) implies self.values@[node_number as int] == fold(
                    op,
                    id,
                    overlap(self.leaves(), begin as int, end as int, left as int, right as int),
                ) by {
                    self.lemma_node_is_fold(carrier, op, node_number as int, left as int, right as int);
                }
            }
            self.values[node_number]
        } else {
            proof {
                lemma_children_cover(n, node_number as int, left as int, right as int);
            }
            let mid = (left + right) / 2;
            let c1 = self.internal_query(begin, end, 2 * node_number + 1, left, mid);
            let c2 = self.internal_query(begin, end, 2 * node_number + 2, mid, right);
            let r = (self.func)(c1, c2);
            proof {
                let a = overlap(self.leaves(), begin as int, end as int, left as int, mid as int);
                let b = overlap(self.leaves(), begin as int, end as int, mid as int, right as int);
                assert(a + b =~= overlap(
                    self.leaves(),
                    begin as int,
                    end as int,
                    left as int,
                    right as int,
                ));
                assert forall|carrier: spec_fn(T) -> bool, op: spec_fn(T, T) -> T| #[trigger]
                    self.is_modelled_by(carrier, op) implies r == fold(op, id, a + b) by {
                    assert(all_in(carrier, a)) by {
                        let lo = if begin < left { left as int } else { begin as int };
                        assert forall|k: int| 0 <= k < a.len() implies carrier(#[trigger] a[k]) by {
                            assert(a[k] == self.leaves()[lo + k]);
                        }
                    }
                    assert(all_in(carrier, b)) by {
                        let lo = if begin < mid { mid as int } else { begin as int };
                        assert forall|k: int| 0 <= k < b.len() implies carrier(#[trigger] b[k]) by {
                            assert(b[k] == self.leaves()[lo + k]);
                        }
                    }
                    lemma_fold_of_concatenation(carrier, op, id, a, b);
                }
            }
            r
        }
    }
}

/// The fold of values of a monoid lies in the monoid.
pub proof fn lemma_fold_in_carrier<T>(carrier: spec_fn(T) -> bool, op: spec_fn(T, T) -> T, id: T, s: Seq<T>)
    requires
        is_monoid(carrier, op, id),
        all_in(carrier, s),
    ensures
        carrier(fold(op, id, s)),
    decreases s.len(),
{
    if s.len() > 0 {
        let init = s.drop_last();
        assert forall|k: int| 0 <= k < init.len() implies carrier(#[trigger] init[k]) by {
            assert(init[k] == s[k]);
        }
        lemma_fold_in_carrier(carrier, op, id, init);
        assert(carrier(s.last()));
    }
}

/// The fold of one value of a monoid is that value.
pub proof fn lemma_fold_of_one<T>(carrier: spec_fn(T) -> bool, op: spec_fn(T, T) -> T, id: T, s: Seq<T>)
    requires
        is_monoid(carrier, op, id),
        s.len() == 1,
        carrier(s[0]),
    ensures
        fold(op, id, s) == s[0],
{
    assert(s.drop_last().len() == 0);
    assert(fold(op, id, s.drop_last()) == id);
    assert(s.last() == s[0]);
}

/// The fold of two sequences laid end to end is the combination of their
/// folds.
pub proof fn lemma_fold_of_concatenation<T>(
    carrier: spec_fn(T) -> bool,
    op: spec_fn(T, T) -> T,
    id: T,
    a: Seq<T>,
    b: Seq<T>,
)
    requires
        is_monoid(carrier, op, id),
        all_in(carrier, a),
        all_in(carrier, b),
    ensures
        fold(op, id, a + b) == op(fold(op, id, a), fold(op, id, b)),
    decreases b.len(),
{
    lemma_fold_in_carrier(carrier, op, id, a);
    if b.len() == 0 {
        assert(a + b =~= a);
    } else {
        let init = b.drop_last();
        assert((a + b).drop_last() =~= a + init);
        assert((a + b).last() == b.last());
        assert forall|k: int| 0 <= k < init.len() implies carrier(#[trigger] init[k]) by {
            assert(init[k] == b[k]);
        }
        lemma_fold_of_concatenation(carrier, op, id, a, init);
        lemma_fold_in_carrier(carrier, op, id, init);
        assert(carrier(b.last()));
        assert(op(op(fold(op, id, a), fold(op, id, init)), b.last()) == op(
            fold(op, id, a),
            op(fold(op, id, init), b.last()),
        ));
    }
}

} // verus!

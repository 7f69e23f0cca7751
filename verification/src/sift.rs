//! Mathematical models of the two repair moves of the heap, sifting a node
//! down and sifting a node up, and of building a heap bottom-up, together
//! with the facts that make them correct.

use vstd::prelude::*;
use crate::index::{
    child, lemma_non_leaf, lemma_parent_bounds, lemma_parent_iff_range, non_leaf_count, parent,
};
use crate::order::{heap_from, lemma_heap_from_zero, lemma_swap_multiset, max_heap, swap};

verus! {

/// The position holding the largest value among node `i` and its first `n`
/// children that lie inside the sequence. Ties go to the position met first:
/// the node itself, then the children from left to right.
pub open spec fn pick_largest(s: Seq<i32>, d: int, i: int, n: int) -> int
    decreases n,
{
    if n <= 0 {
        i
    } else {
        let best = pick_largest(s, d, i, n - 1);
        let c = child(d, i, n - 1);
        if c < s.len() && s[c] > s[best] {
            c
        } else {
            best
        }
    }
}

/// The sequence after sifting the node at position `i` down: while one of its
/// children holds a strictly larger value, the node is exchanged with its
/// largest child and followed to that position.
pub open spec fn sift_down(s: Seq<i32>, d: int, i: int) -> Seq<i32>
    decreases s.len() - i,
{
    let m = pick_largest(s, d, i, d);
    if 0 <= i < m < s.len() {
        sift_down(swap(s, i, m), d, m)
    } else {
        s
    }
}

/// The sequence after sifting the node at position `i` up: while it is
/// strictly larger than its parent, the two are exchanged.
pub open spec fn sift_up(s: Seq<i32>, d: int, i: int) -> Seq<i32>
    decreases i,
    via sift_up_decreases
{
    if d >= 1 && 0 < i < s.len() && s[i] > s[parent(d, i)] {
        sift_up(swap(s, i, parent(d, i)), d, parent(d, i))
    } else {
        s
    }
}

#[via_fn]
proof fn sift_up_decreases(s: Seq<i32>, d: int, i: int) {
    if d >= 1 && 0 < i {
        lemma_parent_bounds(d, i);
    }
}

/// The sequence after sifting down the nodes at positions `k - 1`, `k - 2`,
/// ..., `0`, in this order.
pub open spec fn heapify_prefix(s: Seq<i32>, d: int, k: int) -> Seq<i32>
    decreases k,
{
    if k <= 0 {
        s
    } else {
        heapify_prefix(sift_down(s, d, k - 1), d, k - 1)
    }
}

/// The heap built bottom-up from an arbitrary sequence: every node that has a
/// child is sifted down, from the last such node to the root.
pub open spec fn build(s: Seq<i32>, d: int) -> Seq<i32> {
    heapify_prefix(s, d, non_leaf_count(s.len() as int, d))
}

/// What `pick_largest` returns: the node itself or one of the children that
/// were looked at, holding a value that none of them exceeds, and a child
/// only if that child is strictly larger than the node.
pub proof fn lemma_pick_largest(s: Seq<i32>, d: int, i: int, n: int)
    requires
        d >= 1,
        0 <= i < s.len(),
        0 <= n,
    ensures
        ({
            let m = pick_largest(s, d, i, n);
            &&& i <= m < s.len()
            &&& (m == i || d * i + 1 <= m <= d * i + n)
            &&& s[i] <= s[m]
            &&& (m != i ==> s[i] < s[m])
            &&& forall|c: int| d * i + 1 <= c <= d * i + n && c < s.len() ==> #[trigger] s[c] <= s[m]
        }),
    decreases n,
{
    assert(d * i >= i) by (nonlinear_arith)
        requires
            d >= 1,
            i >= 0,
    ;
    if n > 0 {
        lemma_pick_largest(s, d, i, n - 1);
    }
}

/// Where no child inside the sequence exceeds the node, the node is picked.
pub proof fn lemma_pick_largest_stays(s: Seq<i32>, d: int, i: int, n: int)
    requires
        0 <= i < s.len(),
        forall|c: int| d * i + 1 <= c <= d * i + n && c < s.len() ==> #[trigger] s[c] <= s[i],
    ensures
        pick_largest(s, d, i, n) == i,
    decreases n,
{
    if n > 0 {
        lemma_pick_largest_stays(s, d, i, n - 1);
        let c = child(d, i, n - 1);
        if c < s.len() {
            assert(s[c] <= s[i]);
        }
    }
}

/// Children past the end of the sequence do not change the pick.
pub proof fn lemma_pick_largest_past_end(s: Seq<i32>, d: int, i: int, n0: int, n: int)
    requires
        0 <= n0 <= n,
        child(d, i, n0) >= s.len(),
    ensures
        pick_largest(s, d, i, n) == pick_largest(s, d, i, n0),
    decreases n,
{
    if n > n0 {
        lemma_pick_largest_past_end(s, d, i, n0, n - 1);
    }
}

/// Sifting down keeps the length and the multiset of values.
pub proof fn lemma_sift_down_permutes(s: Seq<i32>, d: int, i: int)
    ensures
        sift_down(s, d, i).len() == s.len(),
        sift_down(s, d, i).to_multiset() == s.to_multiset(),
    decreases s.len() - i,
{
    let m = pick_largest(s, d, i, d);
    if 0 <= i < m < s.len() {
        lemma_swap_multiset(s, i, m);
        lemma_sift_down_permutes(swap(s, i, m), d, m);
    }
}

/// Sifting up keeps the length and the multiset of values.
pub proof fn lemma_sift_up_permutes(s: Seq<i32>, d: int, i: int)
    ensures
        sift_up(s, d, i).len() == s.len(),
        sift_up(s, d, i).to_multiset() == s.to_multiset(),
    decreases i,
{
    if d >= 1 && 0 < i < s.len() && s[i] > s[parent(d, i)] {
        lemma_parent_bounds(d, i);
        lemma_swap_multiset(s, i, parent(d, i));
        lemma_sift_up_permutes(swap(s, i, parent(d, i)), d, parent(d, i));
    }
}

/// The state in which sifting node `i` down repairs the order from position
/// `k` on: every parent from `k` on other than `i` dominates its children,
/// and the parent of `i`, where it counts, dominates the children of `i`.
pub open spec fn sift_down_ready(s: Seq<i32>, d: int, k: int, i: int) -> bool {
    &&& forall|j: int|
        0 < j < s.len() && #[trigger] parent(d, j) >= k && parent(d, j) != i
            ==> s[j] <= s[parent(d, j)]
    &&& (i > 0 && parent(d, i) >= k ==> forall|j: int|
        0 < j < s.len() && #[trigger] parent(d, j) == i ==> s[j] <= s[parent(d, i)])
}

/// From a state that is ready for it, sifting node `i` down leaves every
/// node from position `k` on at least as large as its children.
pub proof fn lemma_sift_down_restores(s: Seq<i32>, d: int, k: int, i: int)
    requires
        d >= 1,
        0 <= k <= i,
        sift_down_ready(s, d, k, i),
    ensures
        heap_from(sift_down(s, d, i), d, k),
    decreases s.len() - i,
{
    let m = pick_largest(s, d, i, d);
    if i < s.len() {
        lemma_pick_largest(s, d, i, d);
    }
    if 0 <= i < m < s.len() {
        let t = swap(s, i, m);
        lemma_parent_iff_range(d, i, m);
        assert(parent(d, m) == i);
        assert forall|j: int|
            0 < j < t.len() && #[trigger] parent(d, j) >= k && parent(d, j) != m implies t[j]
            <= t[parent(d, j)] by {
            lemma_parent_bounds(d, j);
            lemma_parent_iff_range(d, i, j);
            if parent(d, j) == i {
                if j != m {
                    assert(s[j] <= s[m]);
                }
            } else if j == i {
                assert(parent(d, m) == i);
                assert(s[m] <= s[parent(d, i)]);
            } else {
                assert(s[j] <= s[parent(d, j)]);
            }
        }
        assert forall|j: int| 0 < j < t.len() && #[trigger] parent(d, j) == m
            implies t[j] <= t[i] by {
            lemma_parent_bounds(d, j);
            assert(s[j] <= s[parent(d, j)]);
        }
        assert(sift_down_ready(t, d, k, m));
        lemma_sift_down_restores(t, d, k, m);
    } else {
        assert forall|j: int| 0 < j < s.len() && #[trigger] parent(d, j) >= k
            implies s[j] <= s[parent(d, j)] by {
            if parent(d, j) == i {
                lemma_parent_bounds(d, j);
                lemma_parent_iff_range(d, i, j);
                assert(s[j] <= s[m]);
            }
        }
    }
}

/// One step of building a heap: when every node after position `i`
/// dominates its children, sifting node `i` down extends this to `i`.
pub proof fn lemma_sift_down_extends(s: Seq<i32>, d: int, i: int)
    requires
        d >= 1,
        0 <= i,
        heap_from(s, d, i + 1),
    ensures
        heap_from(sift_down(s, d, i), d, i),
{
    if i > 0 {
        lemma_parent_bounds(d, i);
    }
    lemma_sift_down_restores(s, d, i, i);
}

/// Sifting down a node that already dominates its children moves nothing.
pub proof fn lemma_sift_down_fixed(s: Seq<i32>, d: int, i: int)
    requires
        d >= 1,
        0 <= i,
        heap_from(s, d, i),
    ensures
        sift_down(s, d, i) == s,
{
    if i < s.len() {
        assert forall|c: int| d * i + 1 <= c <= d * i + d && c < s.len() implies #[trigger] s[c]
            <= s[i] by {
            lemma_parent_iff_range(d, i, c);
            assert(d * i >= 0) by (nonlinear_arith)
                requires
                    d >= 1,
                    i >= 0,
            ;
            assert(parent(d, c) == i);
        }
        lemma_pick_largest_stays(s, d, i, d);
    } else {
        assert(d * i >= i) by (nonlinear_arith)
            requires
                d >= 1,
                i >= 0,
        ;
        lemma_pick_largest_past_end(s, d, i, 0, d);
    }
}

/// The state in which sifting node `i` up repairs the max-heap order: every
/// node other than `i` is at most its parent, and the children of `i` are at
/// most the parent of `i`.
pub open spec fn sift_up_ready(s: Seq<i32>, d: int, i: int) -> bool {
    &&& forall|j: int| 0 < j < s.len() && j != i ==> s[j] <= s[#[trigger] parent(d, j)]
    &&& (i > 0 ==> forall|j: int|
        0 < j < s.len() && #[trigger] parent(d, j) == i ==> s[j] <= s[parent(d, i)])
}

/// From a state that is ready for it, sifting node `i` up gives a max-heap.
pub proof fn lemma_sift_up_restores(s: Seq<i32>, d: int, i: int)
    requires
        d >= 1,
        0 <= i,
        sift_up_ready(s, d, i),
    ensures
        max_heap(sift_up(s, d, i), d),
    decreases i,
{
    if 0 < i < s.len() && s[i] > s[parent(d, i)] {
        let p = parent(d, i);
        let t = swap(s, i, p);
        lemma_parent_bounds(d, i);
        assert forall|j: int| 0 < j < t.len() && j != p
            implies t[j] <= t[#[trigger] parent(d, j)] by {
            lemma_parent_bounds(d, j);
            if j == i {
            } else if parent(d, j) == p {
                assert(s[j] <= s[parent(d, j)]);
            } else if parent(d, j) == i {
                assert(s[j] <= s[parent(d, i)]);
            } else {
                assert(s[j] <= s[parent(d, j)]);
            }
        }
        if p > 0 {
            lemma_parent_bounds(d, p);
            assert(s[p] <= s[parent(d, p)]);
            assert forall|j: int| 0 < j < t.len() && #[trigger] parent(d, j) == p implies t[j]
                <= t[parent(d, p)] by {
                lemma_parent_bounds(d, j);
                if j != i {
                    assert(s[j] <= s[parent(d, j)]);
                }
            }
        }
        assert(sift_up_ready(t, d, p));
        lemma_sift_up_restores(t, d, p);
    } else {
        assert forall|j: int| 0 < j < s.len() implies s[j] <= s[#[trigger] parent(d, j)] by {
        }
    }
}

/// Raising the value of one node of a max-heap leaves a state in which
/// sifting that node up repairs the order.
pub proof fn lemma_raise_ready(s: Seq<i32>, d: int, i: int, key: i32)
    requires
        d >= 1,
        max_heap(s, d),
        0 <= i < s.len(),
        s[i] <= key,
    ensures
        sift_up_ready(s.update(i, key), d, i),
{
    let t = s.update(i, key);
    assert forall|j: int| 0 < j < t.len() && j != i implies t[j] <= t[#[trigger] parent(d, j)] by {
        lemma_parent_bounds(d, j);
        assert(s[j] <= s[parent(d, j)]);
    }
    if i > 0 {
        lemma_parent_bounds(d, i);
        assert(s[i] <= s[parent(d, i)]);
        assert forall|j: int| 0 < j < t.len() && #[trigger] parent(d, j) == i
            implies t[j] <= t[parent(d, i)] by {
            lemma_parent_bounds(d, j);
            assert(s[j] <= s[parent(d, j)]);
        }
    }
}

/// Sifting the prefix down keeps the length and the multiset of values.
pub proof fn lemma_heapify_prefix_permutes(s: Seq<i32>, d: int, k: int)
    ensures
        heapify_prefix(s, d, k).len() == s.len(),
        heapify_prefix(s, d, k).to_multiset() == s.to_multiset(),
    decreases k,
{
    if k > 0 {
        lemma_sift_down_permutes(s, d, k - 1);
        lemma_heapify_prefix_permutes(sift_down(s, d, k - 1), d, k - 1);
    }
}

/// When every node from position `k` on dominates its children, sifting the
/// nodes before `k` down, last first, gives a max-heap.
pub proof fn lemma_heapify_prefix_restores(s: Seq<i32>, d: int, k: int)
    requires
        d >= 1,
        0 <= k,
        heap_from(s, d, k),
    ensures
        max_heap(heapify_prefix(s, d, k), d),
    decreases k,
{
    if k > 0 {
        lemma_sift_down_extends(s, d, k - 1);
        lemma_heapify_prefix_restores(sift_down(s, d, k - 1), d, k - 1);
    } else {
        lemma_heap_from_zero(s, d);
    }
}

/// On a max-heap, sifting the prefix down moves nothing.
pub proof fn lemma_heapify_prefix_fixed(s: Seq<i32>, d: int, k: int)
    requires
        d >= 1,
        max_heap(s, d),
    ensures
        heapify_prefix(s, d, k) == s,
    decreases k,
{
    if k > 0 {
        lemma_sift_down_fixed(s, d, k - 1);
        lemma_heapify_prefix_fixed(s, d, k - 1);
    }
}

/// No node at or after `non_leaf_count` has a child, so the order from
/// there on holds of every sequence.
pub proof fn lemma_leaves_are_ordered(s: Seq<i32>, d: int)
    requires
        d >= 1,
    ensures
        heap_from(s, d, non_leaf_count(s.len() as int, d)),
{
    let len = s.len() as int;
    assert forall|j: int| 0 < j < len && #[trigger] parent(d, j) >= non_leaf_count(len, d)
        implies s[j]
        <= s[parent(d, j)] by {
        lemma_parent_bounds(d, j);
        lemma_non_leaf(len, d, parent(d, j));
        lemma_parent_iff_range(d, parent(d, j), j);
    }
}

/// Building gives a max-heap that holds the same values as the input.
pub proof fn lemma_build_is_heap(s: Seq<i32>, d: int)
    requires
        d >= 1,
    ensures
        max_heap(build(s, d), d),
        build(s, d).len() == s.len(),
        build(s, d).to_multiset() == s.to_multiset(),
{
    let k = non_leaf_count(s.len() as int, d);
    lemma_leaves_are_ordered(s, d);
    if s.len() >= 2 {
        vstd::arithmetic::div_mod::lemma_div_pos_is_pos(s.len() - 2, d);
    }
    lemma_heapify_prefix_restores(s, d, k);
    lemma_heapify_prefix_permutes(s, d, k);
}

/// Building from a sequence that is already a max-heap moves nothing.
pub proof fn lemma_build_fixed(s: Seq<i32>, d: int)
    requires
        d >= 1,
        max_heap(s, d),
    ensures
        build(s, d) == s,
{
    lemma_heapify_prefix_fixed(s, d, non_leaf_count(s.len() as int, d));
}

} // verus!

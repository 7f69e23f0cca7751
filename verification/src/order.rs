//! The max-heap order on a sequence laid out as an implicit d-ary tree.

use vstd::prelude::*;
use crate::index::{lemma_parent_bounds, parent};

verus! {

/// Every non-root node is at most its parent.
pub open spec fn max_heap(s: Seq<i32>, d: int) -> bool {
    forall|j: int| 0 < j < s.len() ==> s[j] <= s[#[trigger] parent(d, j)]
}

/// Every node at position `k` or later is at least each of its children.
/// With `k == 0` this is the max-heap order.
pub open spec fn heap_from(s: Seq<i32>, d: int, k: int) -> bool {
    forall|j: int| 0 < j < s.len() && #[trigger] parent(d, j) >= k ==> s[j] <= s[parent(d, j)]
}

/// The sequence with the values at positions `i` and `j` exchanged.
pub open spec fn swap(s: Seq<i32>, i: int, j: int) -> Seq<i32> {
    s.update(i, s[j]).update(j, s[i])
}

/// `heap_from` at position 0 is the max-heap order.
pub proof fn lemma_heap_from_zero(s: Seq<i32>, d: int)
    requires
        d >= 1,
    ensures
        heap_from(s, d, 0) <==> max_heap(s, d),
{
    if heap_from(s, d, 0) {
        assert forall|j: int| 0 < j < s.len() implies s[j] <= s[#[trigger] parent(d, j)] by {
            lemma_parent_bounds(d, j);
        }
    }
}

/// In a max-heap no node exceeds the root.
pub proof fn lemma_root_is_max(s: Seq<i32>, d: int, j: int)
    requires
        d >= 1,
        max_heap(s, d),
        0 <= j < s.len(),
    ensures
        s[j] <= s[0],
    decreases j,
{
    if j > 0 {
        lemma_parent_bounds(d, j);
        lemma_root_is_max(s, d, parent(d, j));
    }
}

/// Exchanging two positions keeps the length and the multiset of values.
pub proof fn lemma_swap_multiset(s: Seq<i32>, i: int, j: int)
    requires
        0 <= i < s.len(),
        0 <= j < s.len(),
    ensures
        swap(s, i, j).len() == s.len(),
        swap(s, i, j).to_multiset() == s.to_multiset(),
{
    broadcast use vstd::seq_lib::group_to_multiset_ensures;
    broadcast use vstd::multiset::group_multiset_axioms;

    let t = s.update(i, s[j]);
    assert(t.to_multiset() == s.to_multiset().insert(s[j]).remove(s[i]));
    assert(t.update(j, s[i]).to_multiset() == t.to_multiset().insert(s[i]).remove(t[j]));
    assert(swap(s, i, j).to_multiset() =~= s.to_multiset());
}

} // verus!

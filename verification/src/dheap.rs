//! The d-ary max-heap itself: a branching factor and the keys in level order.

use vstd::prelude::*;
use crate::error::HeapError;
use crate::index::{child, lemma_non_leaf, lemma_parent_bounds, parent};
use crate::order::{heap_from, lemma_heap_from_zero, lemma_root_is_max, max_heap, swap};
use crate::sift::{
    build, heapify_prefix, lemma_build_fixed, lemma_build_is_heap, lemma_pick_largest_past_end,
    lemma_raise_ready, lemma_sift_down_extends, lemma_sift_down_fixed, lemma_sift_down_permutes,
    lemma_sift_up_permutes, lemma_sift_up_restores, pick_largest, sift_down, sift_up,
};

verus! {

/// A max-heap in which every node has up to `d` children, stored as an
/// implicit tree: the root is `nodes[0]` and the children of `nodes[i]` are
/// `nodes[d * i + 1 ..= d * i + d]`.
#[derive(Debug)]
pub struct Dheap {
    /// The branching factor, at least 2.
    pub d: usize,
    /// The keys, in level order.
    pub nodes: Vec<i32>,
}

impl View for Dheap {
    type V = Seq<i32>;

    open spec fn view(&self) -> Seq<i32> {
        self.nodes@
    }
}

/// The sequence that remains when the root is taken out: the last value moves
/// to the root and the sequence gets shorter by one.
pub open spec fn root_replaced(s: Seq<i32>) -> Seq<i32> {
    s.update(0, s.last()).drop_last()
}

/// Taking the root out removes one copy of its value and nothing else.
pub proof fn lemma_root_replaced_multiset(s: Seq<i32>)
    requires
        s.len() > 0,
    ensures
        root_replaced(s).len() == s.len() - 1,
        root_replaced(s).to_multiset() == s.to_multiset().remove(s[0]),
{
    broadcast use vstd::seq_lib::group_to_multiset_ensures;
    broadcast use vstd::multiset::group_multiset_axioms;

    let t = s.update(0, s.last());
    assert(t.to_multiset() == s.to_multiset().insert(s.last()).remove(s[0]));
    assert(t.drop_last() =~= t.remove(t.len() - 1));
    assert(t.remove(t.len() - 1).to_multiset() == t.to_multiset().remove(t[t.len() - 1]));
    assert(s.to_multiset().count(s[0]) > 0) by {
        assert(s.contains(s[0]));
    }
    assert(root_replaced(s).to_multiset() =~= s.to_multiset().remove(s[0]));
}

/// Taking the root out of a max-heap leaves every node but the new root at
/// least as large as its children.
pub proof fn lemma_root_replaced_order(s: Seq<i32>, d: int)
    requires
        d >= 1,
        s.len() > 0,
        max_heap(s, d),
    ensures
        heap_from(root_replaced(s), d, 1),
{
    let t = root_replaced(s);
    assert forall|j: int| 0 < j < t.len() && #[trigger] parent(d, j) >= 1
        implies t[j] <= t[parent(d, j)] by {
        lemma_parent_bounds(d, j);
        assert(s[j] <= s[parent(d, j)]);
    }
}

/// Every value of `t` occurs in `s` when the values of `t` are those of `s`
/// less one.
proof fn lemma_member_of_larger(s: Seq<i32>, t: Seq<i32>, v: i32, j: int)
    requires
        t.to_multiset() == s.to_multiset().remove(v),
        0 <= j < t.len(),
    ensures
        s.contains(t[j]),
{
    broadcast use vstd::seq_lib::group_to_multiset_ensures;
    broadcast use vstd::multiset::group_multiset_axioms;

    assert(t.contains(t[j]));
    assert(t.to_multiset().count(t[j]) > 0);
    assert(s.to_multiset().count(t[j]) > 0);
}

/// Raising a key of a max-heap to `i32::MAX` and sifting it up leaves
/// `i32::MAX` at the root, also where the raised key itself stops below an
/// ancestor that holds `i32::MAX` already.
pub proof fn lemma_raised_key_at_root(s: Seq<i32>, d: int, i: int)
    requires
        d >= 1,
        max_heap(s, d),
        0 <= i < s.len(),
    ensures
        max_heap(sift_up(s.update(i, i32::MAX), d, i), d),
        sift_up(s.update(i, i32::MAX), d, i)[0] == i32::MAX,
{
    broadcast use vstd::seq_lib::group_to_multiset_ensures;
    broadcast use vstd::multiset::group_multiset_axioms;

    let raised = s.update(i, i32::MAX);
    let t = sift_up(raised, d, i);
    lemma_raise_ready(s, d, i, i32::MAX);
    lemma_sift_up_restores(raised, d, i);
    lemma_sift_up_permutes(raised, d, i);
    assert(raised.contains(i32::MAX)) by {
        assert(raised[i] == i32::MAX);
    }
    assert(t.to_multiset().count(i32::MAX) > 0);
    assert(t.contains(i32::MAX));
    let k = choose|k: int| 0 <= k < t.len() && t[k] == i32::MAX;
    lemma_root_is_max(t, d, k);
}

impl Dheap {
    /// The branching factor is at least 2.
    pub open spec fn wf(&self) -> bool {
        self.d >= 2
    }

    /// Every key but the root is at most the key of its parent.
    pub open spec fn is_max_heap(&self) -> bool {
        max_heap(self@, self.d as int)
    }

    /// Makes a heap with branching factor `d` out of `nodes`, in place.
    pub fn new(d: usize, nodes: Vec<i32>) -> (heap: Self)
        requires
            d >= 2,
        ensures
            heap.wf(),
            heap.d == d,
            heap@ == build(nodes@, d as int),
            heap@.len() == nodes@.len(),
            heap@.to_multiset() == nodes@.to_multiset(),
            heap.is_max_heap(),
            max_heap(nodes@, d as int) ==> heap@ == nodes@,
    {
        let mut heap = Dheap { d, nodes };
        heap.build_max_heap();
        heap
    }

    /// The position of the parent of position `i`. The root has no parent.
    pub fn parent_of(&self, i: usize) -> (p: usize)
        requires
            self.wf(),
            i > 0,
        ensures
            p == parent(self.d as int, i as int),
            p < i,
    {
        proof {
            lemma_parent_bounds(self.d as int, i as int);
        }
        (i - 1) / self.d
    }

    /// The position of the `n`-th child, counted from 0, of position `i`.
    pub fn nth_child_of(&self, n: usize, i: usize) -> (c: usize)
        requires
            self.d * i + n + 1 <= usize::MAX,
        ensures
            c == child(self.d as int, i as int, n as int),
    {
        assert(self.d * i >= 0) by (nonlinear_arith);
        self.d * i + n + 1
    }

    /// Exchanges the keys at positions `i` and `j`.
    fn swap_nodes(&mut self, i: usize, j: usize)
        requires
            i < old(self)@.len(),
            j < old(self)@.len(),
        ensures
            final(self).d == old(self).d,
            final(self)@ == swap(old(self)@, i as int, j as int),
    {
        let a = self.nodes[i];
        let b = self.nodes[j];
        self.nodes[i] = b;
        self.nodes[j] = a;
    }

    /// Restores the max-heap order of an arbitrary sequence, in place, by
    /// sifting down every node that has a child, from the last one to the
    /// root. A sequence that is a max-heap already is left as it is.
    pub fn build_max_heap(&mut self)
        requires
            old(self).wf(),
        ensures
            final(self).d == old(self).d,
            final(self)@ == build(old(self)@, old(self).d as int),
            final(self)@.len() == old(self)@.len(),
            final(self)@.to_multiset() == old(self)@.to_multiset(),
            final(self).is_max_heap(),
            old(self).is_max_heap() ==> final(self)@ == old(self)@,
    {
        let ghost s0 = self@;
        let ghost d = self.d as int;
        let len = self.nodes.len();
        let mut k: usize = if len < 2 {
            0
        } else {
            (len - 2) / self.d + 1
        };
        proof {
            lemma_build_is_heap(s0, d);
            if max_heap(s0, d) {
                lemma_build_fixed(s0, d);
            }
        }
        while k > 0
            invariant
                self.d == d,
                d >= 2,
                heapify_prefix(self@, d, k as int) == build(s0, d),
            decreases k,
        {
            k -= 1;
            self.max_heapify(k);
        }
    }

    /// Sifts the node at position `i` down: while one of its children holds
    /// a strictly larger key, the node is exchanged with its largest child
    /// (the leftmost of them, where several are largest) and followed there.
    /// A position outside the heap, or without children, changes nothing.
    pub fn max_heapify(&mut self, i: usize)
        requires
            old(self).wf(),
        ensures
            final(self).d == old(self).d,
            final(self)@ == sift_down(old(self)@, old(self).d as int, i as int),
            final(self)@.len() == old(self)@.len(),
            final(self)@.to_multiset() == old(self)@.to_multiset(),
            heap_from(old(self)@, old(self).d as int, i + 1) ==> heap_from(
                final(self)@,
                old(self).d as int,
                i as int,
            ),
            heap_from(old(self)@, old(self).d as int, i as int) ==> final(self)@ == old(self)@,
        decreases old(self)@.len() - i,
    {
        let ghost s0 = self@;
        let ghost d = self.d as int;
        let len = self.nodes.len();
        proof {
            lemma_sift_down_permutes(s0, d, i as int);
            if heap_from(s0, d, i + 1) {
                lemma_sift_down_extends(s0, d, i as int);
            }
            if heap_from(s0, d, i as int) {
                lemma_sift_down_fixed(s0, d, i as int);
            }
            lemma_non_leaf(len as int, d, i as int);
        }
        if len < 2 || i > (len - 2) / self.d {
            proof {
                lemma_pick_largest_past_end(s0, d, i as int, 0, d);
            }
            return ;
        }
        assert(d * i >= i) by (nonlinear_arith)
            requires
                d >= 1,
                i >= 0,
        ;
        let first = self.d * i + 1;
        let mut largest = i;
        let mut n: usize = 0;
        while n < self.d && n < len - first
            invariant
                self@ == s0,
                self.d == d,
                len == s0.len(),
                first == d * i + 1,
                i < first < len,
                n <= self.d,
                largest == pick_largest(s0, d, i as int, n as int),
                largest == i || first <= largest < len,
            decreases self.d - n,
        {
            let c = first + n;
            if self.nodes[c] > self.nodes[largest] {
                largest = c;
            }
            n += 1;
        }
        proof {
            if n < self.d {
                lemma_pick_largest_past_end(s0, d, i as int, n as int, d);
            }
        }
        if largest != i {
            self.swap_nodes(i, largest);
            self.max_heapify(largest);
        }
    }

    /// Takes the root, the largest key of a max-heap, out of the heap: the
    /// last key moves to the root and is sifted down.
    pub fn extract_max(&mut self) -> (r: Result<i32, HeapError>)
        requires
            old(self).wf(),
        ensures
            final(self).d == old(self).d,
            old(self)@.len() == 0 ==> {
                &&& r == Err::<i32, HeapError>(HeapError::EmptyHeap)
                &&& final(self)@ == old(self)@
            },
            old(self)@.len() > 0 ==> {
                &&& r == Ok::<i32, HeapError>(old(self)@[0])
                &&& final(self)@ == sift_down(root_replaced(old(self)@), old(self).d as int, 0)
                &&& final(self)@.len() == old(self)@.len() - 1
                &&& final(self)@.to_multiset() == old(self)@.to_multiset().remove(old(self)@[0])
            },
            old(self).is_max_heap() ==> final(self).is_max_heap(),
            old(self).is_max_heap() ==> forall|j: int|
                0 <= j < final(self)@.len() ==> final(self)@[j] <= old(self)@[0],
    {
        let ghost s0 = self@;
        let ghost d = self.d as int;
        let len = self.nodes.len();
        if len == 0 {
            return Err(HeapError::EmptyHeap);
        }
        let largest = self.nodes[0];
        let last = self.nodes[len - 1];
        self.nodes[0] = last;
        self.nodes.pop();
        assert(self@ =~= root_replaced(s0));
        proof {
            lemma_root_replaced_multiset(s0);
            if max_heap(s0, d) {
                lemma_root_replaced_order(s0, d);
            }
        }
        self.max_heapify(0);
        proof {
            if max_heap(s0, d) {
                lemma_heap_from_zero(self@, d);
                assert forall|j: int| 0 <= j < self@.len() implies self@[j] <= s0[0] by {
                    lemma_member_of_larger(s0, self@, s0[0], j);
                    let k = choose|k: int| 0 <= k < s0.len() && s0[k] == self@[j];
                    lemma_root_is_max(s0, d, k);
                }
            }
        }
        Ok(largest)
    }

    /// Raises the key at position `i` to `key` and sifts it up: while it is
    /// strictly larger than its parent, the two are exchanged.
    pub fn increase_key(&mut self, i: usize, key: i32) -> (r: Result<(), HeapError>)
        requires
            old(self).wf(),
        ensures
            final(self).d == old(self).d,
            final(self)@.len() == old(self)@.len(),
            i >= old(self)@.len() ==> {
                &&& r == Err::<(), HeapError>(HeapError::IndexNotFound)
                &&& final(self)@ == old(self)@
            },
            i < old(self)@.len() && key < old(self)@[i as int] ==> {
                &&& r == Err::<(), HeapError>(HeapError::KeyNotIncreasing)
                &&& final(self)@ == old(self)@
            },
            i < old(self)@.len() && key >= old(self)@[i as int] ==> {
                &&& r == Ok::<(), HeapError>(())
                &&& final(self)@ == sift_up(
                    old(self)@.update(i as int, key),
                    old(self).d as int,
                    i as int,
                )
                &&& final(self)@.to_multiset() == old(self)@.to_multiset().insert(key).remove(
                    old(self)@[i as int],
                )
            },
            old(self).is_max_heap() ==> final(self).is_max_heap(),
    {
        let ghost s0 = self@;
        let ghost d = self.d as int;
        if i >= self.nodes.len() {
            return Err(HeapError::IndexNotFound);
        }
        if key < self.nodes[i] {
            return Err(HeapError::KeyNotIncreasing);
        }
        self.nodes[i] = key;
        let ghost s1 = self@;
        proof {
            broadcast use vstd::seq_lib::group_to_multiset_ensures;

            assert(s1 == s0.update(i as int, key));
            lemma_sift_up_permutes(s1, d, i as int);
            if max_heap(s0, d) {
                lemma_raise_ready(s0, d, i as int, key);
                lemma_sift_up_restores(s1, d, i as int);
            }
        }
        let mut cur = i;
        loop
            invariant
                self.d == d,
                d >= 2,
                cur < self@.len(),
                sift_up(self@, d, cur as int) == sift_up(s1, d, i as int),
            ensures
                self.d == d,
                self@ == sift_up(s1, d, i as int),
            decreases cur,
        {
            if cur == 0 {
                break ;
            }
            let p = self.parent_of(cur);
            if self.nodes[cur] <= self.nodes[p] {
                break ;
            }
            self.swap_nodes(cur, p);
            cur = p;
        }
        Ok(())
    }

    /// Adds `key` to the heap: it is appended as the last node and sifted up.
    pub fn insert(&mut self, key: i32)
        requires
            old(self).wf(),
        ensures
            final(self).d == old(self).d,
            final(self)@ == sift_up(
                old(self)@.push(key),
                old(self).d as int,
                old(self)@.len() as int,
            ),
            final(self)@.len() == old(self)@.len() + 1,
            final(self)@.to_multiset() == old(self)@.to_multiset().insert(key),
            old(self).is_max_heap() ==> final(self).is_max_heap(),
    {
        let ghost s0 = self@;
        let ghost d = self.d as int;
        let last = self.nodes.len();
        self.nodes.push(i32::MIN);
        proof {
            broadcast use vstd::seq_lib::group_to_multiset_ensures;
            broadcast use vstd::multiset::group_multiset_axioms;

            let s1 = s0.push(i32::MIN);
            assert(s1.update(last as int, key) =~= s0.push(key));
            assert(s1.to_multiset().insert(key).remove(i32::MIN) =~= s0.to_multiset().insert(key));
            if max_heap(s0, d) {
                assert forall|j: int| 0 < j < s1.len()
                    implies s1[j] <= s1[#[trigger] parent(d, j)] by {
                    lemma_parent_bounds(d, j);
                    if j < s0.len() {
                        assert(s0[j] <= s0[parent(d, j)]);
                    }
                }
            }
        }
        let _ = self.increase_key(last, key);
    }

    /// Takes the key at position `i` out of the heap and returns it: the key
    /// is raised to `i32::MAX` and sifted up, then the root is extracted.
    ///
    /// The raised key stops below the root only under an ancestor that holds
    /// `i32::MAX` itself. The root then holds `i32::MAX` too, so extracting
    /// the root still takes out one `i32::MAX` and leaves the other keys.
    pub fn delete(&mut self, i: usize) -> (r: Result<i32, HeapError>)
        requires
            old(self).wf(),
        ensures
            final(self).d == old(self).d,
            i >= old(self)@.len() ==> {
                &&& r == Err::<i32, HeapError>(HeapError::IndexNotFound)
                &&& final(self)@ == old(self)@
            },
            i < old(self)@.len() ==> {
                &&& r == Ok::<i32, HeapError>(old(self)@[i as int])
                &&& final(self)@ == sift_down(
                    root_replaced(
                        sift_up(
                            old(self)@.update(i as int, i32::MAX),
                            old(self).d as int,
                            i as int,
                        ),
                    ),
                    old(self).d as int,
                    0,
                )
                &&& final(self)@.len() == old(self)@.len() - 1
            },
            old(self).is_max_heap() ==> final(self).is_max_heap(),
            old(self).is_max_heap() && i < old(self)@.len() ==> final(self)@.to_multiset()
                == old(self)@.to_multiset().remove(old(self)@[i as int]),
    {
        let ghost s0 = self@;
        let ghost d = self.d as int;
        if i >= self.nodes.len() {
            return Err(HeapError::IndexNotFound);
        }
        let removed = self.nodes[i];
        let _ = self.increase_key(i, i32::MAX);
        let ghost s1 = self@;
        proof {
            broadcast use vstd::seq_lib::group_to_multiset_ensures;
            broadcast use vstd::multiset::group_multiset_axioms;

            if max_heap(s0, d) {
                lemma_raised_key_at_root(s0, d, i as int);
                assert(s1.to_multiset().remove(i32::MAX) =~= s0.to_multiset().remove(s0[i as int]));
            }
        }
        let _ = self.extract_max();
        Ok(removed)
    }
}

} // verus!

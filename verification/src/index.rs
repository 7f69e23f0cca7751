//! Index arithmetic of the implicit d-ary tree: the root is at position 0 and
//! the children of position `i` are at `d * i + 1 ..= d * i + d`.

use vstd::prelude::*;
use vstd::arithmetic::div_mod::{
    lemma_div_pos_is_pos, lemma_fundamental_div_mod, lemma_fundamental_div_mod_converse,
    lemma_mod_bound,
};
use vstd::arithmetic::mul::{lemma_mul_inequality, lemma_mul_is_commutative};

verus! {

/// Position of the parent of position `i`, for `i > 0`.
pub open spec fn parent(d: int, i: int) -> int {
    (i - 1) / d
}

/// Position of the `n`-th child (counted from 0) of position `i`.
pub open spec fn child(d: int, i: int, n: int) -> int {
    d * i + n + 1
}

/// Number of positions that have at least one child in a tree of `len` nodes:
/// the parent of the last position, plus one.
pub open spec fn non_leaf_count(len: int, d: int) -> int {
    if len < 2 {
        0
    } else {
        (len - 2) / d + 1
    }
}

/// The parent of a non-root position lies strictly before it.
pub proof fn lemma_parent_bounds(d: int, j: int)
    requires
        d >= 1,
        j >= 1,
    ensures
        0 <= parent(d, j) < j,
{
    lemma_div_pos_is_pos(j - 1, d);
    lemma_fundamental_div_mod(j - 1, d);
    lemma_mod_bound(j - 1, d);
    let q = (j - 1) / d;
    assert(q <= d * q) by (nonlinear_arith)
        requires
            d >= 1,
            q >= 0,
    ;
}

/// The parent of the `n`-th child of `i` is `i`.
pub proof fn lemma_parent_of_child(d: int, i: int, n: int)
    requires
        d >= 1,
        0 <= n < d,
    ensures
        parent(d, child(d, i, n)) == i,
{
    lemma_mul_is_commutative(d, i);
    lemma_fundamental_div_mod_converse(d * i + n, d, i, n);
}

/// Every non-root position is the `((j - 1) % d)`-th child of its parent.
pub proof fn lemma_child_of_parent(d: int, j: int)
    requires
        d >= 1,
    ensures
        0 <= (j - 1) % d < d,
        child(d, parent(d, j), (j - 1) % d) == j,
{
    lemma_fundamental_div_mod(j - 1, d);
    lemma_mod_bound(j - 1, d);
}

/// The children of `i` are exactly the positions `d * i + 1 ..= d * i + d`.
pub proof fn lemma_parent_iff_range(d: int, i: int, c: int)
    requires
        d >= 1,
    ensures
        parent(d, c) == i <==> d * i + 1 <= c <= d * i + d,
{
    lemma_child_of_parent(d, c);
    if d * i + 1 <= c <= d * i + d {
        lemma_parent_of_child(d, i, c - d * i - 1);
    }
}

/// Position `i` has a child inside a tree of `len` nodes exactly when it is
/// one of the first `non_leaf_count(len, d)` positions.
pub proof fn lemma_non_leaf(len: int, d: int, i: int)
    requires
        d >= 1,
        0 <= i,
        0 <= len,
    ensures
        i < non_leaf_count(len, d) <==> child(d, i, 0) < len,
{
    if len >= 2 {
        let q = (len - 2) / d;
        lemma_fundamental_div_mod(len - 2, d);
        lemma_mod_bound(len - 2, d);
        lemma_div_pos_is_pos(len - 2, d);
        if i <= q {
            lemma_mul_inequality(i, q, d);
            lemma_mul_is_commutative(d, i);
            lemma_mul_is_commutative(d, q);
        } else {
            lemma_mul_inequality(q + 1, i, d);
            lemma_mul_is_commutative(d, i);
            lemma_mul_is_commutative(d, q + 1);
            assert(d * (q + 1) == d * q + d) by (nonlinear_arith);
        }
    } else {
        assert(d * i >= 0) by (nonlinear_arith)
            requires
                d >= 1,
                i >= 0,
        ;
    }
}

} // verus!

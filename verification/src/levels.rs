//! The height of the tree: the number of its last level, the root being on
//! level 0.

use vstd::prelude::*;
use vstd::arithmetic::power::{lemma_pow_increases, pow};
use crate::dheap::Dheap;

verus! {

/// `h` is the height of a complete d-ary tree of `len > 0` nodes: the levels
/// before level `h` hold `(d^h - 1) / (d - 1)` nodes, fewer than `len`, and
/// the levels up to `h` have room for all of them. In other words
/// `h + 1` is the logarithm to base `d` of `len * (d - 1) + 1`, rounded up.
pub open spec fn is_height(len: int, d: int, h: nat) -> bool {
    pow(d, h) < len * (d - 1) + 1 <= pow(d, h + 1)
}

/// A tree has one height only.
pub proof fn lemma_height_unique(len: int, d: int, a: nat, b: nat)
    requires
        d >= 2,
        is_height(len, d, a),
        is_height(len, d, b),
    ensures
        a == b,
{
    if a < b {
        lemma_pow_increases(d as nat, a + 1, b);
    }
    if b < a {
        lemma_pow_increases(d as nat, b + 1, a);
    }
}

/// The next power of `d`.
proof fn lemma_pow_next(d: int, k: nat)
    ensures
        pow(d, k + 1) == d * pow(d, k),
{
    reveal(pow);
}

/// The levels before the next one hold `d` times what the levels before
/// this one hold, and the root.
proof fn lemma_level_step(d: int, start: int, room: int)
    requires
        start * (d - 1) + 1 == room,
    ensures
        (start + room) * (d - 1) + 1 == room * d,
{
    assert((start + room) * (d - 1) + 1 == start * (d - 1) + 1 + room * (d - 1))
        by (nonlinear_arith);
    assert(room + room * (d - 1) == room * d) by (nonlinear_arith);
}

/// Multiplying by `d - 1 >= 1` keeps the order.
proof fn lemma_scale(a: int, b: int, d: int)
    requires
        d >= 2,
        a <= b,
    ensures
        a * (d - 1) <= b * (d - 1),
{
    assert(a * (d - 1) <= b * (d - 1)) by (nonlinear_arith)
        requires
            d >= 2,
            a <= b,
    ;
}

impl Dheap {
    /// The height of the tree, or `None` for the empty tree.
    pub fn height(&self) -> (h: Option<usize>)
        requires
            self.wf(),
        ensures
            h is None <==> self@.len() == 0,
            h matches Some(k) ==> is_height(self@.len() as int, self.d as int, k as nat),
    {
        let len = self.nodes.len();
        if len == 0 {
            return None;
        }
        let ghost d = self.d as int;
        let mut k: usize = 0;
        let mut start: usize = 0;
        let mut room: usize = 1;
        proof {
            reveal(pow);
        }
        loop
            invariant
                d == self.d,
                d >= 2,
                len == self@.len(),
                start < len,
                k <= start,
                room >= 1,
                room == pow(d, k as nat),
                start * (d - 1) + 1 == room,
            decreases len - start,
        {
            proof {
                lemma_pow_next(d, k as nat);
                lemma_level_step(d, start as int, room as int);
                lemma_scale(start + 1, len as int, d);
                assert((start + 1) * (d - 1) == start * (d - 1) + (d - 1)) by (nonlinear_arith);
            }
            if room >= len - start {
                proof {
                    lemma_scale(len as int, start + room, d);
                    assert(room * d == d * room) by (nonlinear_arith);
                }
                return Some(k);
            }
            start = start + room;
            k = k + 1;
            match room.checked_mul(self.d) {
                Some(next) => {
                    proof {
                        assert(room * d == d * room) by (nonlinear_arith);
                        assert(room * d >= room) by (nonlinear_arith)
                            requires
                                room >= 1,
                                d >= 2,
                        ;
                    }
                    room = next;
                },
                None => {
                    proof {
                        let big = pow(d, k as nat);
                        lemma_pow_next(d, k as nat);
                        assert(big == room * d) by (nonlinear_arith)
                            requires
                                big == d * room,
                        ;
                        assert(big > len);
                        lemma_scale(start + 1, len as int, d);
                        assert((start + 1) * (d - 1) == start * (d - 1) + (d - 1)) by (nonlinear_arith);
                        assert(d * big >= len * (d - 1) + 1) by (nonlinear_arith)
                            requires
                                big > len,
                                len >= 1,
                                d >= 2,
                        ;
                    }
                    return Some(k);
                },
            }
        }
    }
}

} // verus!

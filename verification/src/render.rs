//! The heap as text: one parenthesised, comma-separated group of keys per
//! level of the tree, the groups separated by single spaces.

use vstd::prelude::*;
use crate::dheap::Dheap;

verus! {

/// `String::push` of the standard library appends one character to the end
/// of the string and leaves the characters before it as they were.
pub assume_specification[ String::push ](s: &mut String, ch: char)
    ensures
        final(s)@ == old(s)@.push(ch),
;

/// The character of the decimal digit `v`, for `0 <= v <= 9`.
pub open spec fn digit_char(v: int) -> char {
    ((48 + v) as u8) as char
}

/// The decimal digits of `n`, most significant first, without leading zeros.
pub open spec fn decimal_digits(n: nat) -> Seq<char>
    decreases n,
{
    if n < 10 {
        seq![digit_char(n as int)]
    } else {
        decimal_digits(n / 10).push(digit_char((n % 10) as int))
    }
}

/// The decimal numeral of `x`, with a leading minus sign when it is negative.
pub open spec fn decimal(x: int) -> Seq<char> {
    if x < 0 {
        seq!['-'] + decimal_digits((-x) as nat)
    } else {
        decimal_digits(x as nat)
    }
}

/// The numerals of the keys at positions `lo .. hi`, separated by commas.
pub open spec fn join_keys(s: Seq<i32>, lo: int, hi: int) -> Seq<char>
    decreases hi - lo,
{
    if hi <= lo {
        Seq::empty()
    } else if hi == lo + 1 {
        decimal(s[lo] as int)
    } else {
        join_keys(s, lo, hi - 1) + seq![','] + decimal(s[hi - 1] as int)
    }
}

/// The text of the levels that begin at position `start`, where the level
/// at `start` has room for `size` keys and each further level for `d` times
/// as many as the one before it.
pub open spec fn render_levels(s: Seq<i32>, d: int, start: int, size: int) -> Seq<char>
    decreases s.len() - start,
{
    if size < 1 || start < 0 || start >= s.len() {
        Seq::empty()
    } else {
        let end = if start + size < s.len() {
            start + size
        } else {
            s.len() as int
        };
        let level = seq!['('] + join_keys(s, start, end) + seq![')'];
        if end < s.len() {
            level + seq![' '] + render_levels(s, d, end, size * d)
        } else {
            level
        }
    }
}

/// The text of the whole tree: level `k` holds up to `d^k` keys; the empty
/// tree is the empty text.
pub open spec fn render(s: Seq<i32>, d: int) -> Seq<char> {
    render_levels(s, d, 0, 1)
}

/// Appends the decimal digits of `m` to `out`.
fn push_digits(out: &mut String, m: u32)
    ensures
        final(out)@ == old(out)@ + decimal_digits(m as nat),
    decreases m,
{
    if m >= 10 {
        push_digits(out, m / 10);
    }
    let v: u8 = (m % 10) as u8;
    out.push((48u8 + v) as char);
    assert(final(out)@ =~= old(out)@ + decimal_digits(m as nat));
}

/// Appends the decimal numeral of `x` to `out`.
pub fn push_decimal(out: &mut String, x: i32)
    ensures
        final(out)@ == old(out)@ + decimal(x as int),
{
    if x < 0 {
        out.push('-');
        let m: u32 = (-(x as i64)) as u32;
        push_digits(out, m);
    } else {
        push_digits(out, x as u32);
    }
    assert(final(out)@ =~= old(out)@ + decimal(x as int));
}

impl Dheap {
    /// The heap as text, level by level: `(9) (5,8) (1,3,4)` for the binary
    /// heap `[9, 5, 8, 1, 3, 4]`.
    pub fn render(&self) -> (text: String)
        requires
            self.wf(),
        ensures
            text@ == render(self@, self.d as int),
    {
        let len = self.nodes.len();
        let mut out = String::new();
        let mut start: usize = 0;
        let mut room: usize = 1;
        let ghost size: int = 1;
        let ghost s = self@;
        let ghost d = self.d as int;
        while start < len
            invariant
                s == self@,
                d == self.d,
                d >= 2,
                len == s.len(),
                start <= len,
                size >= 1,
                room == size || (room >= len && size >= len),
                render(s, d) == out@ + (if start >= len {
                    Seq::<char>::empty()
                } else if start == 0 {
                    render_levels(s, d, 0, size)
                } else {
                    seq![' '] + render_levels(s, d, start as int, size)
                }),
            decreases len - start,
        {
            let ghost before = out@;
            let end = if room < len - start {
                start + room
            } else {
                len
            };
            if start > 0 {
                out.push(' ');
            }
            out.push('(');
            let ghost opened = out@;
            let mut i = start;
            while i < end
                invariant
                    s == self@,
                    start <= i <= end <= len,
                    len == s.len(),
                    out@ == opened + join_keys(s, start as int, i as int),
                decreases end - i,
            {
                if i > start {
                    out.push(',');
                }
                push_decimal(&mut out, self.nodes[i]);
                i += 1;
                assert(out@ =~= opened + join_keys(s, start as int, i as int));
            }
            out.push(')');
            proof {
                let level = seq!['('] + join_keys(s, start as int, end as int) + seq![')'];
                let rest = if end < len {
                    seq![' '] + render_levels(s, d, end as int, size * d)
                } else {
                    Seq::<char>::empty()
                };
                assert(render_levels(s, d, start as int, size) =~= level + rest);
                if start > 0 {
                    assert(out@ =~= before + seq![' '] + level);
                } else {
                    assert(out@ =~= before + level);
                }
                assert(size * d >= size) by (nonlinear_arith)
                    requires
                        size >= 1,
                        d >= 1,
                ;
                assert(room * d >= room) by (nonlinear_arith)
                    requires
                        room >= 0,
                        d >= 1,
                ;
            }
            room = match room.checked_mul(self.d) {
                Some(next) => next,
                None => usize::MAX,
            };
            proof {
                size = size * d;
            }
            start = end;
        }
        out
    }
}

} // verus!

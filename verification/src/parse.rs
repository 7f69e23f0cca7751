//! Reading a key list: decimal numbers separated by single commas, with
//! nothing before, between or after them.

use vstd::prelude::*;
use vstd::slice::slice_index_get;
use vstd::string::StringSliceAdditionalSpecFns;
use crate::error::HeapError;

verus! {

/// The pattern that the text of a key list has to match.
pub const LIST_PATTERN: &'static str = "^[0-9]+(?:,[0-9]+)*$";

/// What the `regex` crate answers when `pattern` is compiled and matched
/// against `text`: `None` where it refuses to compile the pattern, else
/// whether the pattern matches somewhere in the text.
pub uninterp spec fn regex_verdict(pattern: Seq<char>, text: Seq<char>) -> Option<bool>;

/// Compiles `pattern` with `regex::Regex::new` and asks `Regex::is_match`
/// whether it matches `text`. `None` stands for a pattern that did not
/// compile. Compiling uses the fixed limits of the crate and reads nothing
/// but the pattern, and matching reads nothing but the compiled pattern and
/// the text, so the answer depends on the pattern and the text alone.
#[verifier::external_body]
fn regex_is_match(pattern: &str, text: &str) -> (r: Option<bool>)
    ensures
        r == regex_verdict(pattern@, text@),
{
    match regex::Regex::new(pattern) {
        Ok(re) => Some(re.is_match(text)),
        Err(_) => None,
    }
}

/// The byte of a comma.
pub open spec fn comma() -> u8 {
    44
}

/// The byte is one of the ASCII digits `0` to `9`.
pub open spec fn is_digit(b: u8) -> bool {
    48 <= b <= 57
}

/// The bytes are a key list: not empty, made of digits and commas only,
/// with a digit at both ends and no two commas side by side.
pub open spec fn list_syntax(s: Seq<u8>) -> bool {
    &&& s.len() > 0
    &&& forall|j: int| 0 <= j < s.len() ==> is_digit(#[trigger] s[j]) || s[j] == comma()
    &&& s[0] != comma()
    &&& s[s.len() - 1] != comma()
    &&& forall|j: int, k: int|
        0 <= j && k == j + 1 && k < s.len() ==> !(#[trigger] s[j] == comma() && #[trigger] s[k]
            == comma())
}

/// The numbers that stand between the commas, each read as a decimal
/// numeral of any size, in the order in which they stand.
pub open spec fn field_values(s: Seq<u8>) -> Seq<int>
    decreases s.len(),
{
    if s.len() == 0 {
        seq![0int]
    } else {
        let before = field_values(s.drop_last());
        if s.last() == comma() {
            before.push(0)
        } else {
            before.update(before.len() - 1, before.last() * 10 + (s.last() - 48))
        }
    }
}

/// Every number of the list fits the key type.
pub open spec fn in_range(s: Seq<u8>) -> bool {
    forall|k: int| 0 <= k < field_values(s).len() ==> #[trigger] field_values(s)[k] <= i32::MAX
}

/// Reading on never shrinks a number: the fields of a longer text made of
/// digits and commas are at least those of each of its beginnings.
proof fn lemma_fields_grow(s: Seq<u8>, i: int)
    requires
        0 <= i <= s.len(),
        forall|j: int| 0 <= j < s.len() ==> is_digit(#[trigger] s[j]) || s[j] == comma(),
    ensures
        field_values(s.take(i)).len() >= 1,
        field_values(s.take(i)).len() <= field_values(s).len(),
        forall|k: int|
            0 <= k < field_values(s.take(i)).len() ==> 0 <= #[trigger] field_values(s.take(i))[k]
                <= field_values(s)[k],
    decreases s.len() - i,
{
    if i == s.len() {
        assert(s.take(i) =~= s);
        lemma_fields_nonnegative(s);
    } else {
        lemma_fields_grow(s, i + 1);
        lemma_fields_nonnegative(s.take(i));
        let shorter = field_values(s.take(i));
        let longer = field_values(s.take(i + 1));
        assert(s.take(i + 1).drop_last() =~= s.take(i));
        assert(s.take(i + 1).last() == s[i]);
        assert(is_digit(s[i]) || s[i] == comma());
        assert forall|k: int| 0 <= k < shorter.len() implies 0 <= #[trigger] shorter[k]
            <= field_values(s)[k] by {
            assert(shorter[k] <= longer[k]);
            assert(longer[k] <= field_values(s)[k]);
        }
    }
}

/// A text of digits and commas has at least one field and no negative one.
proof fn lemma_fields_nonnegative(s: Seq<u8>)
    requires
        forall|j: int| 0 <= j < s.len() ==> is_digit(#[trigger] s[j]) || s[j] == comma(),
    ensures
        field_values(s).len() >= 1,
        forall|k: int| 0 <= k < field_values(s).len() ==> 0 <= #[trigger] field_values(s)[k],
    decreases s.len(),
{
    if s.len() > 0 {
        lemma_fields_nonnegative(s.drop_last());
        assert(is_digit(s[s.len() - 1]) || s[s.len() - 1] == comma());
    }
}

/// Whether `text` matches `LIST_PATTERN`, or `None` where the pattern could
/// not be compiled.
pub fn list_pattern_verdict(text: &str) -> (r: Option<bool>)
    ensures
        r == regex_verdict(LIST_PATTERN@, text@),
{
    regex_is_match(LIST_PATTERN, text)
}

/// Reads the keys of a list whose match against `LIST_PATTERN` came out as
/// `pattern_verdict`. The keys are returned exactly when the match succeeded
/// and the text is a key list whose numbers all fit the key type.
pub fn nodes_from_text(text: &str, pattern_verdict: Option<bool>) -> (r: Result<Vec<i32>, HeapError>)
    ensures
        r is Ok <==> pattern_verdict == Some(true) && list_syntax(text.spec_bytes()) && in_range(
            text.spec_bytes(),
        ),
        r matches Ok(nodes) ==> nodes@.len() == field_values(text.spec_bytes()).len()
            && forall|k: int|
            0 <= k < nodes@.len() ==> #[trigger] nodes@[k] == field_values(text.spec_bytes())[k],
        r matches Err(e) ==> e == HeapError::ConstructionError,
{
    match pattern_verdict {
        Some(true) => {},
        _ => {
            return Err(HeapError::ConstructionError);
        },
    }
    let bytes = text.as_bytes();
    let ghost s = bytes@;
    let len = bytes.len();
    let mut out: Vec<i32> = Vec::new();
    let mut cur: i32 = 0;
    let mut any = false;
    let mut i: usize = 0;
    proof {
        assert(s.take(0) =~= Seq::<u8>::empty());
    }
    while i < len
        invariant
            s == bytes@,
            s == text.spec_bytes(),
            len == s.len(),
            i <= len,
            forall|j: int| 0 <= j < i ==> is_digit(#[trigger] s[j]) || s[j] == comma(),
            i > 0 ==> s[0] != comma(),
            forall|j: int, k: int|
                0 <= j && k == j + 1 && k < i ==> !(#[trigger] s[j] == comma() && #[trigger] s[k]
                    == comma()),
            any == (i > 0 && s[i - 1] != comma()),
            out@.len() + 1 == field_values(s.take(i as int)).len(),
            forall|k: int|
                0 <= k < out@.len()
                    ==> 0 <= #[trigger] out@[k] == field_values(s.take(i as int))[k],
            0 <= cur == field_values(s.take(i as int)).last(),
        decreases len - i,
    {
        let b = *slice_index_get(bytes, i);
        proof {
            assert(s.take(i + 1).drop_last() =~= s.take(i as int));
            assert(s.take(i + 1).last() == b);
        }
        if b == 44u8 {
            if !any {
                proof {
                    if i > 0 {
                        assert(s[i - 1] == comma() && s[i as int] == comma());
                    }
                }
                return Err(HeapError::ConstructionError);
            }
            out.push(cur);
            cur = 0;
            any = false;
        } else if 48u8 <= b && b <= 57u8 {
            let next: i64 = (cur as i64) * 10 + ((b - 48u8) as i64);
            if next > i32::MAX as i64 {
                proof {
                    if list_syntax(s) {
                        lemma_fields_grow(s, i + 1);
                        let k = out@.len() as int;
                        assert(field_values(s.take(i + 1))[k] == next);
                        assert(field_values(s)[k] > i32::MAX);
                    }
                }
                return Err(HeapError::ConstructionError);
            }
            cur = next as i32;
            any = true;
        } else {
            proof {
                assert(!(is_digit(s[i as int]) || s[i as int] == comma()));
            }
            return Err(HeapError::ConstructionError);
        }
        i += 1;
    }
    if !any {
        return Err(HeapError::ConstructionError);
    }
    out.push(cur);
    proof {
        assert(s.take(len as int) =~= s);
        assert forall|k: int| 0 <= k < field_values(s).len() implies #[trigger] field_values(s)[k]
            <= i32::MAX by {
            assert(out@[k] == field_values(s)[k]);
        }
    }
    Ok(out)
}

/// Reads the keys of a key list: `text` is matched against `LIST_PATTERN`
/// and its numbers are read. The keys are returned exactly when the pattern
/// matches and the text is a key list whose numbers all fit the key type;
/// every other text is refused.
pub fn parse_nodes(text: &str) -> (r: Result<Vec<i32>, HeapError>)
    ensures
        r is Ok <==> regex_verdict(LIST_PATTERN@, text@) == Some(true) && list_syntax(
            text.spec_bytes(),
        ) && in_range(text.spec_bytes()),
        r matches Ok(nodes) ==> nodes@.len() == field_values(text.spec_bytes()).len()
            && forall|k: int|
            0 <= k < nodes@.len() ==> #[trigger] nodes@[k] == field_values(text.spec_bytes())[k],
        r matches Err(e) ==> e == HeapError::ConstructionError,
{
    let verdict = list_pattern_verdict(text);
    nodes_from_text(text, verdict)
}

} // verus!

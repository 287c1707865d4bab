//! Code-point level helpers for text runs.
//!
//! All offsets in this crate count code points, never bytes.

use vstd::prelude::*;

verus! {

/// The code points with the Unicode `White_Space` property.
pub open spec fn is_whitespace(c: char) -> bool {
    let u = c as u32;
    ||| 0x09 <= u <= 0x0D
    ||| u == 0x20
    ||| u == 0x85
    ||| u == 0xA0
    ||| u == 0x1680
    ||| 0x2000 <= u <= 0x200A
    ||| u == 0x2028
    ||| u == 0x2029
    ||| u == 0x202F
    ||| u == 0x205F
    ||| u == 0x3000
}

/// Whether `c` has the Unicode `White_Space` property.
pub fn char_is_whitespace(c: char) -> (r: bool)
    ensures
        r == is_whitespace(c),
{
    let u: u32 = c as u32;
    (0x09 <= u && u <= 0x0D) || u == 0x20 || u == 0x85 || u == 0xA0 || u == 0x1680 || (0x2000 <= u
        && u <= 0x200A) || u == 0x2028 || u == 0x2029 || u == 0x202F || u == 0x205F || u == 0x3000
}

/// A text is blank when it is empty or holds white space only.
pub open spec fn is_blank(text: Seq<char>) -> bool {
    forall|i: int| 0 <= i < text.len() ==> is_whitespace(#[trigger] text[i])
}

/// Whether `text` is empty or holds white space only.
pub fn str_is_blank(text: &str) -> (r: bool)
    ensures
        r == is_blank(text@),
{
    for c in it: text.chars()
        invariant
            it.seq() == text@,
            forall|i: int| 0 <= i < it.index() ==> is_whitespace(#[trigger] text@[i]),
    {
        if !char_is_whitespace(c) {
            return false;
        }
    }
    true
}

/// Appends one code point to a string.
///
/// Wraps `String::push`, which appends the given `char` to the end of the
/// string.
#[verifier::external_body]
pub(crate) fn push_char(s: &mut String, c: char)
    ensures
        final(s)@ == old(s)@.push(c),
{
    s.push(c);
}

/// The code points of `text` from offset `from` (inclusive) to `to`
/// (exclusive), with both offsets clamped to the length of the text; empty
/// when `to <= from`.
pub open spec fn char_slice(text: Seq<char>, from: int, to: int) -> Seq<char> {
    let n = text.len() as int;
    let lo = if from < n {
        from
    } else {
        n
    };
    let hi = if to < n {
        to
    } else {
        n
    };
    if 0 <= lo <= hi {
        text.subrange(lo, hi)
    } else {
        Seq::empty()
    }
}

/// The code points `from..to` of `text` as a new string; offsets past the end
/// are clamped, and the result is empty when `to <= from`.
pub fn safe_char_slice(text: &str, from: usize, to: usize) -> (r: String)
    ensures
        r@ == char_slice(text@, from as int, to as int),
{
    let mut out = String::new();
    let mut skip: usize = from;
    let mut take: usize = if to >= from {
        to - from
    } else {
        0
    };
    let ghost want = char_slice(text@, from as int, to as int);
    for c in it: text.chars()
        invariant
            it.seq() == text@,
            want == char_slice(text@, from as int, to as int),
            skip == if it.index() <= from {
                from - it.index()
            } else {
                0
            },
            out@.len() + take == if to >= from {
                to - from
            } else {
                0
            },
            out@ == want.take(out@.len() as int),
            out@.len() == if it.index() <= from {
                0
            } else if to <= from {
                0
            } else if it.index() >= to {
                to - from
            } else {
                it.index() - from
            },
    {
        if skip > 0 {
            skip -= 1;
        } else if take > 0 {
            push_char(&mut out, c);
            take -= 1;
            assert(want[it.index() - from] == c);
        }
    }
    out
}

/// The code points of `text` from offset `from` to the end; empty when `from`
/// is past the end.
pub fn safe_char_slice_from(text: &str, from: usize) -> (r: String)
    ensures
        r@ == char_slice(text@, from as int, text@.len() as int),
{
    let mut out = String::new();
    let mut skip: usize = from;
    let ghost want = char_slice(text@, from as int, text@.len() as int);
    for c in it: text.chars()
        invariant
            it.seq() == text@,
            want == char_slice(text@, from as int, text@.len() as int),
            skip == if it.index() <= from {
                from - it.index()
            } else {
                0
            },
            out@ == want.take(out@.len() as int),
            out@.len() == if it.index() <= from {
                0
            } else {
                it.index() - from
            },
    {
        if skip > 0 {
            skip -= 1;
        } else {
            push_char(&mut out, c);
            assert(want[it.index() - from] == c);
        }
    }
    out
}

/// The first `to` code points of `text`, or all of it when it is shorter.
pub fn safe_char_slice_to(text: &str, to: usize) -> (r: String)
    ensures
        r@ == char_slice(text@, 0, to as int),
{
    safe_char_slice(text, 0, to)
}

/// The two indices in ascending order.
pub open spec fn spec_ordered_indices(a: usize, b: usize) -> (usize, usize) {
    if a <= b {
        (a, b)
    } else {
        (b, a)
    }
}

/// Returns the two indices in ascending order.
pub fn ordered_indices(a: usize, b: usize) -> (r: (usize, usize))
    ensures
        r == spec_ordered_indices(a, b),
{
    if a <= b {
        (a, b)
    } else {
        (b, a)
    }
}

/// Ordering two indices does not depend on the order in which they are given.
pub proof fn lemma_ordered_indices_symmetric(a: usize, b: usize)
    ensures
        spec_ordered_indices(a, b) == spec_ordered_indices(b, a),
{
}

} // verus!

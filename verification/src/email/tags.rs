//! Reading single tags: where a tag ends, what it is called, and what value
//! an attribute has.

use crate::email::scan::{
    copy_range,
    find_in,
    find_match,
    find_trim_end,
    first_in,
    first_match,
    is_match_at,
    lower_seq,
    to_ascii_lower,
    to_chars,
    trim_end_from,
    set_except,
    set_of,
    CharSet,
    CharSetView,
    Space,
};
use vstd::prelude::*;

verus! {

/// The offset of the `>` that closes a tag, scanning from `i`. A quoted
/// attribute value is skipped whole; a quote that is never closed runs to
/// the end of the text.
pub open spec fn tag_end_from(s: Seq<char>, i: int) -> Option<int>
    decreases s.len() + 1 - i,
{
    if i < 0 || i >= s.len() {
        None
    } else if s[i] == '>' {
        Some(i)
    } else if s[i] == '"' || s[i] == '\'' {
        proof {
            lemma_first_char(s, i + 1, s[i]);
        }
        tag_end_from(s, first_char(s, i + 1, s[i]) + 1)
    } else {
        tag_end_from(s, i + 1)
    }
}

/// The first offset at or after `from` that holds `c`; the length of `s`
/// when there is none.
pub open spec fn first_char(s: Seq<char>, from: int, c: char) -> int
    decreases s.len() - from,
{
    if from >= s.len() {
        s.len() as int
    } else if from >= 0 && s[from] == c {
        from
    } else {
        first_char(s, from + 1, c)
    }
}

/// What [`first_char`] finds.
pub proof fn lemma_first_char(s: Seq<char>, from: int, c: char)
    requires
        0 <= from <= s.len(),
    ensures
        from <= first_char(s, from, c) <= s.len(),
        forall|j: int| from <= j < first_char(s, from, c) ==> #[trigger] s[j] != c,
        first_char(s, from, c) < s.len() ==> s[first_char(s, from, c)] == c,
    decreases s.len() - from,
{
    if from < s.len() && s[from] != c {
        lemma_first_char(s, from + 1, c);
    }
}

/// Computes [`first_char`].
pub fn find_char(s: &[char], from: usize, c: char) -> (r: usize)
    requires
        from <= s.len(),
    ensures
        r == first_char(s@, from as int, c),
        from <= r <= s.len(),
        r < s.len() ==> s@[r as int] == c,
{
    let mut i: usize = from;
    while i < s.len()
        invariant
            from <= i <= s.len(),
            first_char(s@, from as int, c) == first_char(s@, i as int, c),
        decreases s.len() - i,
    {
        if s[i] == c {
            return i;
        }
        i += 1;
    }
    i
}

/// The end of the tag that starts with the `<` at `start`.
pub open spec fn spec_find_tag_end(s: Seq<char>, start: int) -> Option<int> {
    tag_end_from(s, start + 1)
}

/// The end of a tag lies after the offset the scan started at, within the
/// text, and holds a `>`.
pub proof fn lemma_tag_end_from(s: Seq<char>, i: int)
    requires
        0 <= i,
    ensures
        match tag_end_from(s, i) {
            Some(e) => i <= e < s.len() && s[e] == '>',
            None => true,
        },
    decreases s.len() + 1 - i,
{
    if i < s.len() && s[i] != '>' {
        if s[i] == '"' || s[i] == '\'' {
            lemma_first_char(s, i + 1, s[i]);
            lemma_tag_end_from(s, first_char(s, i + 1, s[i]) + 1);
        } else {
            lemma_tag_end_from(s, i + 1);
        }
    }
}

/// Finds the offset of the `>` that closes the tag starting at `start` (the
/// `<`), respecting quoted attribute values.
pub fn find_tag_end(html: &[char], start: usize) -> (r: Option<usize>)
    ensures
        match r {
            Some(e) => spec_find_tag_end(html@, start as int) == Some(e as int) && start < e
                < html@.len() && html@[e as int] == '>',
            None => spec_find_tag_end(html@, start as int) is None,
        },
{
    if start >= html.len() {
        return None;
    }
    proof {
        lemma_tag_end_from(html@, start + 1);
    }
    let mut i: usize = start + 1;
    while i < html.len()
        invariant
            start < i <= html.len(),
            spec_find_tag_end(html@, start as int) == tag_end_from(html@, i as int),
        decreases html.len() - i,
    {
        let c = html[i];
        if c == '>' {
            return Some(i);
        }
        if c == '"' || c == '\'' {
            i = find_char(html, i + 1, c);
            if i >= html.len() {
                assert(tag_end_from(html@, i + 1) is None);
                return None;
            }
        }
        i += 1;
    }
    None
}

/// Where the name of a tag starts and ends within the text between `<` and
/// `>`: leading slashes and then white space are skipped, and the name runs
/// up to the first white space, `/` or `>`.
pub open spec fn tag_name_bounds(content: Seq<char>) -> (int, int) {
    let a = first_in(content, 0, set_except(Space::Absent, seq!['/']));
    let b = first_in(content, a, set_except(Space::Unicode, Seq::empty()));
    let e = first_in(content, b, set_of(Space::Ascii, seq!['/', '>']));
    (b, e)
}

/// The name of a tag, given the text between its `<` and `>`.
pub open spec fn spec_tag_name(content: Seq<char>) -> Seq<char> {
    content.subrange(tag_name_bounds(content).0, tag_name_bounds(content).1)
}

/// Extracts the name of a tag from the text between its `<` and `>`.
pub fn extract_tag_name(tag_content: &[char]) -> (r: Vec<char>)
    ensures
        r@ == spec_tag_name(tag_content@),
{
    let slash = CharSet::except(Space::Absent, vec!['/']);
    assert(slash@.chars =~= seq!['/']);
    let a = find_in(tag_content, 0, &slash);
    let blank = CharSet::except(Space::Unicode, Vec::new());
    assert(blank@.chars =~= Seq::empty());
    let b = find_in(tag_content, a, &blank);
    let stop = CharSet::of(Space::Ascii, vec!['/', '>']);
    assert(stop@.chars =~= seq!['/', '>']);
    let e = find_in(tag_content, b, &stop);
    copy_range(tag_content, b, e)
}

/// Everything but Unicode white space.
pub open spec fn non_blank() -> CharSetView {
    set_except(Space::Unicode, Seq::empty())
}

/// Unicode white space.
pub open spec fn blank() -> CharSetView {
    set_of(Space::Unicode, Seq::empty())
}

/// The offset at which an attribute's value starts, given the offset `from`
/// just after its name: white space, an `=` and more white space are
/// skipped. There is none when no `=` follows the name.
pub open spec fn after_equals(s: Seq<char>, from: int) -> Option<int> {
    let i = first_in(s, from, non_blank());
    if i < s.len() && s[i] == '=' {
        Some(first_in(s, i + 1, non_blank()))
    } else {
        None
    }
}

/// Computes [`after_equals`].
pub fn find_after_equals(s: &[char], from: usize) -> (r: Option<usize>)
    requires
        from <= s.len(),
    ensures
        match r {
            Some(i) => after_equals(s@, from as int) == Some(i as int) && from < i <= s@.len(),
            None => after_equals(s@, from as int) is None,
        },
{
    let skip = CharSet::except(Space::Unicode, Vec::new());
    assert(skip@.chars =~= Seq::empty());
    let i = find_in(s, from, &skip);
    if i < s.len() && s[i] == '=' {
        Some(find_in(s, i + 1, &skip))
    } else {
        None
    }
}

/// Where an attribute value that starts at `i` begins and ends: between the
/// quotes when it opens with `"` or `'` (up to the end of the text when the
/// quote is never closed), and otherwise from `i` up to the first code point
/// of `stop`.
pub open spec fn value_bounds(s: Seq<char>, i: int, stop: CharSetView) -> (int, int) {
    if 0 <= i < s.len() && (s[i] == '"' || s[i] == '\'') {
        (i + 1, first_char(s, i + 1, s[i]))
    } else {
        (i, first_in(s, i, stop))
    }
}

/// Computes [`value_bounds`].
pub fn find_value(s: &[char], i: usize, stop: &CharSet) -> (r: (usize, usize))
    requires
        i <= s.len(),
    ensures
        r.0 == value_bounds(s@, i as int, stop@).0,
        r.1 == value_bounds(s@, i as int, stop@).1,
        i <= r.0 <= r.1 <= s@.len(),
{
    if i < s.len() && (s[i] == '"' || s[i] == '\'') {
        (i + 1, find_char(s, i + 1, s[i]))
    } else {
        (i, find_in(s, i, stop))
    }
}

/// Where `s[a..b]` begins and ends once Unicode white space is trimmed from
/// both of its ends.
pub open spec fn trim_bounds(s: Seq<char>, a: int, b: int) -> (int, int) {
    let first = first_in(s, a, non_blank());
    let start = if first < b {
        first
    } else {
        b
    };
    (start, trim_end_from(s, start, b, blank()))
}

/// Computes [`trim_bounds`].
pub fn find_trim(s: &[char], a: usize, b: usize) -> (r: (usize, usize))
    requires
        a <= b <= s.len(),
    ensures
        r.0 == trim_bounds(s@, a as int, b as int).0,
        r.1 == trim_bounds(s@, a as int, b as int).1,
        a <= r.0 <= r.1 <= b,
{
    let skip = CharSet::except(Space::Unicode, Vec::new());
    assert(skip@.chars =~= Seq::empty());
    let first = find_in(s, a, &skip);
    let start = if first < b {
        first
    } else {
        b
    };
    let space = CharSet::of(Space::Unicode, Vec::new());
    assert(space@.chars =~= Seq::empty());
    (start, find_trim_end(s, start, b, &space))
}

/// Whether a `link` tag, given the text between its `<` and `>`, refers to a
/// style sheet: the first `rel` in it, compared without regard to case, is
/// followed by `=` and the value `stylesheet`.
pub open spec fn spec_is_stylesheet_link(content: Seq<char>) -> bool {
    let lower = lower_seq(content);
    match first_match(lower, 0, "rel"@) {
        None => false,
        Some(pos) => match after_equals(lower, pos + "rel"@.len()) {
            None => false,
            Some(i) => {
                let (a, b) = value_bounds(lower, i, set_of(Space::Ascii, seq!['>']));
                let (start, end) = trim_bounds(lower, a, b);
                lower.subrange(start, end) == "stylesheet"@
            },
        },
    }
}

/// Whether a `link` tag, given the text between its `<` and `>`, refers to a
/// style sheet.
pub fn is_stylesheet_link(tag_content: &[char]) -> (r: bool)
    ensures
        r == spec_is_stylesheet_link(tag_content@),
{
    let lower = to_ascii_lower(tag_content);
    let rel = to_chars("rel");
    let pos = match find_match(lower.as_slice(), 0, rel.as_slice()) {
        Some(pos) => pos,
        None => {
            return false;
        },
    };
    let n: usize = lower.len();
    assert(pos + rel@.len() <= n);
    let i = match find_after_equals(lower.as_slice(), pos + rel.len()) {
        Some(i) => i,
        None => {
            return false;
        },
    };
    let stop = CharSet::of(Space::Ascii, vec!['>']);
    assert(stop@.chars =~= seq!['>']);
    let (a, b) = find_value(lower.as_slice(), i, &stop);
    let (start, end) = find_trim(lower.as_slice(), a, b);
    let word = to_chars("stylesheet");
    let same = end - start == word.len() && is_match_at(lower.as_slice(), start, word.as_slice());
    proof {
        if end - start == word@.len() {
            assert(lower@.subrange(start as int, start + word@.len()) == lower@.subrange(
                start as int,
                end as int,
            ));
        }
    }
    same
}

} // verus!

//! Scanning primitives over sequences of code points.
//!
//! Markup is handled as a sequence of code points, so that every offset is a
//! valid boundary; the markers looked for are all ASCII.

use crate::text::{char_is_whitespace, is_whitespace, push_char};
use vstd::prelude::*;

verus! {

/// The code points of a string.
pub fn to_chars(s: &str) -> (v: Vec<char>)
    ensures
        v@ == s@,
{
    let mut v: Vec<char> = Vec::new();
    for c in it: s.chars()
        invariant
            it.seq() == s@,
            v@ == s@.take(it.index() as int),
    {
        v.push(c);
    }
    v
}

/// The string made of the given code points.
pub fn from_chars(v: &[char]) -> (s: String)
    ensures
        s@ == v@,
{
    let mut s = String::new();
    let mut i: usize = 0;
    while i < v.len()
        invariant
            i <= v.len(),
            s@ == v@.take(i as int),
        decreases v.len() - i,
    {
        push_char(&mut s, v[i]);
        i += 1;
    }
    s
}

/// Appends the code points `from..to` of `src` to `out`.
pub fn push_range(out: &mut Vec<char>, src: &[char], from: usize, to: usize)
    requires
        from <= to <= src.len(),
    ensures
        final(out)@ == old(out)@ + src@.subrange(from as int, to as int),
{
    let mut i: usize = from;
    while i < to
        invariant
            from <= i <= to <= src.len(),
            out@ == old(out)@ + src@.subrange(from as int, i as int),
        decreases to - i,
    {
        out.push(src[i]);
        i += 1;
    }
}

/// Appends all of `src` to `out`.
pub fn push_all(out: &mut Vec<char>, src: &[char])
    ensures
        final(out)@ == old(out)@ + src@,
{
    push_range(out, src, 0, src.len());
    assert(src@.subrange(0, src@.len() as int) =~= src@);
}

/// A copy of the code points `from..to` of `src`.
pub fn copy_range(src: &[char], from: usize, to: usize) -> (v: Vec<char>)
    requires
        from <= to <= src.len(),
    ensures
        v@ == src@.subrange(from as int, to as int),
{
    let mut v: Vec<char> = Vec::new();
    push_range(&mut v, src, from, to);
    v
}

/// The lower-case form of an ASCII capital letter; any other code point is
/// left as it is.
pub open spec fn ascii_lower(c: char) -> char {
    if 0x41 <= c as u32 <= 0x5A {
        ((c as u32 + 32) as u8) as char
    } else {
        c
    }
}

/// Computes [`ascii_lower`].
pub fn char_to_ascii_lower(c: char) -> (r: char)
    ensures
        r == ascii_lower(c),
{
    let u: u32 = c as u32;
    if 0x41 <= u && u <= 0x5A {
        ((u + 32) as u8) as char
    } else {
        c
    }
}

/// `s` with every ASCII capital letter replaced by its lower-case form.
pub open spec fn lower_seq(s: Seq<char>) -> Seq<char> {
    Seq::new(s.len(), |i: int| ascii_lower(s[i]))
}

/// Computes [`lower_seq`].
pub fn to_ascii_lower(s: &[char]) -> (v: Vec<char>)
    ensures
        v@ == lower_seq(s@),
{
    let mut v: Vec<char> = Vec::new();
    let mut i: usize = 0;
    while i < s.len()
        invariant
            i <= s.len(),
            v@ == lower_seq(s@).take(i as int),
        decreases s.len() - i,
    {
        v.push(char_to_ascii_lower(s[i]));
        i += 1;
    }
    v
}

/// ASCII white space: space, tab, line feed, form feed, carriage return.
pub open spec fn is_ascii_space(c: char) -> bool {
    c == ' ' || c == '\t' || c == '\n' || c == '\x0C' || c == '\r'
}

/// An ASCII letter.
pub open spec fn is_ascii_letter(c: char) -> bool {
    0x41 <= c as u32 <= 0x5A || 0x61 <= c as u32 <= 0x7A
}

/// Computes [`is_ascii_letter`].
pub fn char_is_ascii_letter(c: char) -> (r: bool)
    ensures
        r == is_ascii_letter(c),
{
    let u: u32 = c as u32;
    (0x41 <= u && u <= 0x5A) || (0x61 <= u && u <= 0x7A)
}

/// Which white space a [`CharSet`] takes in.
#[derive(Clone, Copy, Debug, PartialEq, Eq, Structural)]
pub enum Space {
    /// No white space.
    Absent,
    /// ASCII white space.
    Ascii,
    /// Every code point with the Unicode `White_Space` property.
    Unicode,
}

/// A set of code points: a kind of white space and a few single code
/// points, or the complement of that.
pub struct CharSet {
    pub space: Space,
    pub chars: Vec<char>,
    pub negated: bool,
}

/// The mathematical content of a [`CharSet`].
pub struct CharSetView {
    pub space: Space,
    pub chars: Seq<char>,
    pub negated: bool,
}

impl CharSetView {
    /// Whether `c` belongs to the set.
    pub open spec fn has(self, c: char) -> bool {
        self.negated != (self.chars.contains(c) || match self.space {
            Space::Absent => false,
            Space::Ascii => is_ascii_space(c),
            Space::Unicode => is_whitespace(c),
        })
    }
}

/// The set of the given white space and code points.
pub open spec fn set_of(space: Space, chars: Seq<char>) -> CharSetView {
    CharSetView { space, chars, negated: false }
}

/// The set of everything but the given white space and code points.
pub open spec fn set_except(space: Space, chars: Seq<char>) -> CharSetView {
    CharSetView { space, chars, negated: true }
}

impl View for CharSet {
    type V = CharSetView;

    open spec fn view(&self) -> CharSetView {
        CharSetView { space: self.space, chars: self.chars@, negated: self.negated }
    }
}

impl CharSet {
    /// The set of the given white space and code points.
    pub fn of(space: Space, chars: Vec<char>) -> (set: CharSet)
        ensures
            set@ == set_of(space, chars@),
    {
        CharSet { space, chars, negated: false }
    }

    /// The set of everything but the given white space and code points.
    pub fn except(space: Space, chars: Vec<char>) -> (set: CharSet)
        ensures
            set@ == set_except(space, chars@),
    {
        CharSet { space, chars, negated: true }
    }

    /// Whether `c` belongs to the set.
    pub fn contains(&self, c: char) -> (r: bool)
        ensures
            r == self@.has(c),
    {
        let mut listed = false;
        let mut i: usize = 0;
        while i < self.chars.len()
            invariant
                i <= self.chars.len(),
                listed <==> exists|j: int| 0 <= j < i && self.chars@[j] == c,
            decreases self.chars.len() - i,
        {
            if self.chars[i] == c {
                listed = true;
            }
            i += 1;
        }
        let spaced = match self.space {
            Space::Absent => false,
            Space::Ascii => c == ' ' || c == '\t' || c == '\n' || c == '\x0C' || c == '\r',
            Space::Unicode => char_is_whitespace(c),
        };
        self.negated != (listed || spaced)
    }
}

/// The first offset at or after `from` whose code point belongs to `set`; the
/// length of `s` when there is none.
pub open spec fn first_in(s: Seq<char>, from: int, set: CharSetView) -> int
    decreases s.len() - from,
{
    if from >= s.len() {
        s.len() as int
    } else if from >= 0 && set.has(s[from]) {
        from
    } else {
        first_in(s, from + 1, set)
    }
}

/// What [`first_in`] finds: no code point between `from` and the result
/// belongs to the set, and the one at the result does, unless it is the end.
pub proof fn lemma_first_in(s: Seq<char>, from: int, set: CharSetView)
    requires
        0 <= from <= s.len(),
    ensures
        from <= first_in(s, from, set) <= s.len(),
        forall|j: int| from <= j < first_in(s, from, set) ==> !set.has(#[trigger] s[j]),
        first_in(s, from, set) < s.len() ==> set.has(s[first_in(s, from, set)]),
    decreases s.len() - from,
{
    if from < s.len() && !set.has(s[from]) {
        lemma_first_in(s, from + 1, set);
    }
}

/// Computes [`first_in`].
pub fn find_in(s: &[char], from: usize, set: &CharSet) -> (r: usize)
    requires
        from <= s.len(),
    ensures
        r == first_in(s@, from as int, set@),
        from <= r <= s.len(),
        r < s.len() ==> set@.has(s@[r as int]),
{
    let mut i: usize = from;
    while i < s.len()
        invariant
            from <= i <= s.len(),
            first_in(s@, from as int, set@) == first_in(s@, i as int, set@),
        decreases s.len() - i,
    {
        if set.contains(s[i]) {
            return i;
        }
        i += 1;
    }
    i
}

/// `pat` occurs in `s` at offset `i`.
pub open spec fn matches_at(s: Seq<char>, i: int, pat: Seq<char>) -> bool {
    0 <= i && i + pat.len() <= s.len() && s.subrange(i, i + pat.len()) == pat
}

/// Whether `pat` occurs in `s` at offset `i`.
pub fn is_match_at(s: &[char], i: usize, pat: &[char]) -> (r: bool)
    ensures
        r == matches_at(s@, i as int, pat@),
{
    if i > s.len() || pat.len() > s.len() - i {
        return false;
    }
    let mut k: usize = 0;
    while k < pat.len()
        invariant
            k <= pat.len(),
            i + pat.len() <= s.len(),
            s@.subrange(i as int, i + k) == pat@.take(k as int),
        decreases pat.len() - k,
    {
        if s[i + k] != pat[k] {
            assert(s@.subrange(i as int, i + pat@.len())[k as int] != pat@[k as int]);
            return false;
        }
        assert(s@.subrange(i as int, i + k + 1) =~= s@.subrange(i as int, i + k).push(
            s@[i + k],
        ));
        assert(pat@.take(k + 1) =~= pat@.take(k as int).push(pat@[k as int]));
        k += 1;
    }
    assert(pat@.take(pat@.len() as int) =~= pat@);
    true
}

/// The first offset at or after `from` at which `pat` occurs in `s`.
pub open spec fn first_match(s: Seq<char>, from: int, pat: Seq<char>) -> Option<int>
    decreases s.len() - from,
{
    if from < 0 || from + pat.len() > s.len() {
        None
    } else if matches_at(s, from, pat) {
        Some(from)
    } else if from >= s.len() {
        None
    } else {
        first_match(s, from + 1, pat)
    }
}

/// What [`first_match`] finds: the pattern occurs at the result and at no
/// offset between `from` and it; without a result it occurs nowhere from
/// `from` on.
pub proof fn lemma_first_match(s: Seq<char>, from: int, pat: Seq<char>)
    requires
        0 <= from,
    ensures
        match first_match(s, from, pat) {
            Some(i) => from <= i && matches_at(s, i, pat) && forall|j: int|
                from <= j < i ==> !matches_at(s, j, pat),
            None => forall|j: int| from <= j ==> !matches_at(s, j, pat),
        },
    decreases s.len() - from,
{
    if from + pat.len() <= s.len() && !matches_at(s, from, pat) {
        if from < s.len() {
            lemma_first_match(s, from + 1, pat);
        } else {
            assert(s.subrange(from, from + pat.len()) =~= pat);
        }
    }
}

/// Computes [`first_match`].
pub fn find_match(s: &[char], from: usize, pat: &[char]) -> (r: Option<usize>)
    ensures
        match r {
            Some(i) => first_match(s@, from as int, pat@) == Some(i as int) && from <= i && i
                + pat@.len() <= s@.len(),
            None => first_match(s@, from as int, pat@) is None,
        },
{
    if from > s.len() {
        return None;
    }
    let mut i: usize = from;
    while pat.len() <= s.len() - i
        invariant
            from <= i <= s.len(),
            first_match(s@, from as int, pat@) == first_match(s@, i as int, pat@),
        decreases s.len() - i,
    {
        if is_match_at(s, i, pat) {
            return Some(i);
        }
        if i == s.len() {
            assert(s@.subrange(i as int, i + pat@.len()) =~= pat@);
        }
        i += 1;
    }
    None
}

/// The last offset before `before` whose code point is `c`.
pub open spec fn last_char_before(s: Seq<char>, before: int, c: char) -> Option<int>
    decreases before,
{
    if before <= 0 || before > s.len() {
        None
    } else if s[before - 1] == c {
        Some(before - 1)
    } else {
        last_char_before(s, before - 1, c)
    }
}

/// Computes [`last_char_before`].
pub fn find_last_char_before(s: &[char], before: usize, c: char) -> (r: Option<usize>)
    requires
        before <= s.len(),
    ensures
        match r {
            Some(i) => last_char_before(s@, before as int, c) == Some(i as int) && i < before
                && s@[i as int] == c,
            None => last_char_before(s@, before as int, c) is None,
        },
{
    let mut i: usize = before;
    while i > 0
        invariant
            i <= before <= s.len(),
            last_char_before(s@, before as int, c) == last_char_before(s@, i as int, c),
        decreases i,
    {
        if s[i - 1] == c {
            return Some(i - 1);
        }
        i -= 1;
    }
    None
}

/// The offset after the white space that ends at `to`, going back no further
/// than `from`: the end of `s[from..to]` with trailing white space of the
/// given set trimmed.
pub open spec fn trim_end_from(s: Seq<char>, from: int, to: int, set: CharSetView) -> int
    decreases to - from,
{
    if to <= from || to > s.len() || from < 0 {
        from
    } else if set.has(s[to - 1]) {
        trim_end_from(s, from, to - 1, set)
    } else {
        to
    }
}

/// Computes [`trim_end_from`].
pub fn find_trim_end(s: &[char], from: usize, to: usize, set: &CharSet) -> (r: usize)
    requires
        from <= to <= s.len(),
    ensures
        r == trim_end_from(s@, from as int, to as int, set@),
        from <= r <= to,
{
    let mut i: usize = to;
    while i > from
        invariant
            from <= i <= to <= s.len(),
            trim_end_from(s@, from as int, to as int, set@) == trim_end_from(
                s@,
                from as int,
                i as int,
                set@,
            ),
        decreases i,
    {
        if !set.contains(s[i - 1]) {
            return i;
        }
        i -= 1;
    }
    i
}

} // verus!

//! Rewriting of attributes the renderer does not handle into forms it does.

use crate::email::events::{non_space, value_stop};
use crate::email::scan::{
    copy_range,
    find_in,
    find_last_char_before,
    find_match,
    find_trim_end,
    first_in,
    first_match,
    from_chars,
    last_char_before,
    lower_seq,
    push_all,
    push_range,
    set_of,
    to_ascii_lower,
    to_chars,
    trim_end_from,
    CharSet,
    CharSetView,
    Space,
};
use crate::email::tags::{
    after_equals,
    find_after_equals,
    find_char,
    find_trim,
    find_value,
    first_char,
    trim_bounds,
    value_bounds,
};
use vstd::prelude::*;

verus! {

/// ASCII white space.
pub open spec fn ascii_space() -> CharSetView {
    set_of(Space::Ascii, Seq::empty())
}

/// The offset at which an attribute ends that is to be removed from `tag`,
/// given an offset `from` within its name: the end of the value that follows
/// the next `=`, the closing quote of a quoted value included. There is none
/// when no `=` follows or when a quoted value is never closed.
pub open spec fn removal_end(tag: Seq<char>, from: int) -> Option<int> {
    let eq = first_char(tag, from, '=');
    let v = first_in(tag, eq + 1, non_space());
    if eq >= tag.len() {
        None
    } else if v < tag.len() && (tag[v] == '"' || tag[v] == '\'') {
        let close = first_char(tag, v + 1, tag[v]);
        if close < tag.len() {
            Some(close + 1)
        } else {
            None
        }
    } else {
        Some(first_in(tag, v, value_stop()))
    }
}

/// Computes [`removal_end`].
fn find_removal_end(tag: &[char], from: usize) -> (r: Option<usize>)
    requires
        from <= tag.len(),
    ensures
        match r {
            Some(end) => removal_end(tag@, from as int) == Some(end as int) && from <= end
                <= tag.len(),
            None => removal_end(tag@, from as int) is None,
        },
{
    let n: usize = tag.len();
    let eq = find_char(tag, from, '=');
    if eq >= n {
        return None;
    }
    let skip = CharSet::except(Space::Ascii, Vec::new());
    assert(skip@.chars =~= Seq::empty());
    let v = find_in(tag, eq + 1, &skip);
    if v < n && (tag[v] == '"' || tag[v] == '\'') {
        let close = find_char(tag, v + 1, tag[v]);
        if close < n {
            Some(close + 1)
        } else {
            None
        }
    } else {
        let stop = CharSet::of(Space::Ascii, vec!['>']);
        assert(stop@.chars =~= seq!['>']);
        Some(find_in(tag, v, &stop))
    }
}

/// The offset at which the removal of an attribute starts whose name starts
/// at `name_pos`: the ASCII white space before the name goes too.
pub open spec fn removal_start(tag: Seq<char>, name_pos: int) -> int {
    trim_end_from(tag, 0, name_pos, ascii_space())
}

/// Computes [`removal_start`].
fn find_removal_start(tag: &[char], name_pos: usize) -> (r: usize)
    requires
        name_pos <= tag.len(),
    ensures
        r == removal_start(tag@, name_pos as int),
        r <= name_pos,
{
    let space = CharSet::of(Space::Ascii, Vec::new());
    assert(space@.chars =~= Seq::empty());
    find_trim_end(tag, 0, name_pos, &space)
}

/// `s` with `piece` inserted at offset `at`.
pub open spec fn inserted(s: Seq<char>, at: int, piece: Seq<char>) -> Seq<char> {
    s.subrange(0, at) + piece + s.subrange(at, s.len() as int)
}

/// Computes [`inserted`].
fn insert_at(s: &[char], at: usize, piece: &[char]) -> (r: Vec<char>)
    requires
        at <= s.len(),
    ensures
        r@ == inserted(s@, at as int, piece@),
{
    let mut out: Vec<char> = Vec::new();
    push_range(&mut out, s, 0, at);
    push_all(&mut out, piece);
    push_range(&mut out, s, at, s.len());
    assert(out@ =~= inserted(s@, at as int, piece@));
    out
}

/// The tag with a background color added to its style: at the front of its
/// `style` attribute, where it has one that opens with a quote, and else as
/// a new `style` attribute before the closing `>`. There is no result for a
/// tag without either.
pub open spec fn with_background(tag: Seq<char>, color: Seq<char>) -> Option<Seq<char>> {
    let addition = "background-color: "@ + color + ";"@;
    let lower = lower_seq(tag);
    match first_match(lower, 0, "style=\""@) {
        Some(p) => Some(inserted(tag, p + "style=\""@.len(), addition + " "@)),
        None => match first_match(lower, 0, "style='"@) {
            Some(p) => Some(inserted(tag, p + "style='"@.len(), addition + " "@)),
            None => match last_char_before(tag, tag.len() as int, '>') {
                Some(close) => Some(inserted(tag, close, " style=\""@ + addition + "\""@)),
                None => None,
            },
        },
    }
}

/// Computes [`with_background`].
fn add_background(tag: &[char], color: &[char]) -> (r: Option<Vec<char>>)
    ensures
        match r {
            Some(t) => with_background(tag@, color@) == Some(t@),
            None => with_background(tag@, color@) is None,
        },
{
    let n: usize = tag.len();
    let mut addition = to_chars("background-color: ");
    push_all(&mut addition, color);
    push_all(&mut addition, to_chars(";").as_slice());
    let lower = to_ascii_lower(tag);
    let double = to_chars("style=\"");
    let single = to_chars("style='");
    match find_match(lower.as_slice(), 0, double.as_slice()) {
        Some(p) => {
            push_all(&mut addition, to_chars(" ").as_slice());
            Some(insert_at(tag, p + double.len(), addition.as_slice()))
        },
        None => match find_match(lower.as_slice(), 0, single.as_slice()) {
            Some(p) => {
                push_all(&mut addition, to_chars(" ").as_slice());
                Some(insert_at(tag, p + single.len(), addition.as_slice()))
            },
            None => match find_last_char_before(tag, n, '>') {
                Some(close) => {
                    let mut piece = to_chars(" style=\"");
                    push_all(&mut piece, addition.as_slice());
                    push_all(&mut piece, to_chars("\"").as_slice());
                    Some(insert_at(tag, close, piece.as_slice()))
                },
                None => None,
            },
        },
    }
}

/// The markup with the `bgcolor` attribute of its first `<body` tag turned
/// into a background color in that tag's style; `None` where nothing is to
/// be rewritten.
///
/// The tag runs from `<body` to the next `>`. Its first `bgcolor`, compared
/// without regard to case, must be followed by `=` and a value that is not
/// blank. The attribute is removed with the white space before it, and the
/// color is added to the tag's style.
pub open spec fn body_bgcolor_rewritten(html: Seq<char>) -> Option<Seq<char>> {
    let lower = lower_seq(html);
    match first_match(lower, 0, "<body"@) {
        None => None,
        Some(body_pos) => {
            let tag_end = first_char(lower, body_pos, '>');
            let tag = html.subrange(body_pos, tag_end + 1);
            let tag_lower = lower_seq(tag);
            if tag_end >= html.len() {
                None
            } else {
                match first_match(tag_lower, 0, "bgcolor"@) {
                    None => None,
                    Some(bg_pos) => match after_equals(tag_lower, bg_pos + "bgcolor"@.len()) {
                        None => None,
                        Some(i) => {
                            let (a, b) = value_bounds(tag_lower, i, value_stop());
                            let (start, end) = trim_bounds(tag, a, b);
                            let color = tag.subrange(start, end);
                            match removal_end(tag, bg_pos) {
                                None => None,
                                Some(cut_end) => {
                                    let cut_start = removal_start(tag, bg_pos);
                                    let new_tag = tag.subrange(0, cut_start) + tag.subrange(
                                        cut_end,
                                        tag.len() as int,
                                    );
                                    match with_background(new_tag, color) {
                                        None => None,
                                        Some(styled) => if start == end {
                                            None
                                        } else {
                                            Some(
                                                html.subrange(0, body_pos) + styled + html.subrange(
                                                    tag_end + 1,
                                                    html.len() as int,
                                                ),
                                            )
                                        },
                                    }
                                },
                            }
                        },
                    },
                }
            }
        },
    }
}

/// The markup after the `bgcolor` rewrite, unchanged where there is nothing
/// to rewrite.
pub open spec fn spec_preprocess_body_bgcolor(html: Seq<char>) -> Seq<char> {
    match body_bgcolor_rewritten(html) {
        Some(out) => out,
        None => html,
    }
}

/// Rewrites the `bgcolor` of the first `<body` tag, on code points.
fn rewrite_body_bgcolor(html: &[char]) -> (r: Option<Vec<char>>)
    ensures
        match r {
            Some(out) => body_bgcolor_rewritten(html@) == Some(out@),
            None => body_bgcolor_rewritten(html@) is None,
        },
{
    let n: usize = html.len();
    let lower = to_ascii_lower(html);
    let body = to_chars("<body");
    let body_pos = match find_match(lower.as_slice(), 0, body.as_slice()) {
        Some(p) => p,
        None => {
            return None;
        },
    };
    let tag_end = find_char(lower.as_slice(), body_pos, '>');
    if tag_end >= n {
        return None;
    }
    let tag = copy_range(html, body_pos, tag_end + 1);
    let tag_lower = to_ascii_lower(tag.as_slice());
    let tag_len: usize = tag.len();
    let word = to_chars("bgcolor");
    let bg_pos = match find_match(tag_lower.as_slice(), 0, word.as_slice()) {
        Some(p) => p,
        None => {
            return None;
        },
    };
    let lower_len: usize = tag_lower.len();
    let i = match find_after_equals(tag_lower.as_slice(), bg_pos + word.len()) {
        Some(i) => i,
        None => {
            return None;
        },
    };
    let stop = CharSet::of(Space::Ascii, vec!['>']);
    assert(stop@.chars =~= seq!['>']);
    let (a, b) = find_value(tag_lower.as_slice(), i, &stop);
    let (start, end) = find_trim(tag.as_slice(), a, b);
    let color = copy_range(tag.as_slice(), start, end);
    let cut_end = match find_removal_end(tag.as_slice(), bg_pos) {
        Some(e) => e,
        None => {
            return None;
        },
    };
    let cut_start = find_removal_start(tag.as_slice(), bg_pos);
    let mut new_tag = copy_range(tag.as_slice(), 0, cut_start);
    push_range(&mut new_tag, tag.as_slice(), cut_end, tag_len);
    let styled = match add_background(new_tag.as_slice(), color.as_slice()) {
        Some(s) => s,
        None => {
            return None;
        },
    };
    if start == end {
        return None;
    }
    let mut result = copy_range(html, 0, body_pos);
    push_all(&mut result, styled.as_slice());
    push_range(&mut result, html, tag_end + 1, n);
    Some(result)
}

/// Converts `<body bgcolor="X">` to `<body style="background-color: X;">`.
pub fn preprocess_body_bgcolor(html: &str) -> (r: String)
    ensures
        r@ == spec_preprocess_body_bgcolor(html@),
{
    let chars = to_chars(html);
    match rewrite_body_bgcolor(chars.as_slice()) {
        Some(out) => from_chars(out.as_slice()),
        None => html.to_owned(),
    }
}

/// The number that the decimal digits `s` stand for.
pub open spec fn decimal_value(s: Seq<char>) -> nat
    decreases s.len(),
{
    if s.len() == 0 {
        0
    } else {
        decimal_value(s.drop_last()) * 10 + (s.last() as u32 - 0x30) as nat
    }
}

/// ASCII decimal digits only.
pub open spec fn all_digits(s: Seq<char>) -> bool {
    forall|i: int| 0 <= i < s.len() ==> 0x30 <= (#[trigger] s[i]) as u32 <= 0x39
}

/// `s` without a leading `+`.
pub open spec fn unsigned_digits(s: Seq<char>) -> Seq<char> {
    if s.len() > 0 && s[0] == '+' {
        s.subrange(1, s.len() as int)
    } else {
        s
    }
}

/// `s` is the decimal form of a number that fits in 32 bits: an optional
/// `+` and then one or more digits.
pub open spec fn is_u32_text(s: Seq<char>) -> bool {
    let digits = unsigned_digits(s);
    digits.len() > 0 && all_digits(digits) && decimal_value(digits) <= u32::MAX
}

/// More digits never make a smaller number.
proof fn lemma_decimal_value_grows(s: Seq<char>, k: int)
    requires
        0 <= k <= s.len(),
    ensures
        decimal_value(s.take(k)) <= decimal_value(s),
    decreases s.len() - k,
{
    if k < s.len() {
        lemma_decimal_value_grows(s, k + 1);
        assert(s.take(k + 1).drop_last() =~= s.take(k));
        assert(decimal_value(s.take(k)) <= decimal_value(s.take(k + 1))) by (nonlinear_arith)
            requires
                decimal_value(s.take(k + 1)) == decimal_value(s.take(k)) * 10 + (s.take(
                    k + 1,
                ).last() as u32 - 0x30) as nat,
        ;
    } else {
        assert(s.take(k) =~= s);
    }
}

/// Whether `s` is the decimal form of a number that fits in 32 bits.
pub fn parses_as_u32(s: &[char]) -> (r: bool)
    ensures
        r == is_u32_text(s@),
{
    let n: usize = s.len();
    let first: usize = if n > 0 && s[0] == '+' {
        1
    } else {
        0
    };
    if first >= n {
        return false;
    }
    let ghost digits = unsigned_digits(s@);
    assert(digits =~= s@.subrange(first as int, n as int));
    let mut value: u64 = 0;
    let mut i: usize = first;
    while i < n
        invariant
            n == s.len(),
            first <= i <= n,
            digits == s@.subrange(first as int, n as int),
            digits == unsigned_digits(s@),
            all_digits(digits.take(i - first)),
            value == decimal_value(digits.take(i - first)),
            value <= u32::MAX,
        decreases n - i,
    {
        let u: u32 = s[i] as u32;
        if u < 0x30 || u > 0x39 {
            assert(!(0x30 <= digits[i - first] as u32 <= 0x39));
            return false;
        }
        let ghost next = digits.take(i - first + 1);
        assert(next.drop_last() =~= digits.take(i - first));
        assert(next.last() == s@[i as int]);
        value = value * 10 + (u - 0x30) as u64;
        assert(value == decimal_value(next));
        if value > 0xFFFF_FFFF {
            proof {
                lemma_decimal_value_grows(digits, i - first + 1);
            }
            return false;
        }
        i += 1;
    }
    assert(digits.take(n - first) =~= digits);
    true
}

/// What the rewrite of one `cellpadding` occurrence at offset `pos` gives,
/// with the output so far reaching up to offset `last` of the input: the
/// offset at which the tag starts, the rewritten tag, and the offset at
/// which the tag ends. There is nothing to rewrite unless
///
/// - the last `<` before the occurrence opens a tag with `table` before the
///   occurrence, not yet rewritten and not closed before the occurrence
///   ends;
/// - an `=` and a value that is the decimal form of a 32-bit number follow;
/// - the tag ends with a `>`, and a quoted value is closed within the tag.
///
/// The attribute is removed with the white space before it, and
/// `data-cellpadding` with the same value is added before the closing `>`.
pub open spec fn cellpadding_edit(html: Seq<char>, pos: int, last: int) -> Option<
    (int, Seq<char>, int),
> {
    let lower = lower_seq(html);
    let name_len = "cellpadding"@.len() as int;
    match last_char_before(lower, pos, '<') {
        None => None,
        Some(open) => match after_equals(lower, pos + name_len) {
            None => None,
            Some(i) => {
                let (a, b) = value_bounds(lower, i, value_stop());
                let (start, end) = trim_bounds(html, a, b);
                let padding = html.subrange(start, end);
                let tag_end = first_char(lower, open, '>');
                let tag = html.subrange(open, tag_end + 1);
                let at = pos - open;
                if first_match(lower.subrange(open, pos), 0, "table"@) is None || !is_u32_text(
                    padding,
                ) || tag_end >= html.len() || tag_end < pos + name_len || open < last {
                    None
                } else {
                    match removal_end(tag, at + name_len) {
                        None => None,
                        Some(cut_end) => {
                            let cut_start = removal_start(tag, at);
                            let new_tag = tag.subrange(0, cut_start) + tag.subrange(
                                cut_end,
                                tag.len() as int,
                            );
                            match last_char_before(new_tag, new_tag.len() as int, '>') {
                                None => None,
                                Some(close) => Some(
                                    (
                                        open,
                                        inserted(
                                            new_tag,
                                            close,
                                            " data-cellpadding=\""@ + padding + "\""@,
                                        ),
                                        tag_end,
                                    ),
                                ),
                            }
                        },
                    }
                }
            },
        },
    }
}

/// Computes [`cellpadding_edit`].
fn edit_cellpadding(html: &[char], lower: &[char], pos: usize, last: usize) -> (r: Option<
    (usize, Vec<char>, usize),
>)
    requires
        lower@ == lower_seq(html@),
        pos + "cellpadding"@.len() <= html.len(),
    ensures
        match r {
            Some((open, tag, tag_end)) => cellpadding_edit(html@, pos as int, last as int) == Some(
                (open as int, tag@, tag_end as int),
            ) && last <= open <= pos < tag_end < html.len(),
            None => cellpadding_edit(html@, pos as int, last as int) is None,
        },
{
    let n: usize = html.len();
    let word = to_chars("cellpadding");
    let open = match find_last_char_before(lower, pos, '<') {
        Some(open) => open,
        None => {
            return None;
        },
    };
    let i = match find_after_equals(lower, pos + word.len()) {
        Some(i) => i,
        None => {
            return None;
        },
    };
    let stop = CharSet::of(Space::Ascii, vec!['>']);
    assert(stop@.chars =~= seq!['>']);
    let (a, b) = find_value(lower, i, &stop);
    let (start, end) = find_trim(html, a, b);
    let padding = copy_range(html, start, end);
    let tag_end = find_char(lower, open, '>');
    let before = copy_range(lower, open, pos);
    let table = to_chars("table");
    if find_match(before.as_slice(), 0, table.as_slice()).is_none() || !parses_as_u32(
        padding.as_slice(),
    ) || tag_end >= n || tag_end < pos + word.len() || open < last {
        return None;
    }
    let tag = copy_range(html, open, tag_end + 1);
    let tag_len: usize = tag.len();
    let at: usize = pos - open;
    let cut_end = match find_removal_end(tag.as_slice(), at + word.len()) {
        Some(e) => e,
        None => {
            return None;
        },
    };
    let cut_start = find_removal_start(tag.as_slice(), at);
    let mut new_tag = copy_range(tag.as_slice(), 0, cut_start);
    push_range(&mut new_tag, tag.as_slice(), cut_end, tag_len);
    let close = match find_last_char_before(new_tag.as_slice(), new_tag.len(), '>') {
        Some(c) => c,
        None => {
            return None;
        },
    };
    let mut piece = to_chars(" data-cellpadding=\"");
    push_all(&mut piece, padding.as_slice());
    push_all(&mut piece, to_chars("\"").as_slice());
    Some((open, insert_at(new_tag.as_slice(), close, piece.as_slice()), tag_end))
}

/// The markup from offset `last` on with every `cellpadding` occurrence
/// from offset `search_from` on rewritten where [`cellpadding_edit`] says so.
pub open spec fn cellpadding_from(html: Seq<char>, search_from: int, last: int) -> Seq<char>
    decreases html.len() - search_from,
{
    let name_len = "cellpadding"@.len() as int;
    match first_match(lower_seq(html), search_from, "cellpadding"@) {
        None => html.subrange(last, html.len() as int),
        Some(pos) => {
            proof {
                reveal_strlit("cellpadding");
                crate::email::scan::lemma_first_match(
                    lower_seq(html),
                    search_from,
                    "cellpadding"@,
                );
            }
            if search_from < 0 {
                html.subrange(last, html.len() as int)
            } else {
                match cellpadding_edit(html, pos, last) {
                    Some((open, tag, tag_end)) => html.subrange(last, open) + tag
                        + cellpadding_from(html, pos + name_len, tag_end + 1),
                    None => cellpadding_from(html, pos + name_len, last),
                }
            }
        },
    }
}

/// The markup with the `cellpadding` attribute of every table tag turned
/// into a `data-cellpadding` attribute of the same value.
pub open spec fn spec_preprocess_cellpadding(html: Seq<char>) -> Seq<char> {
    cellpadding_from(html, 0, 0)
}

/// Rewrites `cellpadding` attributes, on code points.
fn rewrite_cellpadding(html: &[char]) -> (r: Vec<char>)
    ensures
        r@ == spec_preprocess_cellpadding(html@),
{
    let n: usize = html.len();
    let lower = to_ascii_lower(html);
    let word = to_chars("cellpadding");
    let mut result: Vec<char> = Vec::new();
    let mut last: usize = 0;
    let mut search_from: usize = 0;
    assert(result@ + cellpadding_from(html@, 0, 0) =~= spec_preprocess_cellpadding(html@));
    loop
        invariant
            n == html.len(),
            lower@ == lower_seq(html@),
            word@ == "cellpadding"@,
            last <= n,
            search_from <= n,
            result@ + cellpadding_from(html@, search_from as int, last as int)
                == spec_preprocess_cellpadding(html@),
        ensures
            last <= n,
            result@ + html@.subrange(last as int, n as int) == spec_preprocess_cellpadding(html@),
        decreases n - search_from,
    {
        let ghost before = result@;
        let ghost old_from = search_from as int;
        let ghost old_last = last as int;
        let pos = match find_match(lower.as_slice(), search_from, word.as_slice()) {
            Some(pos) => pos,
            None => {
                break ;
            },
        };
        proof {
            reveal_strlit("cellpadding");
        }
        search_from = pos + word.len();
        match edit_cellpadding(html, lower.as_slice(), pos, last) {
            Some((open, tag, tag_end)) => {
                push_range(&mut result, html, last, open);
                push_all(&mut result, tag.as_slice());
                last = tag_end + 1;
            },
            None => {},
        }
        assert(result@ + cellpadding_from(html@, search_from as int, last as int) =~= before
            + cellpadding_from(html@, old_from, old_last));
    }
    push_range(&mut result, html, last, n);
    result
}

/// Converts `<table cellpadding="N">` to `<table data-cellpadding="N">`,
/// for every table tag whose padding is a number.
pub fn preprocess_cellpadding(html: &str) -> (r: String)
    ensures
        r@ == spec_preprocess_cellpadding(html@),
{
    let chars = to_chars(html);
    let out = rewrite_cellpadding(chars.as_slice());
    from_chars(out.as_slice())
}

/// The markup after both rewrites: first the body's `bgcolor`, then every
/// table's `cellpadding`.
pub open spec fn spec_preprocess_attrs(html: Seq<char>) -> Seq<char> {
    spec_preprocess_cellpadding(spec_preprocess_body_bgcolor(html))
}

/// Converts HTML attributes the renderer does not handle.
///
/// Handles:
/// - `<body bgcolor="...">`, which becomes an inline `background-color`;
/// - `<table cellpadding="N">`, which becomes `data-cellpadding="N"`.
pub fn preprocess_attrs(html: &str) -> (r: String)
    ensures
        r@ == spec_preprocess_attrs(html@),
{
    let result = preprocess_body_bgcolor(html);
    preprocess_cellpadding(result.as_str())
}

} // verus!

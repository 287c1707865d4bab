//! Removal of active content from e-mail HTML.

use crate::email::events::{spec_strip_event_handlers, strip_event_handlers};
use crate::email::scan::{
    copy_range,
    find_match,
    first_match,
    from_chars,
    is_match_at,
    lemma_first_match,
    lower_seq,
    matches_at,
    push_all,
    push_range,
    to_ascii_lower,
    to_chars,
};
use crate::email::tags::{
    extract_tag_name,
    find_tag_end,
    is_stylesheet_link,
    lemma_tag_end_from,
    spec_is_stylesheet_link,
    spec_tag_name,
    tag_end_from,
};
use crate::text::{char_is_whitespace, is_whitespace};
use vstd::prelude::*;

verus! {

/// Whether two sequences of code points are the same.
pub fn same_chars(a: &[char], b: &[char]) -> (r: bool)
    ensures
        r == (a@ == b@),
{
    if a.len() != b.len() {
        return false;
    }
    let r = is_match_at(a, 0, b);
    assert(a@.subrange(0, b@.len() as int) =~= a@);
    r
}

/// The elements that are removed together with what they hold, by their
/// lower-case names.
pub open spec fn is_stripped_element(name: Seq<char>) -> bool {
    ||| name == "script"@
    ||| name == "iframe"@
    ||| name == "object"@
    ||| name == "embed"@
    ||| name == "form"@
    ||| name == "input"@
    ||| name == "textarea"@
    ||| name == "select"@
    ||| name == "button"@
}

/// Whether `name` is one of the elements that are removed with what they
/// hold.
pub fn stripped_element(name: &[char]) -> (r: bool)
    ensures
        r == is_stripped_element(name@),
{
    same_chars(name, to_chars("script").as_slice()) || same_chars(
        name,
        to_chars("iframe").as_slice(),
    ) || same_chars(name, to_chars("object").as_slice()) || same_chars(
        name,
        to_chars("embed").as_slice(),
    ) || same_chars(name, to_chars("form").as_slice()) || same_chars(
        name,
        to_chars("input").as_slice(),
    ) || same_chars(name, to_chars("textarea").as_slice()) || same_chars(
        name,
        to_chars("select").as_slice(),
    ) || same_chars(name, to_chars("button").as_slice())
}

/// Moves a position forward to `target`; a position already at or past it
/// stays where it is.
pub fn advance_past(pos: usize, target: usize) -> (r: usize)
    ensures
        r == if pos >= target {
            pos
        } else {
            target
        },
{
    if pos >= target {
        pos
    } else {
        target
    }
}

/// At offset `i` stands `marker` followed by `name`, compared without regard
/// to case, and after it a code point that ends a tag name: `>`, white
/// space, or, where `slash` is set, `/`.
pub open spec fn tag_opens_at(
    html: Seq<char>,
    i: int,
    marker: Seq<char>,
    name: Seq<char>,
    slash: bool,
) -> bool {
    let after = i + marker.len() + name.len();
    &&& after < html.len()
    &&& (html[after] == '>' || is_whitespace(html[after]) || (slash && html[after] == '/'))
}

/// The offset at which reading goes on after the content of a removed
/// element. The scan starts at `i` with `depth` elements of that name open;
/// a closing tag of the name takes one off, an opening tag adds one. When
/// the last one closes, reading goes on after that closing tag, or at the
/// closing tag itself if it has no `>`. Without it the scan runs to the end.
pub open spec fn skip_close(html: Seq<char>, i: int, name: Seq<char>, depth: nat) -> int
    decreases html.len() - i,
{
    let lower = lower_seq(html);
    if i < 0 || i >= html.len() {
        html.len() as int
    } else if matches_at(lower, i, "</"@ + name) {
        if tag_opens_at(html, i, "</"@, name, false) {
            if depth <= 1 {
                match tag_end_from(html, i + 1) {
                    Some(e) => e + 1,
                    None => i,
                }
            } else {
                skip_close(html, i + 1, name, (depth - 1) as nat)
            }
        } else {
            skip_close(html, i + 1, name, depth)
        }
    } else if matches_at(lower, i, "<"@ + name) {
        if tag_opens_at(html, i, "<"@, name, true) {
            skip_close(html, i + 1, name, depth + 1)
        } else {
            skip_close(html, i + 1, name, depth)
        }
    } else {
        skip_close(html, i + 1, name, depth)
    }
}

/// The scan never goes back, nor past the end.
pub proof fn lemma_skip_close(html: Seq<char>, i: int, name: Seq<char>, depth: nat)
    requires
        0 <= i <= html.len(),
    ensures
        i <= skip_close(html, i, name, depth) <= html.len(),
    decreases html.len() - i,
{
    let lower = lower_seq(html);
    if i < html.len() {
        lemma_tag_end_from(html, i + 1);
        if matches_at(lower, i, "</"@ + name) {
            if tag_opens_at(html, i, "</"@, name, false) {
                if depth > 1 {
                    lemma_skip_close(html, i + 1, name, (depth - 1) as nat);
                }
            } else {
                lemma_skip_close(html, i + 1, name, depth);
            }
        } else if matches_at(lower, i, "<"@ + name) {
            if tag_opens_at(html, i, "<"@, name, true) {
                lemma_skip_close(html, i + 1, name, depth + 1);
            } else {
                lemma_skip_close(html, i + 1, name, depth);
            }
        } else {
            lemma_skip_close(html, i + 1, name, depth);
        }
    }
}

/// Skips the content of a removed element: returns the offset at which
/// reading goes on, given the offset `pos` just after its opening tag.
/// `lower` is `html` in lower case.
pub fn skip_until_close_tag(html: &[char], lower: &[char], pos: usize, tag_name: &[char]) -> (r:
    usize)
    requires
        lower@ == lower_seq(html@),
        pos <= html.len(),
    ensures
        r == skip_close(html@, pos as int, tag_name@, 1),
        pos <= r <= html.len(),
{
    proof {
        lemma_skip_close(html@, pos as int, tag_name@, 1);
    }
    let n: usize = html.len();
    let mut close_pattern = to_chars("</");
    push_all(&mut close_pattern, tag_name);
    let mut open_pattern = to_chars("<");
    push_all(&mut open_pattern, tag_name);
    let mut depth: u128 = 1;
    let mut i: usize = pos;
    while i < n
        invariant
            n == html.len(),
            lower@ == lower_seq(html@),
            close_pattern@ == "</"@ + tag_name@,
            open_pattern@ == "<"@ + tag_name@,
            pos <= i <= n,
            1 <= depth <= i - pos + 1,
            skip_close(html@, pos as int, tag_name@, 1) == skip_close(
                html@,
                i as int,
                tag_name@,
                depth as nat,
            ),
        decreases n - i,
    {
        if is_match_at(lower, i, close_pattern.as_slice()) {
            let after: usize = i + close_pattern.len();
            if after < n && (html[after] == '>' || char_is_whitespace(html[after])) {
                depth -= 1;
                if depth == 0 {
                    return match find_tag_end(html, i) {
                        Some(end) => end + 1,
                        None => i,
                    };
                }
            }
        } else if is_match_at(lower, i, open_pattern.as_slice()) {
            let after: usize = i + open_pattern.len();
            if after < n && (html[after] == '>' || char_is_whitespace(html[after]) || html[after]
                == '/') {
                depth += 1;
            }
        }
        i += 1;
    }
    i
}

/// The sanitized form of the markup from offset `i` on.
///
/// Text is kept. A comment is kept whole. A `<` that opens no tag is kept
/// as text. A `link` to a style sheet is dropped. An element that carries
/// active content or belongs to a form is dropped with all it holds, up to
/// its matching closing tag. Any other tag is kept, without its event
/// handler attributes.
pub open spec fn sanitize_from(html: Seq<char>, i: int) -> Seq<char>
    decreases html.len() - i,
{
    if i < 0 || i >= html.len() {
        Seq::empty()
    } else if html[i] != '<' {
        seq![html[i]] + sanitize_from(html, i + 1)
    } else if matches_at(html, i, "<!--"@) && first_match(html, i, "-->"@) is Some {
        let end = first_match(html, i, "-->"@).unwrap() + "-->"@.len();
        proof {
            lemma_first_match(html, i, "-->"@);
            reveal_strlit("-->");
        }
        html.subrange(i, end) + sanitize_from(html, end)
    } else {
        proof {
            lemma_tag_end_from(html, i + 1);
        }
        match tag_end_from(html, i + 1) {
            None => seq!['<'] + sanitize_from(html, i + 1),
            Some(e) => {
                let content = html.subrange(i + 1, e);
                let name = lower_seq(spec_tag_name(content));
                if name == "link"@ && spec_is_stylesheet_link(content) {
                    sanitize_from(html, e + 1)
                } else if is_stripped_element(name) {
                    if (content.len() > 0 && content[0] == '/') || (content.len() > 0
                        && content.last() == '/') {
                        sanitize_from(html, e + 1)
                    } else {
                        proof {
                            lemma_skip_close(html, e + 1, name, 1);
                        }
                        sanitize_from(html, skip_close(html, e + 1, name, 1))
                    }
                } else {
                    spec_strip_event_handlers(html.subrange(i, e + 1)) + sanitize_from(html, e + 1)
                }
            },
        }
    }
}

/// The sanitized form of the markup `html`.
pub open spec fn spec_sanitize_html(html: Seq<char>) -> Seq<char> {
    sanitize_from(html, 0)
}

/// Sanitizes markup given as code points.
pub fn sanitize_chars(html: &[char]) -> (r: Vec<char>)
    ensures
        r@ == spec_sanitize_html(html@),
{
    let n: usize = html.len();
    let lower = to_ascii_lower(html);
    let comment_open = to_chars("<!--");
    let comment_close = to_chars("-->");
    let link = to_chars("link");
    let mut result: Vec<char> = Vec::new();
    let mut i: usize = 0;
    assert(result@ + sanitize_from(html@, 0) =~= sanitize_from(html@, 0));
    while i < n
        invariant
            n == html.len(),
            lower@ == lower_seq(html@),
            comment_open@ == "<!--"@,
            comment_close@ == "-->"@,
            link@ == "link"@,
            i <= n,
            result@ + sanitize_from(html@, i as int) == spec_sanitize_html(html@),
        decreases n - i,
    {
        let ghost before = result@;
        let ghost at = i as int;
        let c = html[i];
        if c == '<' {
            let mut handled = false;
            if is_match_at(html, i, comment_open.as_slice()) {
                match find_match(html, i, comment_close.as_slice()) {
                    Some(end) => {
                        let comment_end: usize = end + comment_close.len();
                        proof {
                            reveal_strlit("-->");
                        }
                        push_range(&mut result, html, i, comment_end);
                        i = comment_end;
                        handled = true;
                    },
                    None => {},
                }
            }
            if !handled {
                match find_tag_end(html, i) {
                    None => {
                        result.push(c);
                        assert(result@ =~= before + seq!['<']);
                        i += 1;
                    },
                    Some(tag_end) => {
                        let tag_content = copy_range(html, i + 1, tag_end);
                        let tag_name = extract_tag_name(tag_content.as_slice());
                        let tag_lower = to_ascii_lower(tag_name.as_slice());
                        let is_closing = tag_content.len() > 0 && tag_content[0] == '/';
                        if same_chars(tag_lower.as_slice(), link.as_slice()) && is_stylesheet_link(
                            tag_content.as_slice(),
                        ) {
                            i = advance_past(i, tag_end + 1);
                        } else if stripped_element(tag_lower.as_slice()) {
                            let is_self_closing = tag_content.len() > 0 && tag_content[tag_content.len()
                                - 1] == '/';
                            i = advance_past(i, tag_end + 1);
                            if !is_closing && !is_self_closing {
                                i = skip_until_close_tag(
                                    html,
                                    lower.as_slice(),
                                    i,
                                    tag_lower.as_slice(),
                                );
                            }
                        } else {
                            let tag_str = copy_range(html, i, tag_end + 1);
                            let cleaned = strip_event_handlers(tag_str.as_slice());
                            push_all(&mut result, cleaned.as_slice());
                            i = advance_past(i, tag_end + 1);
                        }
                    },
                }
            }
        } else {
            result.push(c);
            assert(result@ =~= before + seq![c]);
            i += 1;
        }
        assert(result@ + sanitize_from(html@, i as int) =~= before + sanitize_from(html@, at));
    }
    assert(result@ + Seq::<char>::empty() =~= result@);
    result
}

/// Strips dangerous elements and attributes from e-mail HTML.
///
/// Removes `<script>`, `<iframe>`, `<object>`, `<embed>`, `<form>` and form
/// controls together with what they hold, event handler attributes
/// (`on*`), and `<link rel="stylesheet">` elements. Everything else is kept
/// as it is.
pub fn sanitize_html(html: &str) -> (r: String)
    ensures
        r@ == spec_sanitize_html(html@),
{
    let chars = to_chars(html);
    let clean = sanitize_chars(chars.as_slice());
    from_chars(clean.as_slice())
}

} // verus!

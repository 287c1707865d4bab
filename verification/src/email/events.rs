//! Removal of event handler attributes (`onclick`, `onerror`, ...) from a
//! tag.

use crate::email::scan::{
    ascii_lower,
    char_is_ascii_letter,
    char_to_ascii_lower,
    find_in,
    find_match,
    first_in,
    first_match,
    is_ascii_letter,
    is_ascii_space,
    lemma_first_in,
    lower_seq,
    push_range,
    set_except,
    set_of,
    to_ascii_lower,
    to_chars,
    CharSet,
    CharSetView,
    Space,
};
use crate::email::tags::{find_char, first_char, lemma_first_char};
use vstd::prelude::*;

verus! {

/// Everything but ASCII white space.
pub open spec fn non_space() -> CharSetView {
    set_except(Space::Ascii, Seq::empty())
}

/// The code points that end a tag's name: ASCII white space, `>` and `/`.
pub open spec fn name_stop() -> CharSetView {
    set_of(Space::Ascii, seq!['>', '/'])
}

/// The code points that end an attribute's name: ASCII white space, `=`,
/// `>` and `/`.
pub open spec fn attr_stop() -> CharSetView {
    set_of(Space::Ascii, seq!['=', '>', '/'])
}

/// The code points that end an unquoted attribute value: ASCII white space
/// and `>`.
pub open spec fn value_stop() -> CharSetView {
    set_of(Space::Ascii, seq!['>'])
}

/// The offset at which the name of the tag ends: after the opening `<`, an
/// optional `/` and the name itself.
pub open spec fn tag_name_end(tag: Seq<char>) -> int {
    let j0: int = if tag.len() > 0 && tag[0] == '<' {
        1
    } else {
        0
    };
    let j1 = if j0 < tag.len() && tag[j0] == '/' {
        j0 + 1
    } else {
        j0
    };
    first_in(tag, j1, name_stop())
}

/// An attribute names an event handler when it starts with `on`, in either
/// case, followed by an ASCII letter.
pub open spec fn is_event_name(name: Seq<char>) -> bool {
    name.len() > 2 && ascii_lower(name[0]) == 'o' && ascii_lower(name[1]) == 'n'
        && is_ascii_letter(name[2])
}

/// The offset at which an attribute ends, given the offset `i` at which its
/// name ends: `i` itself when no `=` follows, else the end of the value, the
/// closing quote of a quoted value included.
pub open spec fn attr_end(tag: Seq<char>, i: int) -> int {
    let t = first_in(tag, i, non_space());
    if t < tag.len() && tag[t] == '=' {
        let v = first_in(tag, t + 1, non_space());
        if v < tag.len() && (tag[v] == '"' || tag[v] == '\'') {
            let c = first_char(tag, v + 1, tag[v]);
            if c < tag.len() {
                c + 1
            } else {
                c
            }
        } else {
            first_in(tag, v, value_stop())
        }
    } else {
        i
    }
}

/// An attribute ends at or after the end of its name, within the tag.
pub proof fn lemma_attr_end(tag: Seq<char>, i: int)
    requires
        0 <= i <= tag.len(),
    ensures
        i <= attr_end(tag, i) <= tag.len(),
{
    lemma_first_in(tag, i, non_space());
    let t = first_in(tag, i, non_space());
    if t < tag.len() && tag[t] == '=' {
        lemma_first_in(tag, t + 1, non_space());
        let v = first_in(tag, t + 1, non_space());
        if v < tag.len() && (tag[v] == '"' || tag[v] == '\'') {
            lemma_first_char(tag, v + 1, tag[v]);
        } else {
            lemma_first_in(tag, v, value_stop());
        }
    }
}

/// The rest of the tag from offset `i` on, with event handler attributes
/// and the white space before them left out.
pub open spec fn strip_from(tag: Seq<char>, i: int) -> Seq<char>
    decreases tag.len() - i,
{
    if i < 0 || i >= tag.len() {
        Seq::empty()
    } else if is_ascii_space(tag[i]) {
        let w = first_in(tag, i, non_space());
        if w >= tag.len() || tag[w] == '>' || tag[w] == '/' {
            proof {
                lemma_first_in(tag, i, non_space());
            }
            tag.subrange(i, w) + strip_from(tag, w)
        } else {
            let e = first_in(tag, w, attr_stop());
            let v = attr_end(tag, e);
            proof {
                lemma_first_in(tag, i, non_space());
                lemma_first_in(tag, w, attr_stop());
                lemma_attr_end(tag, e);
            }
            (if is_event_name(tag.subrange(w, e)) {
                Seq::empty()
            } else {
                tag.subrange(i, v)
            }) + strip_from(tag, v)
        }
    } else {
        seq![tag[i]] + strip_from(tag, i + 1)
    }
}

/// The tag without its event handler attributes. A tag that nowhere holds
/// a space followed by `on`, in either case, is left as it is.
pub open spec fn spec_strip_event_handlers(tag: Seq<char>) -> Seq<char> {
    if first_match(lower_seq(tag), 0, " on"@) is None {
        tag
    } else {
        tag.subrange(0, tag_name_end(tag)) + strip_from(tag, tag_name_end(tag))
    }
}

/// Finds the end of the attribute whose name ends at `i`.
fn find_attr_end(tag: &[char], i: usize) -> (r: usize)
    requires
        i <= tag.len(),
    ensures
        r == attr_end(tag@, i as int),
        i <= r <= tag.len(),
{
    proof {
        lemma_attr_end(tag@, i as int);
    }
    let skip = CharSet::except(Space::Ascii, Vec::new());
    assert(skip@.chars =~= Seq::empty());
    let t = find_in(tag, i, &skip);
    if t < tag.len() && tag[t] == '=' {
        let v = find_in(tag, t + 1, &skip);
        if v < tag.len() && (tag[v] == '"' || tag[v] == '\'') {
            let c = find_char(tag, v + 1, tag[v]);
            if c < tag.len() {
                c + 1
            } else {
                c
            }
        } else {
            let stop = CharSet::of(Space::Ascii, vec!['>']);
            assert(stop@.chars =~= seq!['>']);
            find_in(tag, v, &stop)
        }
    } else {
        i
    }
}

/// Removes the event handler attributes from a single tag, given with its
/// `<` and `>`.
pub fn strip_event_handlers(tag: &[char]) -> (r: Vec<char>)
    ensures
        r@ == spec_strip_event_handlers(tag@),
{
    let n: usize = tag.len();
    let lower = to_ascii_lower(tag);
    let marker = to_chars(" on");
    let mut result: Vec<char> = Vec::new();
    if find_match(lower.as_slice(), 0, marker.as_slice()).is_none() {
        push_range(&mut result, tag, 0, n);
        assert(tag@.subrange(0, n as int) =~= tag@);
        return result;
    }
    let j0: usize = if n > 0 && tag[0] == '<' {
        1
    } else {
        0
    };
    let j1: usize = if j0 < n && tag[j0] == '/' {
        j0 + 1
    } else {
        j0
    };
    let name_end = CharSet::of(Space::Ascii, vec!['>', '/']);
    assert(name_end@.chars =~= seq!['>', '/']);
    let j = find_in(tag, j1, &name_end);
    push_range(&mut result, tag, 0, j);

    let skip = CharSet::except(Space::Ascii, Vec::new());
    assert(skip@.chars =~= Seq::empty());
    let attr_name_end = CharSet::of(Space::Ascii, vec!['=', '>', '/']);
    assert(attr_name_end@.chars =~= seq!['=', '>', '/']);
    let mut i: usize = j;
    while i < n
        invariant
            n == tag.len(),
            j <= i <= n,
            skip@ == non_space(),
            attr_name_end@ == attr_stop(),
            result@ + strip_from(tag@, i as int) == tag@.subrange(0, j as int) + strip_from(
                tag@,
                j as int,
            ),
        decreases n - i,
    {
        let ghost before = result@;
        let ghost at = i as int;
        let c = tag[i];
        if c == ' ' || c == '\t' || c == '\n' || c == '\x0C' || c == '\r' {
            let ws_start = i;
            let w = find_in(tag, i, &skip);
            proof {
                lemma_first_in(tag@, i as int, non_space());
            }
            if w >= n || tag[w] == '>' || tag[w] == '/' {
                push_range(&mut result, tag, ws_start, w);
                i = w;
            } else {
                let e = find_in(tag, w, &attr_name_end);
                let is_event = e - w > 2 && char_to_ascii_lower(tag[w]) == 'o'
                    && char_to_ascii_lower(tag[w + 1]) == 'n' && char_is_ascii_letter(
                    tag[w + 2],
                );
                assert(is_event == is_event_name(tag@.subrange(w as int, e as int)));
                let v = find_attr_end(tag, e);
                if !is_event {
                    push_range(&mut result, tag, ws_start, v);
                } else {
                    assert(result@ + Seq::<char>::empty() =~= result@);
                }
                i = v;
            }
        } else {
            result.push(c);
            assert(result@ =~= before + seq![c]);
            i += 1;
        }
        assert(result@ + strip_from(tag@, i as int) =~= before + strip_from(tag@, at));
    }
    assert(result@ + Seq::<char>::empty() =~= result@);
    result
}

} // verus!

//! Character-level hit testing: from a point to an element and a code-point
//! offset into its text.

use crate::closest::{closest_text_leaf, spec_closest_text_leaf};
use crate::document::{Document, Element};
use crate::layout::{
    font_for_text,
    placement_for_text,
    spec_font_for_text,
    spec_placement_for_text,
};
use crate::measure::{is_text_measure, measure_width, measured_width};
use crate::order::SelectionEndpoint;
use crate::text::{is_blank, push_char, str_is_blank};
use crate::walker::{first_text_leaf, spec_first_text_leaf};
use vstd::prelude::*;

verus! {

/// The width of the first `k` code points of `text`; 0 for `k == 0`, which is
/// never measured.
pub open spec fn prefix_width<F: Fn(&str, usize) -> i32>(
    m: &F,
    text: Seq<char>,
    font: usize,
    k: int,
) -> int {
    if k <= 0 {
        0
    } else {
        measured_width(m, text.take(k), font)
    }
}

/// The pointer at `target` falls before the visual centre of the `k`-th code
/// point: twice the target is less than the sum of the widths of the prefixes
/// that end before and after that code point.
pub open spec fn before_midpoint<F: Fn(&str, usize) -> i32>(
    m: &F,
    text: Seq<char>,
    font: usize,
    target: int,
    k: int,
) -> bool {
    2 * target < prefix_width(m, text, font, k) + prefix_width(m, text, font, k + 1)
}

/// The first offset at or after `k` whose code point has its centre beyond
/// `target`; the length of the text when there is none.
pub open spec fn char_at_from<F: Fn(&str, usize) -> i32>(
    m: &F,
    text: Seq<char>,
    font: usize,
    target: int,
    k: int,
) -> int
    decreases text.len() - k,
{
    if k >= text.len() {
        text.len() as int
    } else if before_midpoint(m, text, font, target, k) {
        k
    } else {
        char_at_from(m, text, font, target, k + 1)
    }
}

/// The boundary between code points nearest to the pixel offset `target`
/// within `text`: 0 for an empty text or a target at or left of the origin.
pub open spec fn spec_find_char_at_x<F: Fn(&str, usize) -> i32>(
    m: &F,
    text: Seq<char>,
    font: usize,
    target: int,
) -> int {
    if text.len() == 0 || target <= 0 {
        0
    } else {
        char_at_from(m, text, font, target, 0)
    }
}

/// The offset found is a boundary of the text, no code point before it has
/// its centre beyond the target, and the one at it has, unless it is the end.
pub proof fn lemma_char_at_from<F: Fn(&str, usize) -> i32>(
    m: &F,
    text: Seq<char>,
    font: usize,
    target: int,
    k: int,
)
    requires
        0 <= k <= text.len(),
    ensures
        k <= char_at_from(m, text, font, target, k) <= text.len(),
        forall|j: int|
            k <= j < char_at_from(m, text, font, target, k) ==> !before_midpoint(
                m,
                text,
                font,
                target,
                j,
            ),
        char_at_from(m, text, font, target, k) < text.len() ==> before_midpoint(
            m,
            text,
            font,
            target,
            char_at_from(m, text, font, target, k),
        ),
    decreases text.len() - k,
{
    if k < text.len() && !before_midpoint(m, text, font, target, k) {
        lemma_char_at_from(m, text, font, target, k + 1);
    }
}

/// Finds which code-point boundary of `text`, rendered with `font`,
/// corresponds to the pixel offset `target_x`.
///
/// The text is measured prefix by prefix; the first code point whose centre
/// lies beyond `target_x` ends the search at the boundary before it.
pub fn find_char_at_x<F: Fn(&str, usize) -> i32>(
    measure_text: &F,
    text: &str,
    font: usize,
    target_x: i64,
) -> (r: usize)
    requires
        is_text_measure(measure_text),
    ensures
        r == spec_find_char_at_x(measure_text, text@, font, target_x as int),
        r <= text@.len(),
{
    find_char_at_offset(measure_text, text, font, target_x as i128)
}

/// [`find_char_at_x`] for an offset that two coordinates were subtracted to
/// give.
fn find_char_at_offset<F: Fn(&str, usize) -> i32>(
    measure_text: &F,
    text: &str,
    font: usize,
    target_x: i128,
) -> (r: usize)
    requires
        is_text_measure(measure_text),
        i64::MIN - i64::MAX <= target_x <= i64::MAX - i64::MIN,
    ensures
        r == spec_find_char_at_x(measure_text, text@, font, target_x as int),
        r <= text@.len(),
{
    let n: usize = text.unicode_len();
    if n == 0 || target_x <= 0 {
        return 0;
    }
    proof {
        lemma_char_at_from(measure_text, text@, font, target_x as int, 0);
    }
    let mut prefix = String::new();
    let mut prev_width: i32 = 0;
    let mut count: usize = 0;
    for ch in it: text.chars()
        invariant
            is_text_measure(measure_text),
            i64::MIN - i64::MAX <= target_x <= i64::MAX - i64::MIN,
            it.seq() == text@,
            n == text@.len(),
            count == it.index(),
            prefix@ == text@.take(count as int),
            prev_width == prefix_width(measure_text, text@, font, count as int),
            spec_find_char_at_x(measure_text, text@, font, target_x as int) == char_at_from(
                measure_text,
                text@,
                font,
                target_x as int,
                count as int,
            ),
    {
        push_char(&mut prefix, ch);
        count += 1;
        assert(prefix@ =~= text@.take(count as int));
        let width = measure_width(measure_text, prefix.as_str(), font);
        if 2 * target_x < (prev_width as i128) + (width as i128) {
            return count - 1;
        }
        prev_width = width;
    }
    count
}

/// The text leaf a hit on `el` is resolved to: `el` itself when it is one,
/// else the closest one under it, else the first one under it.
pub open spec fn spec_resolve_text_leaf(doc: &Document, el: Element, x: int, y: int) -> Option<
    Element,
> {
    if doc.is_text_of(el) {
        Some(el)
    } else {
        match spec_closest_text_leaf(doc, el, x, y) {
            Some(leaf) => Some(leaf),
            None => spec_first_text_leaf(doc, el),
        }
    }
}

/// The endpoint for a pointer at `(x, y)` whose hit test gave `hit`.
///
/// No element, or no text leaf under it, gives no endpoint. A blank leaf
/// gives offset 0 without measuring. Otherwise the offset is found from the
/// pointer's distance to the left edge of the leaf's effective placement.
pub open spec fn spec_hit_test_char<F: Fn(&str, usize) -> i32>(
    doc: &Document,
    m: &F,
    hit: Option<Element>,
    x: i64,
    y: i64,
) -> Option<SelectionEndpoint> {
    match hit {
        None => None,
        Some(el) => match spec_resolve_text_leaf(doc, el, x as int, y as int) {
            None => None,
            Some(leaf) => Some(
                SelectionEndpoint {
                    element: leaf,
                    char_index: if is_blank(doc.text_of(leaf)) {
                        0
                    } else {
                        spec_find_char_at_x(
                            m,
                            doc.text_of(leaf),
                            spec_font_for_text(doc, leaf),
                            x - spec_placement_for_text(doc, leaf).x,
                        ) as usize
                    },
                    x,
                },
            ),
        },
    }
}

/// Character-level hit testing: finds which code point of which text leaf is
/// at `(x, y)`, given the element `hit` that the document's own hit test
/// found at that point.
pub fn hit_test_char<F: Fn(&str, usize) -> i32>(
    doc: &Document,
    measure_text: &F,
    hit: Option<Element>,
    x: i64,
    y: i64,
) -> (r: Option<SelectionEndpoint>)
    requires
        doc.wf(),
        is_text_measure(measure_text),
        hit is Some ==> doc.contains(hit.unwrap()),
    ensures
        r == spec_hit_test_char(doc, measure_text, hit, x, y),
        r is Some ==> doc.contains(r.unwrap().element) && r.unwrap().char_index <= doc.text_of(
            r.unwrap().element,
        ).len(),
{
    let el = match hit {
        Some(el) => el,
        None => {
            return None;
        },
    };
    let text_el = if doc.is_text(el) {
        el
    } else {
        match closest_text_leaf(doc, el, x, y) {
            Some(leaf) => leaf,
            None => match first_text_leaf(doc, el) {
                Some(leaf) => leaf,
                None => {
                    return None;
                },
            },
        }
    };
    let text = doc.get_text(text_el);
    if str_is_blank(text) {
        return Some(SelectionEndpoint { element: text_el, char_index: 0, x });
    }
    let font = font_for_text(doc, text_el);
    let placement = placement_for_text(doc, text_el);
    let local_x: i128 = x as i128 - placement.x as i128;
    let char_index = find_char_at_offset(measure_text, text, font, local_x);
    Some(SelectionEndpoint { element: text_el, char_index, x })
}

} // verus!

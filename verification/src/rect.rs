//! Highlight rectangles for ranges of code points within one text element.

use crate::document::{Document, Element};
use crate::geometry::Position;
use crate::hit::prefix_width;
use crate::layout::{
    font_for_text,
    placement_for_text,
    spec_font_for_text,
    spec_placement_for_text,
};
use crate::measure::{is_text_measure, measure_width, measured_width};
use crate::text::{is_blank, ordered_indices, spec_ordered_indices, str_is_blank};
use vstd::prelude::*;

verus! {

/// `a` or the length of `text`, whichever is less.
pub open spec fn clamp_index(text: Seq<char>, a: usize) -> int {
    if a <= text.len() {
        a as int
    } else {
        text.len() as int
    }
}

/// The highlight rectangle for the code points between offsets `from_char`
/// and `to_char` of `el`, given in either order and clamped to the text.
///
/// There is none for an empty range, for a blank text, or when the prefix
/// that ends at the upper offset measures no wider than the one that ends at
/// the lower. Otherwise the rectangle starts at the width of the lower
/// prefix right of the element's placement, is as wide as the difference of
/// the two widths, and takes its vertical position and height from the
/// placement.
pub open spec fn spec_text_rect<F: Fn(&str, usize) -> i32>(
    doc: &Document,
    m: &F,
    el: Element,
    from_char: usize,
    to_char: usize,
) -> Option<Position> {
    let (lo, hi) = spec_ordered_indices(from_char, to_char);
    let text = doc.text_of(el);
    let font = spec_font_for_text(doc, el);
    let placement = spec_placement_for_text(doc, el);
    let start_px = prefix_width(m, text, font, clamp_index(text, lo));
    let end_px = prefix_width(m, text, font, clamp_index(text, hi));
    if lo == hi || is_blank(text) || end_px <= start_px {
        None
    } else {
        Some(
            Position {
                x: (placement.x + start_px) as i64,
                y: placement.y,
                width: (end_px - start_px) as i64,
                height: placement.height,
            },
        )
    }
}

/// A sequence of no or one rectangle.
pub open spec fn rect_seq(r: Option<Position>) -> Seq<Position> {
    match r {
        Some(p) => seq![p],
        None => Seq::empty(),
    }
}

/// Whenever a rectangle is produced for offsets `a <= b` within the text, it
/// is as wide as the difference between the measured widths of the prefixes
/// of `b` and of `a` code points, and that width is positive. (The prefix of
/// no code points is not measured: its width is taken as 0.)
pub proof fn lemma_text_rect_width<F: Fn(&str, usize) -> i32>(
    doc: &Document,
    m: &F,
    el: Element,
    a: usize,
    b: usize,
)
    requires
        doc.wf(),
        doc.contains(el),
        a <= b <= doc.text_of(el).len(),
    ensures
        match spec_text_rect(doc, m, el, a, b) {
            Some(r) => {
                &&& r.width == prefix_width(m, doc.text_of(el), spec_font_for_text(doc, el), b as int)
                    - prefix_width(m, doc.text_of(el), spec_font_for_text(doc, el), a as int)
                &&& r.width > 0
                &&& r.x == spec_placement_for_text(doc, el).x + prefix_width(
                    m,
                    doc.text_of(el),
                    spec_font_for_text(doc, el),
                    a as int,
                )
                &&& r.y == spec_placement_for_text(doc, el).y
                &&& r.height == spec_placement_for_text(doc, el).height
            },
            None => true,
        },
{
    assert(doc.node_wf(el));
    match doc.parent_of(el) {
        Some(p) => {
            assert(doc.contains(p));
            assert(doc.node_wf(p));
        },
        None => {},
    }
}

/// For offsets `0 <= a <= b` within the text of `el`, a rectangle that is
/// produced is exactly as wide as the measured width of the first `b` code
/// points less that of the first `a`, and never negative. For `a == 0` this
/// holds of a measure that gives the empty text no width.
pub proof fn lemma_text_rect_measured_width<F: Fn(&str, usize) -> i32>(
    doc: &Document,
    m: &F,
    el: Element,
    a: usize,
    b: usize,
)
    requires
        doc.wf(),
        doc.contains(el),
        a <= b <= doc.text_of(el).len(),
        a == 0 ==> measured_width(m, Seq::<char>::empty(), spec_font_for_text(doc, el)) == 0,
    ensures
        match spec_text_rect(doc, m, el, a, b) {
            Some(r) => {
                &&& r.width == measured_width(
                    m,
                    doc.text_of(el).take(b as int),
                    spec_font_for_text(doc, el),
                ) - measured_width(m, doc.text_of(el).take(a as int), spec_font_for_text(doc, el))
                &&& r.width >= 0
            },
            None => true,
        },
{
    lemma_text_rect_width(doc, m, el, a, b);
    assert(doc.text_of(el).take(0) =~= Seq::<char>::empty());
}

/// The order in which the two offsets are given does not matter.
pub proof fn lemma_text_rect_symmetric<F: Fn(&str, usize) -> i32>(
    doc: &Document,
    m: &F,
    el: Element,
    a: usize,
    b: usize,
)
    ensures
        spec_text_rect(doc, m, el, a, b) == spec_text_rect(doc, m, el, b, a),
{
}

/// Computes the highlight rectangle for a range of code points within a
/// single text element and appends it to `out`, if there is one.
pub fn compute_text_rect<F: Fn(&str, usize) -> i32>(
    doc: &Document,
    el: Element,
    measure_text: &F,
    from_char: usize,
    to_char: usize,
    out: &mut Vec<Position>,
)
    requires
        doc.wf(),
        doc.contains(el),
        is_text_measure(measure_text),
    ensures
        final(out)@ == old(out)@ + rect_seq(
            spec_text_rect(doc, measure_text, el, from_char, to_char),
        ),
{
    assert(out@ =~= out@ + Seq::<Position>::empty());
    let (lo, hi) = ordered_indices(from_char, to_char);
    if lo == hi {
        return ;
    }
    let text = doc.get_text(el);
    if str_is_blank(text) {
        return ;
    }
    let len: usize = text.unicode_len();
    let font = font_for_text(doc, el);
    let placement = placement_for_text(doc, el);

    let lo: usize = if lo < len {
        lo
    } else {
        len
    };
    let hi: usize = if hi < len {
        hi
    } else {
        len
    };

    let start_px: i32 = if lo == 0 {
        0
    } else {
        let prefix = text.substring_char(0, lo);
        assert(prefix@ =~= text@.take(lo as int));
        measure_width(measure_text, prefix, font)
    };
    let end_px: i32 = {
        let prefix = text.substring_char(0, hi);
        assert(prefix@ =~= text@.take(hi as int));
        measure_width(measure_text, prefix, font)
    };
    assert(hi > 0);

    if end_px > start_px {
        let rect = Position {
            x: placement.x + start_px as i64,
            y: placement.y,
            width: end_px as i64 - start_px as i64,
            height: placement.height,
        };
        out.push(rect);
        assert(out@ =~= old(out)@ + seq![rect]);
    }
}

} // verus!

//! What the selection engine reads of a text leaf's layout: its effective
//! font and placement, and whether it holds anything but white space.

use crate::document::{Document, Element};
use crate::geometry::Position;
use crate::text::{is_blank, str_is_blank};
use vstd::prelude::*;

verus! {

/// The font a text element is drawn with: its own, or its parent's when its
/// own handle is 0; 0 when there is neither.
pub open spec fn spec_font_for_text(doc: &Document, e: Element) -> usize {
    if doc.font_of(e) != 0 {
        doc.font_of(e)
    } else {
        match doc.parent_of(e) {
            Some(p) => doc.font_of(p),
            None => 0,
        }
    }
}

/// The placement a text element is drawn at: its own, or its parent's when
/// its own has no positive width and it has a parent.
pub open spec fn spec_placement_for_text(doc: &Document, e: Element) -> Position {
    if doc.placement_of(e).width > 0 {
        doc.placement_of(e)
    } else {
        match doc.parent_of(e) {
            Some(p) => doc.placement_of(p),
            None => doc.placement_of(e),
        }
    }
}

/// Gets the font handle for a text element, falling back to its parent.
pub fn font_for_text(doc: &Document, text_el: Element) -> (f: usize)
    requires
        doc.wf(),
        doc.contains(text_el),
    ensures
        f == spec_font_for_text(doc, text_el),
{
    let f = doc.font(text_el);
    if f != 0 {
        return f;
    }
    assert(doc.node_wf(text_el));
    match doc.parent(text_el) {
        Some(p) => doc.font(p),
        None => 0,
    }
}

/// Gets the placement for a text element, falling back to the parent's
/// placement when the element's own has no positive width.
pub fn placement_for_text(doc: &Document, text_el: Element) -> (p: Position)
    requires
        doc.wf(),
        doc.contains(text_el),
    ensures
        p == spec_placement_for_text(doc, text_el),
        p.in_bounds(),
{
    assert(doc.node_wf(text_el));
    let p = doc.placement(text_el);
    if p.width > 0 {
        return p;
    }
    match doc.parent(text_el) {
        Some(parent) => {
            assert(doc.contains(parent));
            assert(doc.node_wf(parent));
            doc.placement(parent)
        },
        None => p,
    }
}

/// Whether the element's text is empty or holds white space only.
pub fn is_whitespace_only(doc: &Document, el: Element) -> (r: bool)
    requires
        doc.contains(el),
    ensures
        r == is_blank(doc.text_of(el)),
{
    str_is_blank(doc.get_text(el))
}

} // verus!

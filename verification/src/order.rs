//! Document order between two selection endpoints.
//!
//! The tree carries no index of its text leaves, so whether one element comes
//! before another is found by walking forward from the first until the second
//! is met. The answer for the most recent pair is kept in a one-entry cache.

use crate::document::{Document, Element};
use crate::walker::{lemma_next_text_leaf_forward, next_text_leaf, spec_next_text_leaf};
use vstd::prelude::*;

verus! {

/// One boundary of a selection: an element and a code-point offset into its
/// text, with the x-coordinate of the pointer that produced it.
#[derive(Clone, Copy, Debug, PartialEq, Eq, Structural)]
pub struct SelectionEndpoint {
    pub element: Element,
    pub char_index: usize,
    pub x: i64,
}

/// The remembered answer to "does `a` come before `b`?" for one pair of
/// elements. It speaks of that pair only, in that order.
#[derive(Clone, Copy, Debug, PartialEq, Eq, Structural)]
pub struct OrderCache {
    pub a: Element,
    pub b: Element,
    pub a_before_b: bool,
}

/// Walking forward from `from`, one text leaf at a time, meets `target`.
pub open spec fn walk_reaches(doc: &Document, from: Element, target: Element) -> bool
    decreases doc.len() - from.index,
    when doc.wf() && doc.contains(from)
{
    proof {
        lemma_next_text_leaf_forward(doc, from, target);
    }
    match spec_next_text_leaf(doc, from, target) {
        None => false,
        Some(n) => n == target || walk_reaches(doc, n, target),
    }
}

/// `a` comes before `b` in document order, as far as the bounded walk can
/// tell: `a` and `b` differ and the walk from `a` meets `b`.
pub open spec fn spec_is_before(doc: &Document, a: Element, b: Element) -> bool {
    a != b && walk_reaches(doc, a, b)
}

/// A walk only meets elements stored after its starting point.
pub proof fn lemma_walk_reaches_forward(doc: &Document, from: Element, target: Element)
    requires
        doc.wf(),
        doc.contains(from),
        walk_reaches(doc, from, target),
    ensures
        from.index < target.index,
        doc.contains(target),
    decreases doc.len() - from.index,
{
    lemma_next_text_leaf_forward(doc, from, target);
    let n = spec_next_text_leaf(doc, from, target).unwrap();
    if n != target {
        lemma_walk_reaches_forward(doc, n, target);
    }
}

/// No element comes before itself, and of two different elements at most one
/// comes before the other.
pub proof fn lemma_is_before_antisymmetric(doc: &Document, a: Element, b: Element)
    requires
        doc.wf(),
        doc.contains(a),
        doc.contains(b),
    ensures
        !spec_is_before(doc, a, a),
        !(spec_is_before(doc, a, b) && spec_is_before(doc, b, a)),
{
    if spec_is_before(doc, a, b) && spec_is_before(doc, b, a) {
        lemma_walk_reaches_forward(doc, a, b);
        lemma_walk_reaches_forward(doc, b, a);
    }
}

/// Determines whether `a` comes before `b` in document order by walking
/// forward from `a` until `b` is met or the walk ends.
pub fn is_before(doc: &Document, a: Element, b: Element) -> (r: bool)
    requires
        doc.wf(),
        doc.contains(a),
    ensures
        r == spec_is_before(doc, a, b),
{
    if a == b {
        return false;
    }
    let mut cursor: Option<Element> = next_text_leaf(doc, a, b);
    let ghost mut at: Element = a;
    loop
        invariant
            doc.wf(),
            doc.contains(at),
            a != b,
            cursor == spec_next_text_leaf(doc, at, b),
            cursor is Some ==> doc.contains(cursor.unwrap()) && at.index < cursor.unwrap().index,
            spec_is_before(doc, a, b) == walk_reaches(doc, at, b),
        decreases doc.len() - at.index,
    {
        match cursor {
            None => {
                return false;
            },
            Some(el) => {
                if el == b {
                    return true;
                }
                proof {
                    at = el;
                }
                cursor = next_text_leaf(doc, el, b);
            },
        }
    }
}

/// The cache, if it holds an entry, holds the true answer for its pair.
pub open spec fn cache_valid(doc: &Document, cache: Option<OrderCache>) -> bool {
    match cache {
        Some(c) => c.a_before_b == spec_is_before(doc, c.a, c.b),
        None => true,
    }
}

/// Whether `a` is taken to come before `b`: the cached answer when the cache
/// speaks of exactly this pair, the walk's answer otherwise.
pub open spec fn spec_a_before_b(
    doc: &Document,
    a: Element,
    b: Element,
    cache: Option<OrderCache>,
) -> bool {
    match cache {
        Some(c) => if c.a == a && c.b == b {
            c.a_before_b
        } else {
            spec_is_before(doc, a, b)
        },
        None => spec_is_before(doc, a, b),
    }
}

/// The two endpoints in document order. Within one element the smaller
/// offset comes first; between two elements the order resolver decides.
pub open spec fn spec_normalize_endpoints(
    doc: &Document,
    a: SelectionEndpoint,
    b: SelectionEndpoint,
    cache: Option<OrderCache>,
) -> (SelectionEndpoint, SelectionEndpoint) {
    if a.element == b.element {
        if a.char_index <= b.char_index {
            (a, b)
        } else {
            (b, a)
        }
    } else if spec_a_before_b(doc, a.element, b.element, cache) {
        (a, b)
    } else {
        (b, a)
    }
}

/// `first` lies at or before `second` in document order.
pub open spec fn precedes_or_equals(
    doc: &Document,
    first: SelectionEndpoint,
    second: SelectionEndpoint,
) -> bool {
    if first.element == second.element {
        first.char_index <= second.char_index
    } else {
        spec_is_before(doc, first.element, second.element)
    }
}

/// Puts two endpoints into document order, using the cached comparison when
/// it speaks of this pair of elements.
pub fn normalize_endpoints(
    doc: &Document,
    a: SelectionEndpoint,
    b: SelectionEndpoint,
    cache: &Option<OrderCache>,
) -> (r: (SelectionEndpoint, SelectionEndpoint))
    requires
        doc.wf(),
        doc.contains(a.element),
    ensures
        r == spec_normalize_endpoints(doc, a, b, *cache),
{
    if a.element == b.element {
        if a.char_index <= b.char_index {
            (a, b)
        } else {
            (b, a)
        }
    } else {
        let a_before_b = match cache {
            Some(c) => if c.a == a.element && c.b == b.element {
                c.a_before_b
            } else {
                is_before(doc, a.element, b.element)
            },
            None => is_before(doc, a.element, b.element),
        };
        if a_before_b {
            (a, b)
        } else {
            (b, a)
        }
    }
}

/// Normalizing returns the two endpoints given, in one order or the other.
/// When the cache is valid and the walk can relate the two elements, the
/// first endpoint returned lies at or before the second in document order:
/// the walk leads from the first to the second, and the first is stored no
/// later in the document.
pub proof fn lemma_normalize_endpoints_ordered(
    doc: &Document,
    a: SelectionEndpoint,
    b: SelectionEndpoint,
    cache: Option<OrderCache>,
)
    requires
        doc.wf(),
        doc.contains(a.element),
        doc.contains(b.element),
        cache_valid(doc, cache),
        a.element == b.element || spec_is_before(doc, a.element, b.element) || spec_is_before(
            doc,
            b.element,
            a.element,
        ),
    ensures
        ({
            let (first, second) = spec_normalize_endpoints(doc, a, b, cache);
            &&& (first == a && second == b) || (first == b && second == a)
            &&& precedes_or_equals(doc, first, second)
            &&& first.element.index <= second.element.index
        }),
{
    lemma_is_before_antisymmetric(doc, a.element, b.element);
    if spec_is_before(doc, a.element, b.element) {
        lemma_walk_reaches_forward(doc, a.element, b.element);
    }
    if spec_is_before(doc, b.element, a.element) {
        lemma_walk_reaches_forward(doc, b.element, a.element);
    }
}

} // verus!

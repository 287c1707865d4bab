//! When the walk finds the true document order.
//!
//! Nodes are stored in document order, so the index of a node is its place
//! in that order. The walk from one text leaf to the next knows nothing of
//! indices; this module shows that it nevertheless visits the text leaves in
//! the order of their indices, and misses none, as long as the tree has one
//! root, is no deeper than the walk climbs, and keeps its text in leaves.

use crate::document::{Document, Element};
use crate::order::{
    cache_valid,
    lemma_walk_reaches_forward,
    precedes_or_equals,
    spec_is_before,
    spec_normalize_endpoints,
    walk_reaches,
    OrderCache,
    SelectionEndpoint,
};
use crate::walker::{
    climb,
    index_from,
    lemma_index_from,
    scan_siblings,
    spec_first_leaf_among,
    spec_first_text_leaf,
    spec_next_text_leaf,
    MAX_TREE_DEPTH,
};
use vstd::prelude::*;

verus! {

/// The element stored at index `i`.
pub open spec fn at(i: int) -> Element {
    Element { index: i as usize }
}

/// The first text node stored at an index from `lo` up to, but not
/// including, `hi`.
pub open spec fn first_text_in(doc: &Document, lo: int, hi: int) -> Option<Element>
    decreases hi - lo,
{
    if lo < 0 || lo >= hi {
        None
    } else if doc.is_text_of(at(lo)) {
        Some(at(lo))
    } else {
        first_text_in(doc, lo + 1, hi)
    }
}

/// What [`first_text_in`] finds is a text node of the range with no text
/// node of the range before it; it finds none only if the range holds none.
pub proof fn lemma_first_text_in(doc: &Document, lo: int, hi: int)
    requires
        0 <= lo,
        hi <= usize::MAX,
    ensures
        match first_text_in(doc, lo, hi) {
            Some(t) => lo <= t.index < hi && doc.is_text_of(t) && forall|j: int|
                lo <= j < t.index ==> !doc.is_text_of(#[trigger] at(j)),
            None => forall|j: int| lo <= j < hi ==> !doc.is_text_of(#[trigger] at(j)),
        },
    decreases hi - lo,
{
    if lo < hi && !doc.is_text_of(at(lo)) {
        lemma_first_text_in(doc, lo + 1, hi);
    }
}

/// Searching a range is searching its first part and then, if that holds no
/// text node, the rest.
pub proof fn lemma_first_text_in_split(doc: &Document, lo: int, mid: int, hi: int)
    requires
        0 <= lo <= mid <= hi,
    ensures
        first_text_in(doc, lo, hi) == match first_text_in(doc, lo, mid) {
            Some(t) => Some(t),
            None => first_text_in(doc, mid, hi),
        },
    decreases mid - lo,
{
    if lo < mid && !doc.is_text_of(at(lo)) {
        lemma_first_text_in_split(doc, lo + 1, mid, hi);
    }
}

/// Where the search among the children of `e` from the `k`-th on starts:
/// at that child, or at the end of the subtree of `e` when there is no such
/// child.
pub open spec fn start_of_child(doc: &Document, e: Element, k: int) -> int {
    if k < doc.children_of(e).len() {
        doc.children_of(e)[k].index as int
    } else {
        doc.extent_of(e)
    }
}

/// The subtree of the `k`-th child of `e` ends where the search among the
/// later children starts.
pub proof fn lemma_child_ends_at_next(doc: &Document, e: Element, k: int)
    requires
        doc.wf(),
        doc.contains(e),
        0 <= k < doc.children_of(e).len(),
    ensures
        doc.extent_of(doc.children_of(e)[k]) == start_of_child(doc, e, k + 1),
        doc.contains(doc.children_of(e)[k]),
        e.index < doc.children_of(e)[k].index < doc.extent_of(doc.children_of(e)[k])
            <= doc.extent_of(e) <= doc.len(),
{
    assert(doc.node_wf(e));
    assert(doc.child_wf(e, k));
    assert(doc.node_wf(doc.children_of(e)[k]));
    if k + 1 < doc.children_of(e).len() {
        assert(doc.adjacent_wf(e, k));
    }
}

/// Descent finds the first text node of a subtree.
pub proof fn lemma_first_text_leaf_is_first(doc: &Document, e: Element)
    requires
        doc.wf(),
        doc.contains(e),
    ensures
        spec_first_text_leaf(doc, e) == first_text_in(doc, e.index as int, doc.extent_of(e)),
    decreases doc.len() - e.index, doc.children_of(e).len() + 1,
{
    assert(doc.node_wf(e));
    assert(at(e.index as int) == e);
    if !doc.is_text_of(e) {
        lemma_first_leaf_among_is_first(doc, e, 0);
    }
}

/// Descent into the children of `e` from the `k`-th on finds the first text
/// node stored from that child to the end of the subtree of `e`.
pub proof fn lemma_first_leaf_among_is_first(doc: &Document, e: Element, k: int)
    requires
        doc.wf(),
        doc.contains(e),
        0 <= k <= doc.children_of(e).len(),
    ensures
        spec_first_leaf_among(doc, e, k) == first_text_in(
            doc,
            start_of_child(doc, e, k),
            doc.extent_of(e),
        ),
    decreases doc.len() - e.index, doc.children_of(e).len() - k,
{
    assert(doc.node_wf(e));
    if k < doc.children_of(e).len() {
        let c = doc.children_of(e)[k];
        lemma_child_ends_at_next(doc, e, k);
        lemma_first_text_leaf_is_first(doc, c);
        lemma_first_leaf_among_is_first(doc, e, k + 1);
        lemma_first_text_in_split(doc, c.index as int, doc.extent_of(c), doc.extent_of(e));
    }
}

/// With a text node to stop at, a scan of siblings finds the first text
/// node stored from the sibling it starts with to the end of the parent's
/// subtree.
pub proof fn lemma_scan_siblings_is_first(doc: &Document, p: Element, k: int, stop: Element)
    requires
        doc.wf(),
        doc.contains(p),
        0 <= k <= doc.children_of(p).len(),
        doc.is_text_of(stop),
    ensures
        scan_siblings(doc, p, k, stop) == first_text_in(
            doc,
            start_of_child(doc, p, k),
            doc.extent_of(p),
        ),
    decreases doc.children_of(p).len() - k,
{
    assert(doc.node_wf(p));
    if k < doc.children_of(p).len() {
        let s = doc.children_of(p)[k];
        lemma_child_ends_at_next(doc, p, k);
        assert(at(s.index as int) == s);
        if s != stop {
            lemma_first_text_leaf_is_first(doc, s);
            lemma_scan_siblings_is_first(doc, p, k + 1, stop);
            lemma_first_text_in_split(doc, s.index as int, doc.extent_of(s), doc.extent_of(p));
        }
    }
}

/// The ancestor of `e` that a climb of `levels` levels ends at: the
/// `levels`-th ancestor, or the root when `e` has fewer.
pub open spec fn top_of(doc: &Document, e: Element, levels: nat) -> Element
    decreases levels,
{
    if levels == 0 {
        e
    } else {
        match doc.parent_of(e) {
            None => e,
            Some(p) => top_of(doc, p, (levels - 1) as nat),
        }
    }
}

/// The subtree of a node lies within the subtree of each of its ancestors.
pub proof fn lemma_top_encloses(doc: &Document, e: Element, levels: nat)
    requires
        doc.wf(),
        doc.contains(e),
    ensures
        doc.contains(top_of(doc, e, levels)),
        top_of(doc, e, levels).index <= e.index,
        doc.extent_of(e) <= doc.extent_of(top_of(doc, e, levels)),
    decreases levels,
{
    assert(doc.node_wf(e));
    if levels > 0 {
        match doc.parent_of(e) {
            None => {},
            Some(p) => {
                assert(doc.contains(p));
                assert(doc.node_wf(p));
                lemma_index_from(doc.children_of(p), e, 0);
                let k = index_from(doc.children_of(p), e, 0).unwrap();
                assert(doc.child_wf(p, k));
                lemma_top_encloses(doc, p, (levels - 1) as nat);
            },
        }
    }
}

/// With a text node to stop at, a climb finds the first text node stored
/// after the subtree it starts from, within the subtree of the ancestor it
/// ends at.
pub proof fn lemma_climb_is_first(doc: &Document, current: Element, stop: Element, levels: nat)
    requires
        doc.wf(),
        doc.contains(current),
        doc.is_text_of(stop),
    ensures
        climb(doc, current, stop, levels) == first_text_in(
            doc,
            doc.extent_of(current),
            doc.extent_of(top_of(doc, current, levels)),
        ),
    decreases levels,
{
    assert(doc.node_wf(current));
    if levels > 0 {
        match doc.parent_of(current) {
            None => {},
            Some(p) => {
                assert(doc.contains(p));
                assert(doc.node_wf(p));
                let kids = doc.children_of(p);
                lemma_index_from(kids, current, 0);
                let idx = index_from(kids, current, 0).unwrap();
                lemma_child_ends_at_next(doc, p, idx);
                lemma_scan_siblings_is_first(doc, p, idx + 1, stop);
                lemma_climb_is_first(doc, p, stop, (levels - 1) as nat);
                lemma_top_encloses(doc, p, (levels - 1) as nat);
                lemma_first_text_in_split(
                    doc,
                    doc.extent_of(current),
                    doc.extent_of(p),
                    doc.extent_of(top_of(doc, p, (levels - 1) as nat)),
                );
            },
        }
    }
}

/// How many ancestors a node has.
pub open spec fn depth_of(doc: &Document, e: Element) -> nat
    decreases e.index,
{
    match doc.parent_of(e) {
        Some(p) => if p.index < e.index {
            depth_of(doc, p) + 1
        } else {
            0
        },
        None => 0,
    }
}

/// The document has one root: every node but the first has a parent.
pub open spec fn single_rooted(doc: &Document) -> bool {
    forall|e: Element| #[trigger] doc.contains(e) && e.index > 0 ==> doc.parent_of(e) is Some
}

/// No node has more ancestors than the walk climbs levels.
pub open spec fn within_depth(doc: &Document) -> bool {
    forall|e: Element| #[trigger] doc.contains(e) ==> depth_of(doc, e) <= MAX_TREE_DEPTH
}

/// Text nodes are leaves: they have no children.
pub open spec fn text_in_leaves(doc: &Document) -> bool {
    forall|e: Element| #[trigger]
        doc.contains(e) && doc.is_text_of(e) ==> doc.children_of(e).len() == 0
}

/// The walk finds the document order of every pair of text leaves: the
/// document has one root, is no deeper than the walk climbs, and keeps its
/// text in leaves.
pub open spec fn walkable(doc: &Document) -> bool {
    single_rooted(doc) && within_depth(doc) && text_in_leaves(doc)
}

/// Whether the document is [`walkable`].
pub fn is_walkable(doc: &Document) -> (r: bool)
    requires
        doc.wf(),
    ensures
        r == walkable(doc),
{
    let n: usize = doc.node_count();
    let mut depths: Vec<usize> = Vec::new();
    let mut i: usize = 0;
    while i < n
        invariant
            doc.wf(),
            n == doc.len(),
            i <= n,
            depths.len() == i,
            forall|j: int|
                0 <= j < i ==> depths@[j] == depth_of(doc, #[trigger] at(j)) && depths@[j]
                    <= MAX_TREE_DEPTH,
            forall|j: int| 0 < j < i ==> doc.parent_of(#[trigger] at(j)) is Some,
            forall|j: int|
                0 <= j < i && doc.is_text_of(#[trigger] at(j)) ==> doc.children_of(at(j)).len()
                    == 0,
        decreases n - i,
    {
        let e = Element { index: i };
        assert(e == at(i as int));
        assert(doc.contains(e));
        assert(doc.node_wf(e));
        let depth: usize = match doc.parent(e) {
            Some(p) => {
                assert(at(p.index as int) == p);
                depths[p.index] + 1
            },
            None => {
                if i > 0 {
                    return false;
                }
                0
            },
        };
        if depth > MAX_TREE_DEPTH {
            return false;
        }
        if doc.is_text(e) && doc.children_count(e) > 0 {
            return false;
        }
        depths.push(depth);
        i += 1;
    }
    assert forall|e: Element| #[trigger] doc.contains(e) implies (e.index > 0 ==> doc.parent_of(
        e,
    ) is Some) && depth_of(doc, e) <= MAX_TREE_DEPTH && (doc.is_text_of(e) ==> doc.children_of(
        e,
    ).len() == 0) by {
        assert(e == at(e.index as int));
    }
    true
}

/// A climb of as many levels as a node has ancestors ends at a root.
pub proof fn lemma_top_is_root(doc: &Document, e: Element, levels: nat)
    requires
        doc.wf(),
        doc.contains(e),
        depth_of(doc, e) <= levels,
    ensures
        doc.parent_of(top_of(doc, e, levels)) is None,
    decreases levels,
{
    assert(doc.node_wf(e));
    if levels > 0 {
        match doc.parent_of(e) {
            None => {},
            Some(p) => {
                lemma_top_is_root(doc, p, (levels - 1) as nat);
            },
        }
    }
}

/// The subtree of a node that lies within the subtree of another ends
/// within it.
pub proof fn lemma_subtrees_nest(doc: &Document, outer: Element, inner: Element)
    requires
        doc.wf(),
        doc.contains(outer),
        outer.index <= inner.index < doc.extent_of(outer),
    ensures
        doc.extent_of(inner) <= doc.extent_of(outer),
    decreases inner.index,
{
    assert(doc.node_wf(outer));
    if outer.index < inner.index {
        assert(doc.contains(inner));
        assert(doc.node_wf(inner));
        assert(doc.enclosed(outer, inner));
        let q = doc.parent_of(inner).unwrap();
        assert(doc.contains(q));
        assert(doc.node_wf(q));
        lemma_index_from(doc.children_of(q), inner, 0);
        let k = index_from(doc.children_of(q), inner, 0).unwrap();
        assert(doc.child_wf(q, k));
        lemma_subtrees_nest(doc, outer, q);
    } else {
        assert(outer == inner);
    }
}

/// In a document with one root, the subtree of the first node is the whole
/// document.
pub proof fn lemma_root_spans_document(doc: &Document)
    requires
        doc.wf(),
        single_rooted(doc),
        doc.len() > 0,
    ensures
        doc.extent_of(at(0)) == doc.len(),
{
    doc.lemma_len_fits();
    let root = at(0);
    assert(doc.contains(root));
    assert(doc.node_wf(root));
    let end = doc.extent_of(root);
    if end < doc.len() {
        let j = at(end);
        assert(doc.contains(j));
        assert(doc.node_wf(j));
        let q = doc.parent_of(j).unwrap();
        assert(doc.contains(q));
        assert(doc.node_wf(q));
        lemma_index_from(doc.children_of(q), j, 0);
        let k = index_from(doc.children_of(q), j, 0).unwrap();
        assert(doc.child_wf(q, k));
        lemma_subtrees_nest(doc, root, q);
    }
}

/// In a document with one root that is no deeper than the walk climbs, the
/// step from a node, with a text node to stop at, leads to the first text
/// node stored after the subtree of that node.
pub proof fn lemma_next_text_leaf_is_first(doc: &Document, from: Element, stop: Element)
    requires
        doc.wf(),
        single_rooted(doc),
        within_depth(doc),
        doc.contains(from),
        doc.is_text_of(stop),
    ensures
        spec_next_text_leaf(doc, from, stop) == first_text_in(
            doc,
            doc.extent_of(from),
            doc.len() as int,
        ),
{
    let levels = MAX_TREE_DEPTH as nat;
    lemma_climb_is_first(doc, from, stop, levels);
    lemma_top_is_root(doc, from, levels);
    lemma_top_encloses(doc, from, levels);
    let top = top_of(doc, from, levels);
    assert(top.index == 0);
    assert(top == at(0));
    lemma_root_spans_document(doc);
}

/// In such a document, whose text nodes are leaves, the walk from a text
/// leaf meets every text leaf stored after it.
pub proof fn lemma_walk_reaches_later_text(doc: &Document, a: Element, b: Element)
    requires
        doc.wf(),
        single_rooted(doc),
        within_depth(doc),
        text_in_leaves(doc),
        doc.contains(a),
        doc.contains(b),
        doc.is_text_of(a),
        doc.is_text_of(b),
        a.index < b.index,
    ensures
        walk_reaches(doc, a, b),
    decreases b.index - a.index,
{
    assert(doc.node_wf(a));
    assert(doc.subtree_wf(a));
    doc.lemma_len_fits();
    lemma_next_text_leaf_is_first(doc, a, b);
    lemma_first_text_in(doc, a.index + 1, doc.len() as int);
    assert(at(b.index as int) == b);
    let next = first_text_in(doc, a.index + 1, doc.len() as int).unwrap();
    if next != b {
        assert(at(next.index as int) == next);
        lemma_walk_reaches_later_text(doc, next, b);
    }
}

/// In a walkable document one text leaf comes before another by the walk
/// exactly when it is stored before it.
pub proof fn lemma_is_before_is_document_order(doc: &Document, a: Element, b: Element)
    requires
        doc.wf(),
        walkable(doc),
        doc.contains(a),
        doc.contains(b),
        doc.is_text_of(a),
        doc.is_text_of(b),
    ensures
        spec_is_before(doc, a, b) <==> a.index < b.index,
{
    if spec_is_before(doc, a, b) {
        lemma_walk_reaches_forward(doc, a, b);
    }
    if a.index < b.index {
        lemma_walk_reaches_later_text(doc, a, b);
    }
}

/// In a walkable document two endpoints in text leaves are always put into
/// document order, given a valid cache: the first returned is stored before
/// the second, or lies in the same leaf at no later offset.
pub proof fn lemma_normalize_is_document_order(
    doc: &Document,
    a: SelectionEndpoint,
    b: SelectionEndpoint,
    cache: Option<OrderCache>,
)
    requires
        doc.wf(),
        walkable(doc),
        doc.contains(a.element),
        doc.contains(b.element),
        doc.is_text_of(a.element),
        doc.is_text_of(b.element),
        cache_valid(doc, cache),
    ensures
        ({
            let (first, second) = spec_normalize_endpoints(doc, a, b, cache);
            &&& (first == a && second == b) || (first == b && second == a)
            &&& precedes_or_equals(doc, first, second)
            &&& first.element.index < second.element.index || (first.element == second.element
                && first.char_index <= second.char_index)
        }),
{
    lemma_is_before_is_document_order(doc, a.element, b.element);
    lemma_is_before_is_document_order(doc, b.element, a.element);
}

} // verus!

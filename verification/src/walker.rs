//! Depth-bounded traversal of the document tree: descent to the first text
//! leaf of a subtree and the step to the next text leaf in document order.

use crate::document::{Document, Element};
use vstd::prelude::*;

verus! {

/// How many ancestor levels [`next_text_leaf`] climbs before it gives up.
pub const MAX_TREE_DEPTH: usize = 256;

/// The first text leaf of the subtree of `e`: `e` itself when it is a text
/// leaf, otherwise the first one found in its children, taken in order.
pub open spec fn spec_first_text_leaf(doc: &Document, e: Element) -> Option<Element>
    decreases doc.len() - e.index, doc.children_of(e).len() + 1,
    when doc.wf() && doc.contains(e)
{
    if doc.is_text_of(e) {
        Some(e)
    } else {
        spec_first_leaf_among(doc, e, 0)
    }
}

/// The first text leaf found in the children of `e` from the `k`-th on.
pub open spec fn spec_first_leaf_among(doc: &Document, e: Element, k: int) -> Option<Element>
    decreases doc.len() - e.index, doc.children_of(e).len() - k,
    when doc.wf() && doc.contains(e) && 0 <= k
{
    if k >= doc.children_of(e).len() {
        None
    } else {
        proof {
            assert(doc.node_wf(e));
            assert(doc.child_wf(e, k));
        }
        match spec_first_text_leaf(doc, doc.children_of(e)[k]) {
            Some(leaf) => Some(leaf),
            None => spec_first_leaf_among(doc, e, k + 1),
        }
    }
}

/// A text leaf found by descent lies in the subtree it was looked for in.
pub proof fn lemma_first_text_leaf_within(doc: &Document, e: Element)
    requires
        doc.wf(),
        doc.contains(e),
    ensures
        match spec_first_text_leaf(doc, e) {
            Some(leaf) => doc.contains(leaf) && doc.is_text_of(leaf) && e.index <= leaf.index
                < doc.extent_of(e),
            None => true,
        },
    decreases doc.len() - e.index, doc.children_of(e).len() + 1,
{
    assert(doc.node_wf(e));
    if !doc.is_text_of(e) {
        lemma_first_leaf_among_within(doc, e, 0);
    }
}

/// A text leaf found among the children of `e` lies in the subtree of the
/// child it was found under.
pub proof fn lemma_first_leaf_among_within(doc: &Document, e: Element, k: int)
    requires
        doc.wf(),
        doc.contains(e),
        0 <= k,
    ensures
        match spec_first_leaf_among(doc, e, k) {
            Some(leaf) => doc.contains(leaf) && doc.is_text_of(leaf) && e.index < leaf.index
                < doc.extent_of(e) && k < doc.children_of(e).len() && doc.children_of(e)[k].index
                <= leaf.index,
            None => true,
        },
    decreases doc.len() - e.index, doc.children_of(e).len() - k,
{
    if k < doc.children_of(e).len() {
        assert(doc.node_wf(e));
        assert(doc.child_wf(e, k));
        let c = doc.children_of(e)[k];
        lemma_first_text_leaf_within(doc, c);
        if spec_first_text_leaf(doc, c) is None {
            lemma_first_leaf_among_within(doc, e, k + 1);
            if k + 1 < doc.children_of(e).len() {
                assert(doc.siblings_wf(e, k, k + 1));
                assert(doc.child_wf(e, k + 1));
            }
        }
    }
}

/// Descends to the first text leaf of the subtree of `el`.
pub fn first_text_leaf(doc: &Document, el: Element) -> (r: Option<Element>)
    requires
        doc.wf(),
        doc.contains(el),
    ensures
        r == spec_first_text_leaf(doc, el),
        r is Some ==> doc.contains(r.unwrap()) && doc.is_text_of(r.unwrap()),
    decreases doc.len() - el.index,
{
    proof {
        lemma_first_text_leaf_within(doc, el);
        assert(doc.node_wf(el));
    }
    if doc.is_text(el) {
        return Some(el);
    }
    let count: usize = doc.children_count(el);
    let mut i: usize = 0;
    while i < count
        invariant
            doc.wf(),
            doc.contains(el),
            doc.node_wf(el),
            !doc.is_text_of(el),
            count == doc.children_of(el).len(),
            i <= count,
            spec_first_text_leaf(doc, el) == spec_first_leaf_among(doc, el, i as int),
        decreases count - i,
    {
        match doc.child_at(el, i) {
            Some(child) => {
                assert(doc.child_wf(el, i as int));
                match first_text_leaf(doc, child) {
                    Some(leaf) => {
                        return Some(leaf);
                    },
                    None => {},
                }
            },
            None => {},
        }
        i += 1;
    }
    None
}

/// The index of the first occurrence of `e` in `s` at or after `k`.
pub open spec fn index_from(s: Seq<Element>, e: Element, k: int) -> Option<int>
    decreases s.len() - k,
{
    if k < 0 || k >= s.len() {
        None
    } else if s[k] == e {
        Some(k)
    } else {
        index_from(s, e, k + 1)
    }
}

/// Scans the children of `p` from the `k`-th on: a child equal to `stop` is
/// returned at once; otherwise the first text leaf found under a child is.
pub open spec fn scan_siblings(doc: &Document, p: Element, k: int, stop: Element) -> Option<
    Element,
>
    decreases doc.children_of(p).len() - k,
{
    if k < 0 || k >= doc.children_of(p).len() {
        None
    } else if doc.children_of(p)[k] == stop {
        Some(stop)
    } else {
        match spec_first_text_leaf(doc, doc.children_of(p)[k]) {
            Some(leaf) => Some(leaf),
            None => scan_siblings(doc, p, k + 1, stop),
        }
    }
}

/// Climbs from `current` for at most `levels` ancestor levels. At each level
/// the later siblings of `current` are scanned; when they yield nothing the
/// climb goes on from the parent.
pub open spec fn climb(doc: &Document, current: Element, stop: Element, levels: nat) -> Option<
    Element,
>
    decreases levels,
{
    if levels == 0 {
        None
    } else {
        match doc.parent_of(current) {
            None => None,
            Some(p) => {
                let found = match index_from(doc.children_of(p), current, 0) {
                    Some(idx) => scan_siblings(doc, p, idx + 1, stop),
                    None => None,
                };
                match found {
                    Some(leaf) => Some(leaf),
                    None => climb(doc, p, stop, (levels - 1) as nat),
                }
            },
        }
    }
}

/// The next text leaf after `from` in document order, as far as
/// [`MAX_TREE_DEPTH`] ancestor levels reach; a later sibling equal to `stop`
/// is returned even when it is no text leaf.
pub open spec fn spec_next_text_leaf(doc: &Document, from: Element, stop: Element) -> Option<
    Element,
> {
    climb(doc, from, stop, MAX_TREE_DEPTH as nat)
}

/// `index_from` finds the first occurrence, if there is one.
pub proof fn lemma_index_from(s: Seq<Element>, e: Element, k: int)
    requires
        0 <= k,
    ensures
        match index_from(s, e, k) {
            Some(i) => k <= i < s.len() && s[i] == e && forall|j: int| k <= j < i ==> s[j] != e,
            None => forall|j: int| k <= j < s.len() ==> s[j] != e,
        },
    decreases s.len() - k,
{
    if k < s.len() && s[k] != e {
        lemma_index_from(s, e, k + 1);
    }
}

/// What a scan of siblings returns is a node of the document at or after the
/// sibling the scan started with.
pub proof fn lemma_scan_siblings_forward(doc: &Document, p: Element, k: int, stop: Element)
    requires
        doc.wf(),
        doc.contains(p),
        0 <= k,
    ensures
        match scan_siblings(doc, p, k, stop) {
            Some(leaf) => k < doc.children_of(p).len() && doc.contains(leaf) && doc.children_of(
                p,
            )[k].index <= leaf.index && (leaf == stop || doc.is_text_of(leaf)),
            None => true,
        },
    decreases doc.children_of(p).len() - k,
{
    if k < doc.children_of(p).len() {
        assert(doc.node_wf(p));
        assert(doc.child_wf(p, k));
        let c = doc.children_of(p)[k];
        if c != stop {
            lemma_first_text_leaf_within(doc, c);
            if spec_first_text_leaf(doc, c) is None {
                lemma_scan_siblings_forward(doc, p, k + 1, stop);
                if k + 1 < doc.children_of(p).len() {
                    assert(doc.siblings_wf(p, k, k + 1));
                    assert(doc.child_wf(p, k + 1));
                }
            }
        }
    }
}

/// Climbing from a node whose subtree holds `from` only ever yields a node
/// that lies after `from` in the document.
pub proof fn lemma_climb_forward(
    doc: &Document,
    from: Element,
    current: Element,
    stop: Element,
    levels: nat,
)
    requires
        doc.wf(),
        doc.contains(current),
        current.index <= from.index < doc.extent_of(current),
    ensures
        match climb(doc, current, stop, levels) {
            Some(leaf) => doc.contains(leaf) && from.index < leaf.index && (leaf == stop
                || doc.is_text_of(leaf)),
            None => true,
        },
    decreases levels,
{
    if levels > 0 {
        assert(doc.node_wf(current));
        match doc.parent_of(current) {
            None => {},
            Some(p) => {
                assert(doc.contains(p));
                assert(doc.node_wf(p));
                let kids = doc.children_of(p);
                lemma_index_from(kids, current, 0);
                let idx = index_from(kids, current, 0).unwrap();
                assert(doc.child_wf(p, idx));
                lemma_scan_siblings_forward(doc, p, idx + 1, stop);
                if idx + 1 < kids.len() {
                    assert(doc.siblings_wf(p, idx, idx + 1));
                }
                if scan_siblings(doc, p, idx + 1, stop) is None {
                    lemma_climb_forward(doc, from, p, stop, (levels - 1) as nat);
                }
            },
        }
    }
}

/// The step to the next text leaf always moves forward in the document.
pub proof fn lemma_next_text_leaf_forward(doc: &Document, from: Element, stop: Element)
    requires
        doc.wf(),
        doc.contains(from),
    ensures
        match spec_next_text_leaf(doc, from, stop) {
            Some(leaf) => doc.contains(leaf) && from.index < leaf.index && (leaf == stop
                || doc.is_text_of(leaf)),
            None => true,
        },
{
    assert(doc.node_wf(from));
    lemma_climb_forward(doc, from, from, stop, MAX_TREE_DEPTH as nat);
}

/// Finds the next text leaf after `el` in document order.
///
/// Walks up to the parent, scans the later siblings and descends into the
/// first one that holds a text leaf; a sibling equal to `stop` is returned at
/// once. Gives up, with `None`, after [`MAX_TREE_DEPTH`] ancestor levels.
pub fn next_text_leaf(doc: &Document, el: Element, stop: Element) -> (r: Option<Element>)
    requires
        doc.wf(),
        doc.contains(el),
    ensures
        r == spec_next_text_leaf(doc, el, stop),
        r is Some ==> doc.contains(r.unwrap()) && el.index < r.unwrap().index,
{
    proof {
        lemma_next_text_leaf_forward(doc, el, stop);
    }
    let mut current: Element = el;
    let mut level: usize = 0;
    while level < MAX_TREE_DEPTH
        invariant
            doc.wf(),
            doc.contains(current),
            level <= MAX_TREE_DEPTH,
            match spec_next_text_leaf(doc, el, stop) {
                Some(leaf) => doc.contains(leaf) && el.index < leaf.index,
                None => true,
            },
            spec_next_text_leaf(doc, el, stop) == climb(
                doc,
                current,
                stop,
                (MAX_TREE_DEPTH - level) as nat,
            ),
        decreases MAX_TREE_DEPTH - level,
    {
        assert(doc.node_wf(current));
        let parent = match doc.parent(current) {
            Some(p) => p,
            None => {
                return None;
            },
        };
        assert(doc.contains(parent));
        assert(doc.node_wf(parent));
        let sibling_count: usize = doc.children_count(parent);
        let ghost kids = doc.children_of(parent);

        let mut found_idx: Option<usize> = None;
        let mut i: usize = 0;
        while i < sibling_count
            invariant_except_break
                found_idx is None,
                index_from(kids, current, 0) == index_from(kids, current, i as int),
            invariant
                doc.contains(parent),
                kids == doc.children_of(parent),
                sibling_count == kids.len(),
                i <= sibling_count,
            ensures
                match found_idx {
                    Some(idx) => index_from(kids, current, 0) == Some(idx as int) && idx
                        < sibling_count,
                    None => index_from(kids, current, 0) is None,
                },
            decreases sibling_count - i,
        {
            match doc.child_at(parent, i) {
                Some(child) => {
                    if child == current {
                        assert(index_from(kids, current, i as int) == Some(i as int));
                        found_idx = Some(i);
                        break ;
                    }
                },
                None => {},
            }
            i += 1;
        }

        match found_idx {
            Some(idx) => {
                let mut j: usize = idx + 1;
                while j < sibling_count
                    invariant
                        doc.wf(),
                        doc.contains(parent),
                        doc.node_wf(parent),
                        kids == doc.children_of(parent),
                        sibling_count == kids.len(),
                        idx < j <= sibling_count,
                        match spec_next_text_leaf(doc, el, stop) {
                            Some(leaf) => doc.contains(leaf) && el.index < leaf.index,
                            None => true,
                        },
                        scan_siblings(doc, parent, idx + 1, stop) == scan_siblings(
                            doc,
                            parent,
                            j as int,
                            stop,
                        ),
                        spec_next_text_leaf(doc, el, stop) == climb(
                            doc,
                            current,
                            stop,
                            (MAX_TREE_DEPTH - level) as nat,
                        ),
                        doc.parent_of(current) == Some(parent),
                        index_from(kids, current, 0) == Some(idx as int),
                        level < MAX_TREE_DEPTH,
                    decreases sibling_count - j,
                {
                    match doc.child_at(parent, j) {
                        Some(sibling) => {
                            assert(doc.child_wf(parent, j as int));
                            if sibling == stop {
                                return Some(sibling);
                            }
                            match first_text_leaf(doc, sibling) {
                                Some(leaf) => {
                                    return Some(leaf);
                                },
                                None => {},
                            }
                        },
                        None => {},
                    }
                    j += 1;
                }
            },
            None => {},
        }

        assert(climb(doc, current, stop, (MAX_TREE_DEPTH - level) as nat) == climb(
            doc,
            parent,
            stop,
            (MAX_TREE_DEPTH - level - 1) as nat,
        )) by {
            match found_idx {
                Some(idx) => {
                    assert(scan_siblings(doc, parent, idx + 1, stop) is None);
                },
                None => {
                    assert(index_from(kids, current, 0) is None);
                },
            }
        }
        current = parent;
        level += 1;
    }
    None
}

} // verus!

//! The laid-out document tree that the selection engine reads.
//!
//! The tree is kept as an arena: nodes are stored in document order (a
//! node comes before all of its descendants, and the whole subtree of a child
//! comes before the next child), and an [`Element`] is an index into it. The
//! selection engine never changes the tree.

use crate::geometry::Position;
use vstd::prelude::*;

verus! {

/// A non-owning handle to a node of a [`Document`], comparable for identity.
#[derive(Clone, Copy, Debug, PartialEq, Eq, Structural)]
pub struct Element {
    pub index: usize,
}

struct Node {
    is_text: bool,
    text: String,
    placement: Position,
    font: usize,
    parent: Option<Element>,
    children: Vec<Element>,
}

/// A laid-out document tree.
pub struct Document {
    nodes: Vec<Node>,
    /// For each node, one past the last index of its subtree.
    extents: Ghost<Seq<int>>,
}

impl Document {
    /// Number of nodes.
    pub closed spec fn len(&self) -> nat {
        self.nodes@.len()
    }

    /// `e` refers to a node of this document.
    pub open spec fn contains(&self, e: Element) -> bool {
        (e.index as int) < self.len()
    }

    /// Whether the node is a text leaf.
    pub closed spec fn is_text_of(&self, e: Element) -> bool {
        self.nodes@[e.index as int].is_text
    }

    /// The node's text content.
    pub closed spec fn text_of(&self, e: Element) -> Seq<char> {
        self.nodes@[e.index as int].text@
    }

    /// The node's own placement rectangle.
    pub closed spec fn placement_of(&self, e: Element) -> Position {
        self.nodes@[e.index as int].placement
    }

    /// The node's own font handle; 0 means "inherit from the parent".
    pub closed spec fn font_of(&self, e: Element) -> usize {
        self.nodes@[e.index as int].font
    }

    /// The node's parent, if it has one.
    pub closed spec fn parent_of(&self, e: Element) -> Option<Element> {
        self.nodes@[e.index as int].parent
    }

    /// The node's children, in document order.
    pub closed spec fn children_of(&self, e: Element) -> Seq<Element> {
        self.nodes@[e.index as int].children@
    }

    /// One past the last index of the node's subtree.
    pub closed spec fn extent_of(&self, e: Element) -> int {
        self.extents@[e.index as int]
    }

    /// The bookkeeping of subtree extents covers every node.
    pub closed spec fn extents_cover(&self) -> bool {
        self.extents@.len() == self.nodes@.len()
    }

    /// The `k`-th child of `e` lies after `e`, names `e` as its parent, and
    /// its subtree ends within the subtree of `e`.
    pub open spec fn child_wf(&self, e: Element, k: int) -> bool {
        let c = self.children_of(e)[k];
        &&& e.index < c.index
        &&& self.contains(c)
        &&& self.parent_of(c) == Some(e)
        &&& self.extent_of(c) <= self.extent_of(e)
    }

    /// The subtree of the `j`-th child of `e` ends before the `k`-th child.
    pub open spec fn siblings_wf(&self, e: Element, j: int, k: int) -> bool {
        self.extent_of(self.children_of(e)[j]) <= self.children_of(e)[k].index
    }

    /// The subtree of the `k`-th child of `e` ends where the next child
    /// starts.
    pub open spec fn adjacent_wf(&self, e: Element, k: int) -> bool {
        self.extent_of(self.children_of(e)[k]) == self.children_of(e)[k + 1].index
    }

    /// The node `j` has a parent, which is `e` or lies after `e`.
    pub open spec fn enclosed(&self, e: Element, j: Element) -> bool {
        match self.parent_of(j) {
            Some(q) => e.index <= q.index,
            None => false,
        }
    }

    /// The subtree of `e` starts with `e`, goes on with the subtrees of its
    /// children, one after the other, and ends with the last of them.
    pub open spec fn subtree_wf(&self, e: Element) -> bool {
        let kids = self.children_of(e);
        &&& kids.len() == 0 ==> self.extent_of(e) == e.index + 1
        &&& kids.len() > 0 ==> kids[0].index == e.index + 1 && self.extent_of(e) == self.extent_of(
            kids[kids.len() - 1],
        )
        &&& forall|k: int| 0 <= k < kids.len() - 1 ==> #[trigger] self.adjacent_wf(e, k)
        &&& forall|j: Element|
            e.index < j.index < self.extent_of(e) ==> #[trigger] self.enclosed(e, j)
    }

    /// What holds of every node of a well-formed document.
    pub open spec fn node_wf(&self, e: Element) -> bool {
        &&& e.index < self.extent_of(e) <= self.len()
        &&& self.placement_of(e).in_bounds()
        &&& match self.parent_of(e) {
            None => true,
            Some(p) => p.index < e.index && self.children_of(p).contains(e),
        }
        &&& forall|k: int| 0 <= k < self.children_of(e).len() ==> #[trigger] self.child_wf(e, k)
        &&& forall|j: int, k: int|
            0 <= j < k < self.children_of(e).len() ==> #[trigger] self.siblings_wf(e, j, k)
        &&& self.subtree_wf(e)
    }

    /// The document is a forest stored in document order, with parent and
    /// child links that agree and placements within the coordinate limit.
    pub open spec fn wf(&self) -> bool {
        &&& self.extents_cover()
        &&& forall|e: Element| #[trigger] self.contains(e) ==> self.node_wf(e)
    }

    /// `target` is `from` or one of its ancestors.
    pub open spec fn on_branch(&self, from: Element, target: Element) -> bool
        decreases from.index,
    {
        from == target || match self.parent_of(from) {
            Some(p) => p.index < from.index && self.on_branch(p, target),
            None => false,
        }
    }

    /// A child may be appended to `parent` without disturbing document order:
    /// `parent` is the last node or one of its ancestors.
    pub open spec fn is_open(&self, parent: Element) -> bool {
        self.len() > 0 && self.on_branch(Element { index: (self.len() - 1) as usize }, parent)
    }

    /// The number of nodes fits the machine's index type.
    pub proof fn lemma_len_fits(&self)
        ensures
            self.len() <= usize::MAX,
    {
        assert(self.nodes@.len() == self.nodes.len());
    }

    /// An empty document.
    pub fn new() -> (doc: Document)
        ensures
            doc.wf(),
            doc.len() == 0,
    {
        Document { nodes: Vec::new(), extents: Ghost(Seq::empty()) }
    }

    /// Whether [`Document::add_node`] accepts a node with this parent and
    /// placement.
    pub open spec fn accepts(&self, parent: Option<Element>, placement: Position) -> bool {
        &&& placement.in_bounds()
        &&& match parent {
            None => true,
            Some(p) => self.contains(p) && self.is_open(p),
        }
    }

    /// Appends a node as the last child of `parent`, or as a new root when
    /// `parent` is `None`.
    ///
    /// The node is refused, and the document left as it was, when its
    /// placement exceeds the coordinate limit or when `parent` is neither the
    /// last node nor one of its ancestors (nodes are added in document order).
    pub fn add_node(
        &mut self,
        parent: Option<Element>,
        is_text: bool,
        text: &str,
        placement: Position,
        font: usize,
    ) -> (r: Option<Element>)
        requires
            old(self).wf(),
        ensures
            final(self).wf(),
            r is Some <==> old(self).accepts(parent, placement),
            r is None ==> *final(self) == *old(self),
            r is Some ==> final(self).extends(*old(self), r.unwrap(), parent)
                && final(self).is_text_of(r.unwrap()) == is_text
                && final(self).text_of(r.unwrap()) == text@
                && final(self).placement_of(r.unwrap()) == placement
                && final(self).font_of(r.unwrap()) == font,
    {
        if !placement.is_in_bounds() {
            return None;
        }
        let index: usize = self.nodes.len();
        let ghost before = *self;
        match parent {
            Some(p) => {
                if p.index >= index {
                    return None;
                }
                let mut cur: usize = index - 1;
                proof {
                    let last = Element { index: cur };
                    assert(self.contains(last));
                    assert(self.node_wf(last));
                }
                while cur != p.index
                    invariant
                        *self == before,
                        *old(self) == before,
                        parent == Some(p),
                        self.wf(),
                        index == self.nodes.len(),
                        cur < index,
                        p.index < index,
                        self.extents@[cur as int] == index,
                        self.is_open(p) == self.on_branch(Element { index: cur }, p),
                    decreases cur,
                {
                    let ghost c = Element { index: cur };
                    assert(self.contains(c));
                    assert(self.node_wf(c));
                    match self.nodes[cur].parent {
                        None => {
                            assert(!self.on_branch(c, p));
                            return None;
                        },
                        Some(q) => {
                            proof {
                                assert(self.on_branch(c, p) == self.on_branch(q, p));
                                let k = choose|k: int|
                                    0 <= k < self.children_of(q).len() && self.children_of(q)[k]
                                        == c;
                                assert(self.contains(q));
                                assert(self.node_wf(q));
                                assert(self.child_wf(q, k));
                            }
                            cur = q.index;
                        },
                    }
                }
                assert(self.is_open(p));
                assert(self.extents@[p.index as int] == index);
            },
            None => {},
        }
        let e = Element { index };
        self.nodes.push(
            Node { is_text, text: text.to_owned(), placement, font, parent, children: Vec::new() },
        );
        match parent {
            Some(p) => {
                self.nodes[p.index].children.push(e);
            },
            None => {},
        }
        proof {
            let old_extents = before.extents@;
            let n = index as int;
            self.extents@ = Seq::new(
                (n + 1) as nat,
                |i: int|
                    if i == n {
                        n + 1
                    } else if parent is Some && i <= parent.unwrap().index && old_extents[i] == n {
                        n + 1
                    } else {
                        old_extents[i]
                    },
            );
            assert forall|o: Element| #[trigger] self.contains(o) implies self.node_wf(o) by {
                if o.index == index {
                    assert(self.children_of(o) =~= Seq::empty());
                    match parent {
                        Some(p) => {
                            assert(self.children_of(p) == before.children_of(p).push(e));
                            assert(self.children_of(p)[before.children_of(p).len() as int] == e);
                        },
                        None => {},
                    }
                } else {
                    assert(before.contains(o));
                    assert(before.node_wf(o));
                    match before.parent_of(o) {
                        Some(q) => {
                            let k = choose|k: int|
                                0 <= k < before.children_of(q).len() && before.children_of(q)[k]
                                    == o;
                            assert(self.children_of(q)[k] == o);
                        },
                        None => {},
                    }
                    assert forall|k: int| 0 <= k < self.children_of(o).len() implies #[trigger]
                        self.child_wf(o, k) by {
                        if k < before.children_of(o).len() {
                            assert(before.child_wf(o, k));
                            let c = before.children_of(o)[k];
                            assert(self.children_of(o)[k] == c);
                        }
                    }
                    assert forall|j: int, k: int|
                        0 <= j < k < self.children_of(o).len() implies #[trigger] self.siblings_wf(
                        o,
                        j,
                        k,
                    ) by {
                        assert(before.child_wf(o, j));
                        if k < before.children_of(o).len() {
                            assert(before.siblings_wf(o, j, k));
                            assert(before.child_wf(o, k));
                        } else {
                            let c = before.children_of(o)[j];
                            assert(before.contains(c));
                            assert(before.node_wf(c));
                        }
                    }
                }
                assert(self.subtree_wf(o)) by {
                    if o.index != index {
                        let kids = before.children_of(o);
                        assert(before.subtree_wf(o));
                        if kids.len() > 0 {
                            let last = kids[kids.len() - 1];
                            assert(before.child_wf(o, kids.len() - 1));
                            assert(before.contains(last));
                            assert(before.node_wf(last));
                            if parent is Some && o.index < parent.unwrap().index && old_extents[o.index as int]
                                == n && last.index > parent.unwrap().index {
                                assert(before.contains(parent.unwrap()));
                                assert(before.node_wf(parent.unwrap()));
                                assert(before.enclosed(parent.unwrap(), last));
                            }
                        }
                        assert forall|k: int| 0 <= k < self.children_of(o).len() - 1 implies #[trigger]
                            self.adjacent_wf(o, k) by {
                            assert(before.child_wf(o, k));
                            if k < kids.len() - 1 {
                                assert(before.adjacent_wf(o, k));
                                assert(before.child_wf(o, k + 1));
                            }
                        }
                        assert forall|j: Element|
                            o.index < j.index < self.extent_of(o) implies #[trigger] self.enclosed(
                            o,
                            j,
                        ) by {
                            if j.index < index {
                                assert(before.enclosed(o, j));
                            }
                        }
                    }
                }
            }
        }
        Some(e)
    }

    /// `self` is `before` with the node `e` appended under `parent`: every
    /// other node keeps its content and its links, and `parent` gains `e` as
    /// its last child.
    pub open spec fn extends(&self, before: Document, e: Element, parent: Option<Element>) -> bool {
        &&& e.index == before.len()
        &&& self.len() == before.len() + 1
        &&& self.parent_of(e) == parent
        &&& self.children_of(e) == Seq::<Element>::empty()
        &&& forall|o: Element| #[trigger]
            before.contains(o) ==> {
                &&& self.is_text_of(o) == before.is_text_of(o)
                &&& self.text_of(o) == before.text_of(o)
                &&& self.placement_of(o) == before.placement_of(o)
                &&& self.font_of(o) == before.font_of(o)
                &&& self.parent_of(o) == before.parent_of(o)
                &&& self.children_of(o) == if parent == Some(o) {
                    before.children_of(o).push(e)
                } else {
                    before.children_of(o)
                }
            }
    }

    /// Number of nodes in the document.
    pub fn node_count(&self) -> (n: usize)
        ensures
            n == self.len(),
    {
        self.nodes.len()
    }

    /// The first node of the document, if there is one.
    pub fn root(&self) -> (r: Option<Element>)
        ensures
            r == if self.len() > 0 {
                Some(Element { index: 0 })
            } else {
                None
            },
    {
        if self.nodes.len() > 0 {
            Some(Element { index: 0 })
        } else {
            None
        }
    }

    /// Whether `e` refers to a node of this document.
    pub fn has(&self, e: Element) -> (r: bool)
        ensures
            r == self.contains(e),
    {
        e.index < self.nodes.len()
    }

    /// Whether the node is a text leaf.
    pub fn is_text(&self, e: Element) -> (r: bool)
        requires
            self.contains(e),
        ensures
            r == self.is_text_of(e),
    {
        self.nodes[e.index].is_text
    }

    /// The node's text content.
    pub fn get_text(&self, e: Element) -> (r: &str)
        requires
            self.contains(e),
        ensures
            r@ == self.text_of(e),
    {
        self.nodes[e.index].text.as_str()
    }

    /// The node's own placement rectangle.
    pub fn placement(&self, e: Element) -> (r: Position)
        requires
            self.contains(e),
        ensures
            r == self.placement_of(e),
    {
        self.nodes[e.index].placement
    }

    /// The node's own font handle; 0 means "inherit from the parent".
    pub fn font(&self, e: Element) -> (r: usize)
        requires
            self.contains(e),
        ensures
            r == self.font_of(e),
    {
        self.nodes[e.index].font
    }

    /// The node's parent, if it has one.
    pub fn parent(&self, e: Element) -> (r: Option<Element>)
        requires
            self.contains(e),
        ensures
            r == self.parent_of(e),
    {
        self.nodes[e.index].parent
    }

    /// How many children the node has.
    pub fn children_count(&self, e: Element) -> (n: usize)
        requires
            self.contains(e),
        ensures
            n == self.children_of(e).len(),
    {
        self.nodes[e.index].children.len()
    }

    /// The node's `i`-th child, or `None` when it has no such child.
    pub fn child_at(&self, e: Element, i: usize) -> (r: Option<Element>)
        requires
            self.contains(e),
        ensures
            r == if i < self.children_of(e).len() {
                Some(self.children_of(e)[i as int])
            } else {
                None
            },
    {
        if i < self.nodes[e.index].children.len() {
            Some(self.nodes[e.index].children[i])
        } else {
            None
        }
    }
}

} // verus!

//! The selection state machine: two endpoints, the highlight rectangles
//! between them and the text they span.

use crate::document::{Document, Element};
use crate::geometry::Position;
use crate::hit::{hit_test_char, spec_hit_test_char};
use crate::measure::is_text_measure;
use crate::order::{
    cache_valid,
    is_before,
    normalize_endpoints,
    spec_is_before,
    spec_normalize_endpoints,
    OrderCache,
    SelectionEndpoint,
};
use crate::rect::{compute_text_rect, rect_seq, spec_text_rect};
use crate::text::{
    char_slice,
    ordered_indices,
    safe_char_slice,
    safe_char_slice_from,
    safe_char_slice_to,
    spec_ordered_indices,
};
use crate::walker::{lemma_next_text_leaf_forward, next_text_leaf, spec_next_text_leaf};
use core::marker::PhantomData;
use vstd::prelude::*;

verus! {

/// Text selection state for a document.
///
/// A selection is *idle* while it has no start, *pending* once it has a
/// start, and *active* when it has both a start and an end.
///
/// The lifetime `'doc` ties a selection made by [`Selection::for_document`]
/// to its document: while the selection lives the document cannot change, so
/// the elements it refers to stay what they were.
pub struct Selection<'doc> {
    start: Option<SelectionEndpoint>,
    end: Option<SelectionEndpoint>,
    rectangles: Vec<Position>,
    order_cache: Option<OrderCache>,
    owner: PhantomData<&'doc Document>,
}

/// What a [`Selection`] holds.
pub struct SelectionView {
    pub start: Option<SelectionEndpoint>,
    pub end: Option<SelectionEndpoint>,
    pub rectangles: Seq<Position>,
    pub order_cache: Option<OrderCache>,
}

impl<'doc> View for Selection<'doc> {
    type V = SelectionView;

    closed spec fn view(&self) -> SelectionView {
        SelectionView {
            start: self.start,
            end: self.end,
            rectangles: self.rectangles@,
            order_cache: self.order_cache,
        }
    }
}

/// `ep` refers to a node of `doc` and to a code-point boundary of its text.
pub open spec fn endpoint_in(doc: &Document, ep: Option<SelectionEndpoint>) -> bool {
    match ep {
        Some(e) => doc.contains(e.element) && e.char_index <= doc.text_of(e.element).len(),
        None => true,
    }
}

/// Whether `ep` refers to a node of `doc` and to a code-point boundary of
/// its text.
pub fn endpoint_refers_into(doc: &Document, ep: Option<SelectionEndpoint>) -> (r: bool)
    ensures
        r == endpoint_in(doc, ep),
{
    match ep {
        Some(e) => doc.has(e.element) && e.char_index <= doc.get_text(e.element).unicode_len(),
        None => true,
    }
}

/// The rectangles of the text leaves met by walking from `cursor` until
/// `stop` is met or the walk ends, each leaf highlighted in full.
pub open spec fn middle_rects<F: Fn(&str, usize) -> i32>(
    doc: &Document,
    m: &F,
    cursor: Option<Element>,
    stop: Element,
) -> Seq<Position>
    decreases
            match cursor {
                Some(el) => doc.len() - el.index,
                None => 0,
            },
    when doc.wf() && (cursor is Some ==> doc.contains(cursor.unwrap()))
{
    match cursor {
        None => Seq::empty(),
        Some(el) => if el == stop {
            Seq::empty()
        } else {
            proof {
                lemma_next_text_leaf_forward(doc, el, stop);
            }
            rect_seq(spec_text_rect(doc, m, el, 0, doc.text_of(el).len() as usize)) + middle_rects(
                doc,
                m,
                spec_next_text_leaf(doc, el, stop),
                stop,
            )
        },
    }
}

/// The texts of the leaves met by walking from `cursor` until `stop` is met
/// or the walk ends, joined.
pub open spec fn middle_text(doc: &Document, cursor: Option<Element>, stop: Element) -> Seq<char>
    decreases
            match cursor {
                Some(el) => doc.len() - el.index,
                None => 0,
            },
    when doc.wf() && (cursor is Some ==> doc.contains(cursor.unwrap()))
{
    match cursor {
        None => Seq::empty(),
        Some(el) => if el == stop {
            Seq::empty()
        } else {
            proof {
                lemma_next_text_leaf_forward(doc, el, stop);
            }
            doc.text_of(el) + middle_text(doc, spec_next_text_leaf(doc, el, stop), stop)
        },
    }
}

/// The highlight rectangles between two endpoints given in document order:
/// one for the range within a single element, or else one for the tail of
/// the first element, one for every leaf in between, and one for the head of
/// the second element. A leaf gives no rectangle where
/// [`spec_text_rect`] has none.
pub open spec fn spec_rectangles<F: Fn(&str, usize) -> i32>(
    doc: &Document,
    m: &F,
    first: SelectionEndpoint,
    second: SelectionEndpoint,
) -> Seq<Position> {
    if first.element == second.element {
        rect_seq(spec_text_rect(doc, m, first.element, first.char_index, second.char_index))
    } else {
        rect_seq(
            spec_text_rect(
                doc,
                m,
                first.element,
                first.char_index,
                doc.text_of(first.element).len() as usize,
            ),
        ) + middle_rects(
            doc,
            m,
            spec_next_text_leaf(doc, first.element, second.element),
            second.element,
        ) + rect_seq(spec_text_rect(doc, m, second.element, 0, second.char_index))
    }
}

/// The text between two endpoints given in document order: the range within
/// a single element, or else the tail of the first element, the whole text of
/// every leaf in between, and the head of the second element.
pub open spec fn spec_text_between(
    doc: &Document,
    first: SelectionEndpoint,
    second: SelectionEndpoint,
) -> Seq<char> {
    if first.element == second.element {
        let (lo, hi) = spec_ordered_indices(first.char_index, second.char_index);
        char_slice(doc.text_of(first.element), lo as int, hi as int)
    } else {
        char_slice(
            doc.text_of(first.element),
            first.char_index as int,
            doc.text_of(first.element).len() as int,
        ) + middle_text(
            doc,
            spec_next_text_leaf(doc, first.element, second.element),
            second.element,
        ) + char_slice(doc.text_of(second.element), 0, second.char_index as int)
    }
}

impl SelectionView {
    /// The selection with nothing in it.
    pub open spec fn empty() -> SelectionView {
        SelectionView { start: None, end: None, rectangles: Seq::empty(), order_cache: None }
    }

    /// Both a start and an end are present.
    pub open spec fn is_active(self) -> bool {
        self.start is Some && self.end is Some
    }

    /// The endpoints refer to nodes of `doc` and to boundaries of their
    /// texts.
    pub open spec fn refers_into(self, doc: &Document) -> bool {
        &&& endpoint_in(doc, self.start)
        &&& endpoint_in(doc, self.end)
    }

    /// The selection belongs to `doc`: its endpoints refer into it, and the
    /// order cache, if any, holds the true answer for it.
    pub open spec fn bound_to(self, doc: &Document) -> bool {
        &&& self.refers_into(doc)
        &&& cache_valid(doc, self.order_cache)
    }

    /// The order cache after a recomputation for the endpoints `start` and
    /// `end`: between two different elements a cache that does not speak of
    /// exactly this pair is replaced by the walk's answer for it.
    pub open spec fn refreshed_cache(
        self,
        doc: &Document,
        start: SelectionEndpoint,
        end: SelectionEndpoint,
    ) -> Option<OrderCache> {
        if start.element != end.element && match self.order_cache {
            Some(c) => c.a != start.element || c.b != end.element,
            None => true,
        } {
            Some(
                OrderCache {
                    a: start.element,
                    b: end.element,
                    a_before_b: spec_is_before(doc, start.element, end.element),
                },
            )
        } else {
            self.order_cache
        }
    }

    /// The state after the rectangles were recomputed: unchanged while the
    /// selection is not active; otherwise the cache is refreshed and the
    /// rectangles are those between the endpoints taken in document order.
    pub open spec fn recomputed<F: Fn(&str, usize) -> i32>(
        self,
        doc: &Document,
        m: &F,
    ) -> SelectionView {
        if self.start is Some && self.end is Some {
            let start = self.start.unwrap();
            let end = self.end.unwrap();
            let cache = self.refreshed_cache(doc, start, end);
            let (first, second) = spec_normalize_endpoints(doc, start, end, cache);
            SelectionView {
                start: self.start,
                end: self.end,
                rectangles: spec_rectangles(doc, m, first, second),
                order_cache: cache,
            }
        } else {
            SelectionView {
                start: self.start,
                end: self.end,
                rectangles: Seq::empty(),
                order_cache: self.order_cache,
            }
        }
    }

    /// The state after a selection was begun with the given hit: whatever
    /// was there is discarded, and the hit's endpoint, if it has one, becomes
    /// the start.
    pub open spec fn started_at<F: Fn(&str, usize) -> i32>(
        doc: &Document,
        m: &F,
        hit: Option<Element>,
        x: i64,
        y: i64,
    ) -> SelectionView {
        SelectionView {
            start: spec_hit_test_char(doc, m, hit, x, y),
            end: None,
            rectangles: Seq::empty(),
            order_cache: None,
        }
    }

    /// The state after the selection was extended with the given hit:
    /// unchanged without a start or when the hit has no endpoint; otherwise
    /// the endpoint becomes the end and the rectangles are recomputed.
    pub open spec fn extended_to<F: Fn(&str, usize) -> i32>(
        self,
        doc: &Document,
        m: &F,
        hit: Option<Element>,
        x: i64,
        y: i64,
    ) -> SelectionView {
        if self.start is None {
            self
        } else {
            match spec_hit_test_char(doc, m, hit, x, y) {
                None => self,
                Some(ep) => SelectionView {
                    start: self.start,
                    end: Some(ep),
                    rectangles: self.rectangles,
                    order_cache: self.order_cache,
                }.recomputed(doc, m),
            }
        }
    }

    /// The selected text: none while the selection is not active; otherwise
    /// the text between the endpoints taken in document order.
    pub open spec fn selected_text(self, doc: &Document) -> Option<Seq<char>> {
        if self.start is Some && self.end is Some {
            let (first, second) = spec_normalize_endpoints(
                doc,
                self.start.unwrap(),
                self.end.unwrap(),
                self.order_cache,
            );
            Some(spec_text_between(doc, first, second))
        } else {
            None
        }
    }
}

impl<'doc> Selection<'doc> {
    /// Creates an empty, idle selection that is tied to no document.
    pub fn new() -> (s: Selection<'doc>)
        ensures
            s@ == SelectionView::empty(),
    {
        Selection {
            start: None,
            end: None,
            rectangles: Vec::new(),
            order_cache: None,
            owner: PhantomData,
        }
    }

    /// Creates an empty selection tied to the lifetime of `doc`.
    pub fn for_document(doc: &'doc Document) -> (s: Selection<'doc>)
        ensures
            s@ == SelectionView::empty(),
            s@.bound_to(doc),
    {
        Selection::new()
    }

    /// Whether the endpoints of the selection refer to nodes of `doc` and to
    /// boundaries of their texts.
    pub fn refers_into(&self, doc: &Document) -> (r: bool)
        ensures
            r == self@.refers_into(doc),
    {
        endpoint_refers_into(doc, self.start) && endpoint_refers_into(doc, self.end)
    }

    /// Begins a selection at the document coordinates `(x, y)`, where the
    /// document's hit test found the element `hit`.
    ///
    /// Whatever was selected before is discarded. When the hit resolves to no
    /// text leaf the selection stays idle.
    pub fn start_at<F: Fn(&str, usize) -> i32>(
        &mut self,
        doc: &Document,
        measure_text: &F,
        hit: Option<Element>,
        x: i64,
        y: i64,
    )
        requires
            doc.wf(),
            is_text_measure(measure_text),
            hit is Some ==> doc.contains(hit.unwrap()),
        ensures
            final(self)@ == SelectionView::started_at(doc, measure_text, hit, x, y),
            final(self)@.bound_to(doc),
    {
        self.clear();
        match hit_test_char(doc, measure_text, hit, x, y) {
            Some(endpoint) => {
                self.start = Some(endpoint);
            },
            None => {},
        }
    }

    /// Extends the selection to the document coordinates `(x, y)`, where the
    /// document's hit test found the element `hit`, and recomputes the
    /// highlight rectangles.
    ///
    /// Does nothing before a selection was begun, or when the hit resolves to
    /// no text leaf.
    pub fn extend_to<F: Fn(&str, usize) -> i32>(
        &mut self,
        doc: &Document,
        measure_text: &F,
        hit: Option<Element>,
        x: i64,
        y: i64,
    )
        requires
            doc.wf(),
            is_text_measure(measure_text),
            old(self)@.refers_into(doc),
            hit is Some ==> doc.contains(hit.unwrap()),
        ensures
            final(self)@ == old(self)@.extended_to(doc, measure_text, hit, x, y),
            final(self)@.refers_into(doc),
            old(self)@.bound_to(doc) ==> final(self)@.bound_to(doc),
    {
        if self.start.is_none() {
            return ;
        }
        match hit_test_char(doc, measure_text, hit, x, y) {
            Some(endpoint) => {
                self.end = Some(endpoint);
                self.recompute_rectangles(doc, measure_text);
            },
            None => {},
        }
    }

    /// Clears the selection: endpoints, rectangles and order cache.
    pub fn clear(&mut self)
        ensures
            final(self)@ == SelectionView::empty(),
            !final(self)@.is_active(),
            final(self)@.rectangles.len() == 0,
    {
        self.start = None;
        self.end = None;
        self.rectangles.clear();
        self.order_cache = None;
    }

    /// Returns `true` if the selection has both a start and an end.
    pub fn is_active(&self) -> (r: bool)
        ensures
            r == self@.is_active(),
    {
        self.start.is_some() && self.end.is_some()
    }

    /// The endpoint the selection was begun at, if any.
    pub fn start(&self) -> (r: Option<SelectionEndpoint>)
        ensures
            r == self@.start,
    {
        self.start
    }

    /// The endpoint the selection was last extended to, if any.
    pub fn end(&self) -> (r: Option<SelectionEndpoint>)
        ensures
            r == self@.end,
    {
        self.end
    }

    /// Highlight rectangles for the current selection.
    pub fn rectangles(&self) -> (r: &[Position])
        ensures
            r@ == self@.rectangles,
    {
        self.rectangles.as_slice()
    }

    /// Extracts the selected text, walking the document between the two
    /// endpoints. Returns `None` if the selection is not active.
    pub fn selected_text(&self, doc: &Document) -> (r: Option<String>)
        requires
            doc.wf(),
            self@.refers_into(doc),
        ensures
            match r {
                Some(s) => self@.selected_text(doc) == Some(s@),
                None => self@.selected_text(doc) is None,
            },
    {
        let start = match self.start {
            Some(s) => s,
            None => {
                return None;
            },
        };
        let end = match self.end {
            Some(e) => e,
            None => {
                return None;
            },
        };
        let (first, second) = normalize_endpoints(doc, start, end, &self.order_cache);
        let first_el = first.element;
        let second_el = second.element;

        if first_el == second_el {
            let text = doc.get_text(first_el);
            let (lo, hi) = ordered_indices(first.char_index, second.char_index);
            return Some(safe_char_slice(text, lo, hi));
        }
        let mut result = String::new();
        let first_text = doc.get_text(first_el);
        let head = safe_char_slice_from(first_text, first.char_index);
        result.append(head.as_str());
        assert(result@ =~= head@);

        let mut current: Option<Element> = next_text_leaf(doc, first_el, second_el);
        let ghost begin = current;
        loop
            invariant
                doc.wf(),
                doc.contains(second_el),
                current is Some ==> doc.contains(current.unwrap()),
                result@ + middle_text(doc, current, second_el) == head@ + middle_text(
                    doc,
                    begin,
                    second_el,
                ),
            ensures
                result@ == head@ + middle_text(doc, begin, second_el),
            decreases
                    match current {
                        Some(el) => doc.len() - el.index,
                        None => 0,
                    },
        {
            match current {
                Some(el) => {
                    if el == second_el {
                        assert(result@ + Seq::<char>::empty() =~= result@);
                        break ;
                    }
                    let ghost before = result@;
                    result.append(doc.get_text(el));
                    current = next_text_leaf(doc, el, second_el);
                    assert(result@ + middle_text(doc, current, second_el) =~= before + middle_text(
                        doc,
                        Some(el),
                        second_el,
                    ));
                },
                None => {
                    assert(result@ + Seq::<char>::empty() =~= result@);
                    break ;
                },
            }
        }

        let second_text = doc.get_text(second_el);
        let tail = safe_char_slice_to(second_text, second.char_index);
        result.append(tail.as_str());
        Some(result)
    }

    /// Recomputes the highlight rectangles from the current endpoints.
    fn recompute_rectangles<F: Fn(&str, usize) -> i32>(&mut self, doc: &Document, measure_text: &F)
        requires
            doc.wf(),
            is_text_measure(measure_text),
            old(self)@.refers_into(doc),
        ensures
            final(self)@ == old(self)@.recomputed(doc, measure_text),
            final(self)@.refers_into(doc),
            old(self)@.bound_to(doc) ==> final(self)@.bound_to(doc),
    {
        self.rectangles.clear();
        let start = match self.start {
            Some(s) => s,
            None => {
                return ;
            },
        };
        let end = match self.end {
            Some(e) => e,
            None => {
                return ;
            },
        };

        if start.element != end.element {
            let needs_update = match self.order_cache {
                Some(c) => c.a != start.element || c.b != end.element,
                None => true,
            };
            if needs_update {
                let a_before_b = is_before(doc, start.element, end.element);
                self.order_cache = Some(
                    OrderCache { a: start.element, b: end.element, a_before_b },
                );
            }
        }
        let (first, second) = normalize_endpoints(doc, start, end, &self.order_cache);

        if first.element == second.element {
            compute_text_rect(
                doc,
                first.element,
                measure_text,
                first.char_index,
                second.char_index,
                &mut self.rectangles,
            );
            assert(self.rectangles@ =~= spec_rectangles(doc, measure_text, first, second));
            return ;
        }
        let first_el = first.element;
        let second_el = second.element;
        let first_len: usize = doc.get_text(first_el).unicode_len();
        compute_text_rect(
            doc,
            first_el,
            measure_text,
            first.char_index,
            first_len,
            &mut self.rectangles,
        );
        let ghost head = self.rectangles@;
        assert(head =~= rect_seq(
            spec_text_rect(doc, measure_text, first_el, first.char_index, first_len),
        ));

        let mut current: Option<Element> = next_text_leaf(doc, first_el, second_el);
        let ghost begin = current;
        loop
            invariant
                doc.wf(),
                is_text_measure(measure_text),
                doc.contains(second_el),
                current is Some ==> doc.contains(current.unwrap()),
                self.start == old(self).start,
                self.end == old(self).end,
                self.order_cache == old(self)@.refreshed_cache(doc, start, end),
                self.rectangles@ + middle_rects(doc, measure_text, current, second_el) == head
                    + middle_rects(doc, measure_text, begin, second_el),
            ensures
                self.start == old(self).start,
                self.end == old(self).end,
                self.order_cache == old(self)@.refreshed_cache(doc, start, end),
                self.rectangles@ == head + middle_rects(doc, measure_text, begin, second_el),
            decreases
                    match current {
                        Some(el) => doc.len() - el.index,
                        None => 0,
                    },
        {
            match current {
                Some(el) => {
                    if el == second_el {
                        assert(self.rectangles@ + Seq::<Position>::empty() =~= self.rectangles@);
                        break ;
                    }
                    let ghost before = self.rectangles@;
                    let len: usize = doc.get_text(el).unicode_len();
                    compute_text_rect(doc, el, measure_text, 0, len, &mut self.rectangles);
                    current = next_text_leaf(doc, el, second_el);
                    assert(self.rectangles@ + middle_rects(doc, measure_text, current, second_el)
                        =~= before + middle_rects(doc, measure_text, Some(el), second_el));
                },
                None => {
                    assert(self.rectangles@ + Seq::<Position>::empty() =~= self.rectangles@);
                    break ;
                },
            }
        }

        compute_text_rect(
            doc,
            second_el,
            measure_text,
            0,
            second.char_index,
            &mut self.rectangles,
        );
    }
}

/// Extending a selection twice with the same hit at the same point changes
/// nothing the second time: the rectangles, the selected text and the whole
/// state are what they were after the first.
pub proof fn lemma_extend_to_idempotent<F: Fn(&str, usize) -> i32>(
    v: SelectionView,
    doc: &Document,
    m: &F,
    hit: Option<Element>,
    x: i64,
    y: i64,
)
    ensures
        ({
            let once = v.extended_to(doc, m, hit, x, y);
            let twice = once.extended_to(doc, m, hit, x, y);
            &&& twice.rectangles == once.rectangles
            &&& twice.selected_text(doc) == once.selected_text(doc)
            &&& twice == once
        }),
{
}

/// Extending a selection that has no start changes nothing: it stays
/// inactive and its rectangles stay as they were.
pub proof fn lemma_extend_without_start<F: Fn(&str, usize) -> i32>(
    v: SelectionView,
    doc: &Document,
    m: &F,
    hit: Option<Element>,
    x: i64,
    y: i64,
)
    requires
        v.start is None,
    ensures
        v.extended_to(doc, m, hit, x, y) == v,
        !v.extended_to(doc, m, hit, x, y).is_active(),
{
}

/// After a recomputation the rectangles are those of the endpoints taken in
/// document order: when the walk can relate the two elements, the endpoint
/// whose rectangles come first lies at or before the other.
pub proof fn lemma_rectangles_in_document_order<F: Fn(&str, usize) -> i32>(
    v: SelectionView,
    doc: &Document,
    m: &F,
)
    requires
        doc.wf(),
        v.bound_to(doc),
        v.is_active(),
        v.start.unwrap().element == v.end.unwrap().element || spec_is_before(
            doc,
            v.start.unwrap().element,
            v.end.unwrap().element,
        ) || spec_is_before(doc, v.end.unwrap().element, v.start.unwrap().element),
    ensures
        ({
            let after = v.recomputed(doc, m);
            let (first, second) = spec_normalize_endpoints(
                doc,
                v.start.unwrap(),
                v.end.unwrap(),
                after.order_cache,
            );
            &&& after.rectangles == spec_rectangles(doc, m, first, second)
            &&& crate::order::precedes_or_equals(doc, first, second)
            &&& cache_valid(doc, after.order_cache)
        }),
{
    let start = v.start.unwrap();
    let end = v.end.unwrap();
    let cache = v.refreshed_cache(doc, start, end);
    crate::order::lemma_normalize_endpoints_ordered(doc, start, end, cache);
}

impl<'doc> Default for Selection<'doc> {
    /// An empty, idle selection.
    fn default() -> (s: Selection<'doc>)
        ensures
            s@ == SelectionView::empty(),
    {
        Selection::new()
    }
}

} // verus!

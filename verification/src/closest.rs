//! Finding the text leaf nearest to a point.

use crate::document::{Document, Element};
use crate::geometry::{band_distance, band_distance_doubled, UNITS_PER_PIXEL};
use crate::layout::{is_whitespace_only, placement_for_text, spec_placement_for_text};
use crate::text::is_blank;
use vstd::prelude::*;

verus! {

/// Leaves whose vertical distance exceeds the smallest one by no more than
/// this (two pixels) count as lying on the nearest line.
pub const Y_TOLERANCE: i64 = 2 * UNITS_PER_PIXEL;

/// A candidate for the nearest text leaf: a text leaf that holds more than
/// white space.
pub open spec fn is_candidate(doc: &Document, e: Element) -> bool {
    doc.is_text_of(e) && !is_blank(doc.text_of(e))
}

/// The candidates in the subtree of `e`, in document order. The descent stops
/// at a candidate and goes on through every other node.
pub open spec fn spec_candidates(doc: &Document, e: Element) -> Seq<Element>
    decreases doc.len() - e.index, doc.children_of(e).len() + 1,
    when doc.wf() && doc.contains(e)
{
    if is_candidate(doc, e) {
        seq![e]
    } else {
        spec_candidates_among(doc, e, 0)
    }
}

/// The candidates under the children of `e` from the `k`-th on.
pub open spec fn spec_candidates_among(doc: &Document, e: Element, k: int) -> Seq<Element>
    decreases doc.len() - e.index, doc.children_of(e).len() - k,
    when doc.wf() && doc.contains(e) && 0 <= k
{
    if k >= doc.children_of(e).len() {
        Seq::empty()
    } else {
        proof {
            assert(doc.node_wf(e));
            assert(doc.child_wf(e, k));
        }
        spec_candidates(doc, doc.children_of(e)[k]) + spec_candidates_among(doc, e, k + 1)
    }
}

/// Every element of `s` is a node of the document and a candidate.
pub open spec fn all_candidates(doc: &Document, s: Seq<Element>) -> bool {
    forall|i: int| 0 <= i < s.len() ==> doc.contains(#[trigger] s[i]) && is_candidate(doc, s[i])
}

/// Everything collected from a subtree is a candidate of the document.
pub proof fn lemma_candidates_are_candidates(doc: &Document, e: Element)
    requires
        doc.wf(),
        doc.contains(e),
    ensures
        all_candidates(doc, spec_candidates(doc, e)),
    decreases doc.len() - e.index, doc.children_of(e).len() + 1,
{
    if !is_candidate(doc, e) {
        lemma_candidates_among_are_candidates(doc, e, 0);
    }
}

/// Everything collected under the children of `e` is a candidate of the
/// document.
pub proof fn lemma_candidates_among_are_candidates(doc: &Document, e: Element, k: int)
    requires
        doc.wf(),
        doc.contains(e),
        0 <= k,
    ensures
        all_candidates(doc, spec_candidates_among(doc, e, k)),
    decreases doc.len() - e.index, doc.children_of(e).len() - k,
{
    if k < doc.children_of(e).len() {
        assert(doc.node_wf(e));
        assert(doc.child_wf(e, k));
        let head = spec_candidates(doc, doc.children_of(e)[k]);
        let tail = spec_candidates_among(doc, e, k + 1);
        lemma_candidates_are_candidates(doc, doc.children_of(e)[k]);
        lemma_candidates_among_are_candidates(doc, e, k + 1);
        assert forall|i: int| 0 <= i < (head + tail).len() implies doc.contains(
            #[trigger] (head + tail)[i],
        ) && is_candidate(doc, (head + tail)[i]) by {
            if i < head.len() {
                assert((head + tail)[i] == head[i]);
            } else {
                assert((head + tail)[i] == tail[i - head.len()]);
            }
        }
    }
}

/// Appends the candidates in the subtree of `el` to `out`.
fn collect_candidates(doc: &Document, el: Element, out: &mut Vec<Element>)
    requires
        doc.wf(),
        doc.contains(el),
    ensures
        final(out)@ == old(out)@ + spec_candidates(doc, el),
    decreases doc.len() - el.index,
{
    if doc.is_text(el) && !is_whitespace_only(doc, el) {
        out.push(el);
        assert(out@ =~= old(out)@ + seq![el]);
        return ;
    }
    let count: usize = doc.children_count(el);
    let mut i: usize = 0;
    assert(doc.node_wf(el));
    assert(out@ =~= old(out)@ + Seq::<Element>::empty());
    while i < count
        invariant
            doc.wf(),
            doc.contains(el),
            doc.node_wf(el),
            !is_candidate(doc, el),
            count == doc.children_of(el).len(),
            i <= count,
            out@ + spec_candidates_among(doc, el, i as int) == old(out)@ + spec_candidates(
                doc,
                el,
            ),
        decreases count - i,
    {
        let ghost before = out@;
        match doc.child_at(el, i) {
            Some(child) => {
                assert(doc.child_wf(el, i as int));
                collect_candidates(doc, child, out);
            },
            None => {},
        }
        assert(out@ + spec_candidates_among(doc, el, i + 1) =~= before + spec_candidates_among(
            doc,
            el,
            i as int,
        ));
        i += 1;
    }
    assert(out@ + Seq::<Element>::empty() =~= out@);
}

/// Twice the vertical distance from `ty` to the line band of `e`.
pub open spec fn y_distance(doc: &Document, e: Element, ty: int) -> int {
    let p = spec_placement_for_text(doc, e);
    band_distance_doubled(ty, p.y as int, p.height as int)
}

/// Twice the horizontal distance from `tx` to the extent of `e`.
pub open spec fn x_distance(doc: &Document, e: Element, tx: int) -> int {
    let p = spec_placement_for_text(doc, e);
    band_distance_doubled(tx, p.x as int, p.width as int)
}

/// The `j`-th candidate lies on the nearest line: its vertical distance
/// exceeds no other candidate's by more than the tolerance.
pub open spec fn on_nearest_line(doc: &Document, cands: Seq<Element>, ty: int, j: int) -> bool {
    &&& 0 <= j < cands.len()
    &&& forall|i: int|
        0 <= i < cands.len() ==> y_distance(doc, cands[j], ty) <= #[trigger] y_distance(
            doc,
            cands[i],
            ty,
        ) + 2 * Y_TOLERANCE
}

/// The `k`-th candidate is the nearest: it lies on the nearest line, and of
/// the candidates on that line it is the first with the least horizontal
/// distance.
pub open spec fn is_nearest(doc: &Document, cands: Seq<Element>, tx: int, ty: int, k: int) -> bool {
    &&& on_nearest_line(doc, cands, ty, k)
    &&& forall|j: int| #[trigger]
        on_nearest_line(doc, cands, ty, j) ==> x_distance(doc, cands[k], tx) < x_distance(
            doc,
            cands[j],
            tx,
        ) || (x_distance(doc, cands[k], tx) == x_distance(doc, cands[j], tx) && k <= j)
}

/// The text leaf nearest to the point `(tx, ty)` among the candidates under
/// `e`; `None` when there is no candidate.
pub open spec fn spec_closest_text_leaf(doc: &Document, e: Element, tx: int, ty: int) -> Option<
    Element,
> {
    let cands = spec_candidates(doc, e);
    if cands.len() == 0 {
        None
    } else {
        Some(cands[choose|k: int| is_nearest(doc, cands, tx, ty, k)])
    }
}

/// At most one candidate is the nearest.
pub proof fn lemma_nearest_unique(
    doc: &Document,
    cands: Seq<Element>,
    tx: int,
    ty: int,
    k1: int,
    k2: int,
)
    requires
        is_nearest(doc, cands, tx, ty, k1),
        is_nearest(doc, cands, tx, ty, k2),
    ensures
        k1 == k2,
{
}

/// Finds the closest text leaf under `el` that holds more than white space.
///
/// Keeps the leaves whose line band is nearest to `target_y`, within
/// [`Y_TOLERANCE`], and of those returns the one nearest to `target_x`; the
/// first in document order when several are equally near.
pub fn closest_text_leaf(doc: &Document, el: Element, target_x: i64, target_y: i64) -> (r: Option<
    Element,
>)
    requires
        doc.wf(),
        doc.contains(el),
    ensures
        r == spec_closest_text_leaf(doc, el, target_x as int, target_y as int),
        r is Some ==> doc.contains(r.unwrap()) && is_candidate(doc, r.unwrap()),
{
    let mut candidates: Vec<Element> = Vec::new();
    collect_candidates(doc, el, &mut candidates);
    let ghost cands = spec_candidates(doc, el);
    assert(candidates@ =~= cands);
    proof {
        lemma_candidates_are_candidates(doc, el);
    }
    let n: usize = candidates.len();
    if n == 0 {
        return None;
    }
    let ghost tx = target_x as int;
    let ghost ty = target_y as int;

    let first = placement_for_text(doc, candidates[0]);
    let mut min_y_dist: i128 = band_distance(target_y, first.y, first.height);
    let mut i: usize = 1;
    assert(min_y_dist == y_distance(doc, cands[0], ty));
    while i < n
        invariant
            doc.wf(),
            candidates@ == cands,
            n == cands.len(),
            1 <= i <= n,
            ty == target_y as int,
            all_candidates(doc, cands),
            forall|j: int| 0 <= j < i ==> min_y_dist <= #[trigger] y_distance(doc, cands[j], ty),
            exists|j: int| 0 <= j < i && min_y_dist == #[trigger] y_distance(doc, cands[j], ty),
            0 <= min_y_dist <= 0x8_0000_0000_0000_0000,
        decreases n - i,
    {
        let p = placement_for_text(doc, candidates[i]);
        let d = band_distance(target_y, p.y, p.height);
        assert(d == y_distance(doc, cands[i as int], ty));
        if d < min_y_dist {
            min_y_dist = d;
        }
        i += 1;
    }
    let limit: i128 = min_y_dist + 2 * (Y_TOLERANCE as i128);
    assert forall|j: int| 0 <= j < n implies (on_nearest_line(doc, cands, ty, j) <==> y_distance(
        doc,
        cands[j],
        ty,
    ) <= limit) by {
        let m = choose|m: int| 0 <= m < n && min_y_dist == #[trigger] y_distance(doc, cands[m], ty);
        if on_nearest_line(doc, cands, ty, j) {
            assert(y_distance(doc, cands[j], ty) <= y_distance(doc, cands[m], ty) + 2
                * Y_TOLERANCE);
        }
    }

    let mut best: Option<usize> = None;
    let mut best_x_dist: i128 = 0;
    let mut j: usize = 0;
    while j < n
        invariant
            doc.wf(),
            candidates@ == cands,
            n == cands.len(),
            j <= n,
            tx == target_x as int,
            ty == target_y as int,
            all_candidates(doc, cands),
            forall|k: int|
                0 <= k < n ==> (#[trigger] on_nearest_line(doc, cands, ty, k) <==> y_distance(
                    doc,
                    cands[k],
                    ty,
                ) <= limit),
            match best {
                Some(b) => {
                    &&& b < j
                    &&& on_nearest_line(doc, cands, ty, b as int)
                    &&& best_x_dist == x_distance(doc, cands[b as int], tx)
                    &&& forall|k: int|
                        0 <= k < j && #[trigger] on_nearest_line(doc, cands, ty, k) ==> best_x_dist
                            < x_distance(doc, cands[k], tx) || (best_x_dist == x_distance(
                            doc,
                            cands[k],
                            tx,
                        ) && b <= k)
                },
                None => forall|k: int| 0 <= k < j ==> !#[trigger] on_nearest_line(doc, cands, ty, k),
            },
        decreases n - j,
    {
        let p = placement_for_text(doc, candidates[j]);
        let yd = band_distance(target_y, p.y, p.height);
        assert(yd == y_distance(doc, cands[j as int], ty));
        if yd <= limit {
            let xd = band_distance(target_x, p.x, p.width);
            assert(xd == x_distance(doc, cands[j as int], tx));
            match best {
                Some(_) => {
                    if xd < best_x_dist {
                        best = Some(j);
                        best_x_dist = xd;
                    }
                },
                None => {
                    best = Some(j);
                    best_x_dist = xd;
                },
            }
        }
        j += 1;
    }
    proof {
        let m = choose|m: int| 0 <= m < n && min_y_dist == #[trigger] y_distance(doc, cands[m], ty);
        assert(on_nearest_line(doc, cands, ty, m));
    }
    match best {
        Some(b) => {
            proof {
                assert(is_nearest(doc, cands, tx, ty, b as int));
                let c = choose|k: int| is_nearest(doc, cands, tx, ty, k);
                lemma_nearest_unique(doc, cands, tx, ty, b as int, c);
            }
            Some(candidates[b])
        },
        None => None,
    }
}

} // verus!

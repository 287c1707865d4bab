//! The text measurement capability that the selection engine consumes.
//!
//! A measure is any function from a text and a font handle to the width of
//! that text, in sub-pixel units. The engine relies on it being total and
//! pure: the same text and font always give the same width.

use vstd::prelude::*;

verus! {

/// `w` is a width that `m` may return for `text` in `font`.
pub open spec fn measures<F: Fn(&str, usize) -> i32>(
    m: &F,
    text: Seq<char>,
    font: usize,
    w: i32,
) -> bool {
    exists|t: &str| t@ == text && #[trigger] m.ensures((t, font), w)
}

/// `m` accepts every text and font, and its result depends on nothing but
/// the code points of the text and the font.
pub open spec fn is_text_measure<F: Fn(&str, usize) -> i32>(m: &F) -> bool {
    &&& forall|t: &str, font: usize| #[trigger] m.requires((t, font))
    &&& forall|t1: &str, t2: &str, font: usize, w1: i32, w2: i32|
        #![trigger m.ensures((t1, font), w1), m.ensures((t2, font), w2)]
        t1@ == t2@ && m.ensures((t1, font), w1) && m.ensures((t2, font), w2) ==> w1 == w2
}

/// The width of `text` in `font` according to `m`.
pub open spec fn measured_width<F: Fn(&str, usize) -> i32>(
    m: &F,
    text: Seq<char>,
    font: usize,
) -> int {
    (choose|w: i32| measures(m, text, font, w)) as int
}

/// Measures `text` in `font`.
pub fn measure_width<F: Fn(&str, usize) -> i32>(m: &F, text: &str, font: usize) -> (w: i32)
    requires
        is_text_measure(m),
    ensures
        w == measured_width(m, text@, font),
{
    let w = m(text, font);
    proof {
        assert(measures(m, text@, font, w));
        let chosen = choose|c: i32| measures(m, text@, font, c);
        assert(measures(m, text@, font, chosen));
        let t = choose|t: &str| t@ == text@ && #[trigger] m.ensures((t, font), chosen);
        assert(m.ensures((text, font), w) && m.ensures((t, font), chosen));
    }
    w
}

} // verus!

//! CSS `text-transform` applied to a run of text.

use crate::text::{char_is_whitespace, is_whitespace, push_char};
use crate::types::TextTransform;
use vstd::prelude::*;

verus! {

/// The upper-case form of a text, by the Unicode case mapping.
pub uninterp spec fn uppercased(text: Seq<char>) -> Seq<char>;

/// The lower-case form of a text, by the Unicode case mapping.
pub uninterp spec fn lowercased(text: Seq<char>) -> Seq<char>;

/// The upper-case form of one code point, which may be several code points.
pub uninterp spec fn char_uppercased(c: char) -> Seq<char>;

/// Whether a code point has the Unicode `Alphabetic` property.
pub uninterp spec fn is_alphabetic(c: char) -> bool;

/// The upper-case form of `text`.
///
/// Wraps `str::to_uppercase`, whose result depends on the text alone.
#[verifier::external_body]
fn str_to_uppercase(text: &str) -> (r: String)
    ensures
        r@ == uppercased(text@),
{
    text.to_uppercase()
}

/// The lower-case form of `text`.
///
/// Wraps `str::to_lowercase`, whose result depends on the text alone.
#[verifier::external_body]
fn str_to_lowercase(text: &str) -> (r: String)
    ensures
        r@ == lowercased(text@),
{
    text.to_lowercase()
}

/// The upper-case form of `c`.
///
/// Wraps `char::to_uppercase`, which yields the one or more code points that
/// `c` maps to; they depend on `c` alone.
#[verifier::external_body]
fn char_to_uppercase(c: char) -> (r: Vec<char>)
    ensures
        r@ == char_uppercased(c),
{
    c.to_uppercase().collect()
}

/// Whether `c` is alphabetic.
///
/// Wraps `char::is_alphabetic`, which tests the Unicode `Alphabetic`
/// property of `c`.
#[verifier::external_body]
fn char_is_alphabetic(c: char) -> (r: bool)
    ensures
        r == is_alphabetic(c),
{
    c.is_alphabetic()
}

/// The text from offset `i` on with the first letter of every word in upper
/// case. `pending` says whether the next letter starts a word: it does at
/// the start of the text and after white space, until a letter is met.
pub open spec fn capitalized_from(text: Seq<char>, i: int, pending: bool) -> Seq<char>
    decreases text.len() - i,
{
    if i < 0 || i >= text.len() {
        Seq::empty()
    } else if pending && is_alphabetic(text[i]) {
        char_uppercased(text[i]) + capitalized_from(text, i + 1, false)
    } else {
        seq![text[i]] + capitalized_from(text, i + 1, pending || is_whitespace(text[i]))
    }
}

/// The text with the given transform applied.
pub open spec fn spec_transform_text(text: Seq<char>, tt: TextTransform) -> Seq<char> {
    match tt {
        TextTransform::Uppercase => uppercased(text),
        TextTransform::Lowercase => lowercased(text),
        TextTransform::Capitalize => capitalized_from(text, 0, true),
        TextTransform::Nothing => text,
    }
}

/// Puts the first letter of every word of `text` in upper case.
pub fn capitalize(text: &str) -> (r: String)
    ensures
        r@ == capitalized_from(text@, 0, true),
{
    let mut result = String::new();
    let mut capitalize_next = true;
    assert(result@ + capitalized_from(text@, 0, true) =~= capitalized_from(text@, 0, true));
    for ch in it: text.chars()
        invariant
            it.seq() == text@,
            result@ + capitalized_from(text@, it.index() as int, capitalize_next)
                == capitalized_from(text@, 0, true),
    {
        let ghost before = result@;
        let ghost pending = capitalize_next;
        if capitalize_next && char_is_alphabetic(ch) {
            let upper = char_to_uppercase(ch);
            let mut k: usize = 0;
            while k < upper.len()
                invariant
                    k <= upper.len(),
                    result@ == before + upper@.take(k as int),
                decreases upper.len() - k,
            {
                push_char(&mut result, upper[k]);
                assert(upper@.take(k + 1) =~= upper@.take(k as int).push(upper@[k as int]));
                k += 1;
            }
            assert(upper@.take(upper@.len() as int) =~= upper@);
            capitalize_next = false;
        } else {
            push_char(&mut result, ch);
            assert(result@ =~= before + seq![ch]);
            if char_is_whitespace(ch) {
                capitalize_next = true;
            }
        }
        assert(result@ + capitalized_from(text@, it.index() + 1, capitalize_next) =~= before
            + capitalized_from(text@, it.index() as int, pending));
    }
    assert(result@ + Seq::<char>::empty() =~= result@);
    result
}

/// Applies a CSS `text-transform` to `text`.
pub fn transform_text(text: &str, tt: TextTransform) -> (r: String)
    ensures
        r@ == spec_transform_text(text@, tt),
{
    match tt {
        TextTransform::Uppercase => str_to_uppercase(text),
        TextTransform::Lowercase => str_to_lowercase(text),
        TextTransform::Capitalize => capitalize(text),
        TextTransform::Nothing => text.to_owned(),
    }
}

} // verus!

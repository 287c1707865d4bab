//! Decoding of raw e-mail HTML into text.
//!
//! The character encoding is taken from a byte order mark, or else from the
//! first `charset` declaration near the start of the markup, or else the
//! bytes are read as UTF-8 where they are valid and as Windows-1252 where
//! they are not.

use crate::email::scan::{
    copy_range,
    find_match,
    first_match,
    from_chars,
    lower_seq,
    set_of,
    to_ascii_lower,
    to_chars,
    CharSet,
    Space,
};
use crate::email::tags::{
    after_equals,
    find_after_equals,
    find_trim,
    find_value,
    trim_bounds,
    value_bounds,
};
use vstd::prelude::*;
use vstd::slice::slice_subrange;
use vstd::utf8::{decode_utf8, encode_utf8, encode_utf8_decode_utf8, encode_utf8_valid_utf8, valid_utf8};

verus! {

/// How many bytes at the start of the input are searched for a `charset`
/// declaration.
pub const META_SCAN_LIMIT: usize = 4096;

/// The label of the encoding that a byte order mark at the start of `bytes`
/// stands for, if there is one.
pub open spec fn spec_detect_bom(bytes: Seq<u8>) -> Option<Seq<char>> {
    if bytes.len() >= 3 && bytes[0] == 0xEF && bytes[1] == 0xBB && bytes[2] == 0xBF {
        Some("utf-8"@)
    } else if bytes.len() >= 2 && bytes[0] == 0xFF && bytes[1] == 0xFE {
        Some("utf-16le"@)
    } else if bytes.len() >= 2 && bytes[0] == 0xFE && bytes[1] == 0xFF {
        Some("utf-16be"@)
    } else {
        None
    }
}

/// Detects a byte order mark at the start of `bytes` and returns the label
/// of the encoding it stands for.
pub fn detect_bom(bytes: &[u8]) -> (r: Option<&'static str>)
    ensures
        match r {
            Some(label) => spec_detect_bom(bytes@) == Some(label@),
            None => spec_detect_bom(bytes@) is None,
        },
{
    let n: usize = bytes.len();
    if n >= 3 && bytes[0] == 0xEF && bytes[1] == 0xBB && bytes[2] == 0xBF {
        Some("utf-8")
    } else if n >= 2 && bytes[0] == 0xFF && bytes[1] == 0xFE {
        Some("utf-16le")
    } else if n >= 2 && bytes[0] == 0xFE && bytes[1] == 0xFF {
        Some("utf-16be")
    } else {
        None
    }
}

/// The encoding label that the markup declares: the value that follows the
/// first `charset`, compared without regard to case, and an `=`, without
/// quotes and surrounding white space, in lower case. There is none when the
/// markup holds no `charset`, when no `=` follows it, or when the value is
/// empty.
pub open spec fn spec_meta_charset_label(html: Seq<char>) -> Option<Seq<char>> {
    let lower = lower_seq(html);
    match first_match(lower, 0, "charset"@) {
        None => None,
        Some(pos) => match after_equals(lower, pos + "charset"@.len()) {
            None => None,
            Some(i) => {
                let (a, b) = value_bounds(
                    lower,
                    i,
                    set_of(Space::Ascii, seq!['"', '\'', ';', '>']),
                );
                let (start, end) = trim_bounds(lower, a, b);
                if start == end {
                    None
                } else {
                    Some(lower.subrange(start, end))
                }
            },
        },
    }
}

/// Finds the encoding label declared by `<meta charset="...">` or by
/// `<meta http-equiv="Content-Type" content="...charset=...">`.
pub fn detect_meta_charset(html: &str) -> (r: Option<String>)
    ensures
        match r {
            Some(label) => spec_meta_charset_label(html@) == Some(label@),
            None => spec_meta_charset_label(html@) is None,
        },
{
    let chars = to_chars(html);
    let lower = to_ascii_lower(chars.as_slice());
    let n: usize = lower.len();
    let word = to_chars("charset");
    let pos = match find_match(lower.as_slice(), 0, word.as_slice()) {
        Some(pos) => pos,
        None => {
            return None;
        },
    };
    let i = match find_after_equals(lower.as_slice(), pos + word.len()) {
        Some(i) => i,
        None => {
            return None;
        },
    };
    let stop = CharSet::of(Space::Ascii, vec!['"', '\'', ';', '>']);
    assert(stop@.chars =~= seq!['"', '\'', ';', '>']);
    let (a, b) = find_value(lower.as_slice(), i, &stop);
    let (start, end) = find_trim(lower.as_slice(), a, b);
    if start == end {
        return None;
    }
    let label = copy_range(lower.as_slice(), start, end);
    Some(from_chars(label.as_slice()))
}

/// The text that `bytes` decode to in the encoding that `label` names;
/// `None` where `label` names no encoding.
pub uninterp spec fn decoded_with_label(label: Seq<char>, bytes: Seq<u8>) -> Option<Seq<char>>;

/// The labels this module itself decodes with.
pub open spec fn is_standard_label(label: Seq<char>) -> bool {
    ||| label == "utf-8"@
    ||| label == "utf-16le"@
    ||| label == "utf-16be"@
    ||| label == "windows-1252"@
}

/// Decodes `bytes` in the encoding that `label` names.
///
/// Wraps `Encoding::for_label` and `Encoding::decode` of `encoding_rs`: the
/// label is looked up as the Encoding Standard says, and the bytes are
/// decoded with malformed sequences replaced, a byte order mark taking
/// precedence over the label. The result is a function of the label and the
/// bytes alone; there is none exactly where the label is unknown, which the
/// four standard labels are not.
#[verifier::external_body]
fn decode_with_label(label: &str, bytes: &[u8]) -> (r: Option<String>)
    ensures
        match r {
            Some(text) => decoded_with_label(label@, bytes@) == Some(text@),
            None => decoded_with_label(label@, bytes@) is None,
        },
        is_standard_label(label@) ==> r is Some,
{
    let encoding = encoding_rs::Encoding::for_label(label.as_bytes())?;
    Some(encoding.decode(bytes).0.into_owned())
}

/// Reads `bytes` as UTF-8.
///
/// Wraps `std::str::from_utf8`, which succeeds exactly on valid UTF-8 and
/// then gives the bytes back as text.
#[verifier::external_body]
fn utf8_text(bytes: &[u8]) -> (r: Option<&str>)
    ensures
        match r {
            Some(text) => encode_utf8(text@) == bytes@,
            None => !valid_utf8(bytes@),
        },
{
    std::str::from_utf8(bytes).ok()
}

/// `bytes` read as UTF-8 where they are valid UTF-8, and as Windows-1252
/// where they are not.
pub open spec fn decoded_by_default(bytes: Seq<u8>) -> Seq<char> {
    if valid_utf8(bytes) {
        decode_utf8(bytes)
    } else {
        decoded_with_label("windows-1252"@, bytes).unwrap()
    }
}

/// The start of `bytes` that is searched for a `charset` declaration.
pub open spec fn scan_prefix(bytes: Seq<u8>) -> Seq<u8> {
    if bytes.len() <= META_SCAN_LIMIT {
        bytes
    } else {
        bytes.take(META_SCAN_LIMIT as int)
    }
}

/// The text that raw e-mail HTML decodes to.
///
/// A byte order mark decides the encoding. Without one, the encoding that
/// the start of the markup declares is used, where its label is known.
/// Otherwise the default applies: UTF-8 where valid, else Windows-1252.
pub open spec fn spec_decode_html(bytes: Seq<u8>) -> Seq<char> {
    match spec_detect_bom(bytes) {
        Some(label) => decoded_with_label(label, bytes).unwrap(),
        None => match spec_meta_charset_label(decoded_by_default(scan_prefix(bytes))) {
            Some(label) => match decoded_with_label(label, bytes) {
                Some(text) => text,
                None => decoded_by_default(bytes),
            },
            None => decoded_by_default(bytes),
        },
    }
}

/// Decodes `bytes` as UTF-8 where valid, else as Windows-1252.
fn decode_by_default(bytes: &[u8]) -> (r: String)
    ensures
        r@ == decoded_by_default(bytes@),
{
    match utf8_text(bytes) {
        Some(text) => {
            proof {
                encode_utf8_decode_utf8(text@);
                encode_utf8_valid_utf8(text@);
            }
            text.to_owned()
        },
        None => decode_with_label("windows-1252", bytes).unwrap(),
    }
}

/// Decodes e-mail HTML bytes into a string.
///
/// Tries to detect the encoding from a byte order mark or from a `<meta>`
/// charset declaration within the first [`META_SCAN_LIMIT`] bytes. Falls
/// back to UTF-8, then to Windows-1252.
pub fn decode_html(bytes: &[u8]) -> (r: String)
    ensures
        r@ == spec_decode_html(bytes@),
{
    match detect_bom(bytes) {
        Some(label) => {
            return decode_with_label(label, bytes).unwrap();
        },
        None => {},
    }
    let n: usize = bytes.len();
    let scan_len: usize = if n < META_SCAN_LIMIT {
        n
    } else {
        META_SCAN_LIMIT
    };
    let prefix = slice_subrange(bytes, 0, scan_len);
    assert(prefix@ =~= scan_prefix(bytes@));
    let head = decode_by_default(prefix);
    match detect_meta_charset(head.as_str()) {
        Some(label) => match decode_with_label(label.as_str(), bytes) {
            Some(text) => {
                return text;
            },
            None => {},
        },
        None => {},
    }
    decode_by_default(bytes)
}

} // verus!

//! Image URIs found in e-mail HTML: `data:` URIs are decoded in place,
//! `cid:` and remote URIs are handed to the caller's resolvers.

use crate::email::scan::{
    copy_range,
    from_chars,
    is_ascii_space,
    is_match_at,
    matches_at,
    to_chars,
};
use crate::email::tags::{find_char, first_char};
use vstd::prelude::*;

verus! {

/// The value of a hexadecimal digit, given as an ASCII byte.
pub open spec fn spec_hex_val(b: u8) -> Option<u8> {
    if 0x30 <= b <= 0x39 {
        Some((b - 0x30) as u8)
    } else if 0x61 <= b <= 0x66 {
        Some((b - 0x61 + 10) as u8)
    } else if 0x41 <= b <= 0x46 {
        Some((b - 0x41 + 10) as u8)
    } else {
        None
    }
}

/// The value of a hexadecimal digit, given as an ASCII byte; `None` for any
/// other byte.
pub fn hex_val(b: u8) -> (r: Option<u8>)
    ensures
        r == spec_hex_val(b),
        r is Some ==> r.unwrap() < 16,
{
    if 0x30 <= b && b <= 0x39 {
        Some(b - 0x30)
    } else if 0x61 <= b && b <= 0x66 {
        Some(b - 0x61 + 10)
    } else if 0x41 <= b && b <= 0x46 {
        Some(b - 0x41 + 10)
    } else {
        None
    }
}

/// Whether an escape stands at offset `i`: a `%` followed by two
/// hexadecimal digits.
pub open spec fn escape_at(bytes: Seq<u8>, i: int) -> bool {
    &&& 0 <= i
    &&& i + 2 < bytes.len()
    &&& bytes[i] == 0x25
    &&& spec_hex_val(bytes[i + 1]) is Some
    &&& spec_hex_val(bytes[i + 2]) is Some
}

/// The bytes from offset `i` on with every escape replaced by the byte it
/// stands for; a `%` that opens no escape is kept.
pub open spec fn percent_decoded_from(bytes: Seq<u8>, i: int) -> Seq<u8>
    decreases bytes.len() - i,
{
    if i < 0 || i >= bytes.len() {
        Seq::empty()
    } else if escape_at(bytes, i) {
        seq![
            (spec_hex_val(bytes[i + 1]).unwrap() * 16 + spec_hex_val(bytes[i + 2]).unwrap()) as u8,
        ] + percent_decoded_from(bytes, i + 3)
    } else {
        seq![bytes[i]] + percent_decoded_from(bytes, i + 1)
    }
}

/// The percent-decoded form of `bytes`.
pub open spec fn percent_decoded(bytes: Seq<u8>) -> Seq<u8> {
    percent_decoded_from(bytes, 0)
}

/// Replaces every `%XX` escape in `input` by the byte it stands for.
pub fn percent_decode(input: &str) -> (r: Vec<u8>)
    ensures
        r@ == percent_decoded(vstd::utf8::encode_utf8(input@)),
{
    let bytes = input.as_bytes();
    let n: usize = bytes.len();
    let mut result: Vec<u8> = Vec::new();
    let mut i: usize = 0;
    assert(result@ + percent_decoded_from(bytes@, 0) =~= percent_decoded(bytes@));
    while i < n
        invariant
            n == bytes.len(),
            i <= n,
            result@ + percent_decoded_from(bytes@, i as int) == percent_decoded(bytes@),
        decreases n - i,
    {
        let ghost before = result@;
        let ghost at = i as int;
        let mut escaped = false;
        if bytes[i] == 0x25 && n - i > 2 {
            match (hex_val(bytes[i + 1]), hex_val(bytes[i + 2])) {
                (Some(hi), Some(lo)) => {
                    let value: u8 = hi << 4 | lo;
                    assert(value == hi * 16 + lo) by (bit_vector)
                        requires
                            value == hi << 4 | lo,
                            hi < 16,
                            lo < 16,
                    ;
                    result.push(value);
                    assert(result@ =~= before + seq![value]);
                    i += 3;
                    escaped = true;
                },
                _ => {},
            }
        }
        if !escaped {
            result.push(bytes[i]);
            assert(result@ =~= before + seq![bytes@[at]]);
            i += 1;
        }
        assert(result@ + percent_decoded_from(bytes@, i as int) =~= before + percent_decoded_from(
            bytes@,
            at,
        ));
    }
    assert(result@ + Seq::<u8>::empty() =~= result@);
    result
}

/// `s` without its ASCII white space, from offset `i` on.
pub open spec fn without_spaces_from(s: Seq<char>, i: int) -> Seq<char>
    decreases s.len() - i,
{
    if i < 0 || i >= s.len() {
        Seq::empty()
    } else if is_ascii_space(s[i]) {
        without_spaces_from(s, i + 1)
    } else {
        seq![s[i]] + without_spaces_from(s, i + 1)
    }
}

/// `s` without its ASCII white space.
pub open spec fn without_spaces(s: Seq<char>) -> Seq<char> {
    without_spaces_from(s, 0)
}

/// Removes all ASCII white space from `s`.
pub fn strip_spaces(s: &[char]) -> (r: Vec<char>)
    ensures
        r@ == without_spaces(s@),
{
    let mut result: Vec<char> = Vec::new();
    let mut i: usize = 0;
    assert(result@ + without_spaces_from(s@, 0) =~= without_spaces(s@));
    while i < s.len()
        invariant
            i <= s.len(),
            result@ + without_spaces_from(s@, i as int) == without_spaces(s@),
        decreases s.len() - i,
    {
        let ghost before = result@;
        let c = s[i];
        if !(c == ' ' || c == '\t' || c == '\n' || c == '\x0C' || c == '\r') {
            result.push(c);
            assert(result@ =~= before + seq![c]);
        }
        assert(result@ + without_spaces_from(s@, i + 1) =~= before + without_spaces_from(
            s@,
            i as int,
        ));
        i += 1;
    }
    assert(result@ + Seq::<char>::empty() =~= result@);
    result
}

/// `s` ends with `pat`.
pub open spec fn ends_with(s: Seq<char>, pat: Seq<char>) -> bool {
    matches_at(s, s.len() - pat.len(), pat)
}

/// The two parts of a `data:` URI that matter for decoding: whether its
/// header, the text between `data:` and the first comma, ends with
/// `;base64`, and the payload after that comma. There are none when the URI
/// does not start with `data:` or holds no comma.
pub open spec fn spec_split_data_uri(uri: Seq<char>) -> Option<(bool, Seq<char>)> {
    let start = "data:"@.len() as int;
    let comma = first_char(uri, start, ',');
    if !matches_at(uri, 0, "data:"@) || comma >= uri.len() {
        None
    } else {
        Some((ends_with(uri.subrange(start, comma), ";base64"@), uri.subrange(comma + 1, uri.len() as int)))
    }
}

/// Splits a `data:` URI into its encoding flag and its payload.
pub fn split_data_uri(uri: &str) -> (r: Option<(bool, String)>)
    ensures
        match r {
            Some((base64, data)) => spec_split_data_uri(uri@) == Some((base64, data@)),
            None => spec_split_data_uri(uri@) is None,
        },
{
    let chars = to_chars(uri);
    let n: usize = chars.len();
    let prefix = to_chars("data:");
    if !is_match_at(chars.as_slice(), 0, prefix.as_slice()) {
        return None;
    }
    let start: usize = prefix.len();
    let comma = find_char(chars.as_slice(), start, ',');
    if comma >= n {
        return None;
    }
    let header = copy_range(chars.as_slice(), start, comma);
    let marker = to_chars(";base64");
    let base64 = header.len() >= marker.len() && is_match_at(
        header.as_slice(),
        header.len() - marker.len(),
        marker.as_slice(),
    );
    let data = copy_range(chars.as_slice(), comma + 1, n);
    Some((base64, from_chars(data.as_slice())))
}

#[verifier::external_type_specification]
#[verifier::external_body]
pub struct ExDecodeError(base64::DecodeError);

/// What the standard base64 alphabet, with canonical padding, decodes `data`
/// to; `None` where `data` is no valid encoding.
pub uninterp spec fn base64_standard_decoded(data: Seq<char>) -> Option<Seq<u8>>;

/// Decodes base64 `data`.
///
/// Wraps `Engine::decode` of the `base64` crate on its `STANDARD` engine:
/// the result is a function of the input alone, and is an error exactly
/// where the input is no valid encoding.
#[verifier::external_body]
fn base64_decode(data: &str) -> (r: Result<Vec<u8>, base64::DecodeError>)
    ensures
        match r {
            Ok(bytes) => base64_standard_decoded(data@) == Some(bytes@),
            Err(_) => base64_standard_decoded(data@) is None,
        },
{
    base64::Engine::decode(&base64::engine::general_purpose::STANDARD, data)
}

/// What a base64 payload decodes to: the payload as it stands, or, where
/// that is no valid encoding, the payload without its ASCII white space.
pub open spec fn spec_decode_base64_payload(data: Seq<char>) -> Option<Seq<u8>> {
    match base64_standard_decoded(data) {
        Some(bytes) => Some(bytes),
        None => base64_standard_decoded(without_spaces(data)),
    }
}

/// Decodes a base64 payload, tolerating ASCII white space in it.
pub fn decode_base64_payload(data: &str) -> (r: Option<Vec<u8>>)
    ensures
        match r {
            Some(bytes) => spec_decode_base64_payload(data@) == Some(bytes@),
            None => spec_decode_base64_payload(data@) is None,
        },
{
    match base64_decode(data) {
        Ok(bytes) => Some(bytes),
        Err(_) => {
            let chars = to_chars(data);
            let cleaned = strip_spaces(chars.as_slice());
            let text = from_chars(cleaned.as_slice());
            match base64_decode(text.as_str()) {
                Ok(bytes) => Some(bytes),
                Err(_) => None,
            }
        },
    }
}

/// The bytes a `data:` URI stands for: its payload decoded as base64 when
/// the header says so, and percent-decoded otherwise.
pub open spec fn spec_decode_data_uri(uri: Seq<char>) -> Option<Seq<u8>> {
    match spec_split_data_uri(uri) {
        None => None,
        Some((base64, data)) => if base64 {
            spec_decode_base64_payload(data)
        } else {
            Some(percent_decoded(vstd::utf8::encode_utf8(data)))
        },
    }
}

/// Decodes a `data:` URI into raw bytes.
///
/// Supports the form `data:[<mediatype>][;base64],<data>`. Returns `None`
/// for URIs of another form and for base64 payloads that do not decode.
pub fn decode_data_uri(uri: &str) -> (r: Option<Vec<u8>>)
    ensures
        match r {
            Some(bytes) => spec_decode_data_uri(uri@) == Some(bytes@),
            None => spec_decode_data_uri(uri@) is None,
        },
{
    match split_data_uri(uri) {
        None => None,
        Some((base64, data)) => {
            if base64 {
                decode_base64_payload(data.as_str())
            } else {
                Some(percent_decode(data.as_str()))
            }
        },
    }
}

/// How an image URI is resolved.
pub enum UriKind {
    /// A `data:` URI, decoded in place.
    Data,
    /// A `cid:` URI; what follows the prefix goes to the cid resolver.
    Cid,
    /// Anything else goes to the URL fetcher.
    Remote,
}

/// The kind of `uri`, by its prefix.
pub open spec fn spec_uri_kind(uri: Seq<char>) -> UriKind {
    if matches_at(uri, 0, "data:"@) {
        UriKind::Data
    } else if matches_at(uri, 0, "cid:"@) {
        UriKind::Cid
    } else {
        UriKind::Remote
    }
}

/// What resolving `uri` may give.
///
/// A `data:` URI gives what it decodes to. A `cid:` URI gives what the cid
/// resolver returns for the text after the prefix, and nothing without a
/// resolver. Any other URI gives what the fetcher returns for it, and
/// nothing without a fetcher.
pub open spec fn resolves_to<C: Fn(&str) -> Option<Vec<u8>>, U: Fn(&str) -> Option<Vec<u8>>>(
    uri: Seq<char>,
    cid_resolver: Option<&C>,
    url_fetcher: Option<&U>,
    r: Option<Vec<u8>>,
) -> bool {
    match spec_uri_kind(uri) {
        UriKind::Data => match r {
            Some(bytes) => spec_decode_data_uri(uri) == Some(bytes@),
            None => spec_decode_data_uri(uri) is None,
        },
        UriKind::Cid => match cid_resolver {
            Some(resolve) => exists|cid: &str|
                cid@ == uri.subrange("cid:"@.len() as int, uri.len() as int)
                    && #[trigger] resolve.ensures((cid,), r),
            None => r is None,
        },
        UriKind::Remote => match url_fetcher {
            Some(fetch) => exists|url: &str| url@ == uri && #[trigger] fetch.ensures((url,), r),
            None => r is None,
        },
    }
}

/// Resolves an image URI to raw bytes.
///
/// - `data:` URIs are decoded inline.
/// - `cid:` URIs are passed, without the prefix, to the optional resolver.
/// - Any other URI is passed to the optional `url_fetcher`; without one it
///   resolves to nothing, so that nothing is fetched unless asked for.
pub fn resolve_image_uri<C: Fn(&str) -> Option<Vec<u8>>, U: Fn(&str) -> Option<Vec<u8>>>(
    uri: &str,
    cid_resolver: Option<&C>,
    url_fetcher: Option<&U>,
) -> (r: Option<Vec<u8>>)
    requires
        cid_resolver is Some ==> forall|s: &str| #[trigger] cid_resolver.unwrap().requires((s,)),
        url_fetcher is Some ==> forall|s: &str| #[trigger] url_fetcher.unwrap().requires((s,)),
    ensures
        resolves_to(uri@, cid_resolver, url_fetcher, r),
{
    let chars = to_chars(uri);
    let data_prefix = to_chars("data:");
    let cid_prefix = to_chars("cid:");
    if is_match_at(chars.as_slice(), 0, data_prefix.as_slice()) {
        decode_data_uri(uri)
    } else if is_match_at(chars.as_slice(), 0, cid_prefix.as_slice()) {
        match cid_resolver {
            Some(resolve) => {
                let rest = copy_range(chars.as_slice(), cid_prefix.len(), chars.len());
                let cid = from_chars(rest.as_slice());
                resolve(cid.as_str())
            },
            None => None,
        }
    } else {
        match url_fetcher {
            Some(fetch) => fetch(uri),
            None => None,
        }
    }
}

} // verus!

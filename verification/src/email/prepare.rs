//! The e-mail preprocessing pipeline: decode, rewrite attributes, sanitize,
//! and resolve the images that the markup refers to.

use crate::email::decode::{decode_html, spec_decode_html};
use crate::email::events::value_stop;
use crate::email::preprocess::{preprocess_attrs, spec_preprocess_attrs};
use crate::email::sanitize::{sanitize_html, spec_sanitize_html};
use crate::email::scan::{
    copy_range,
    find_match,
    first_match,
    from_chars,
    is_match_at,
    lemma_first_match,
    lower_seq,
    matches_at,
    to_ascii_lower,
    to_chars,
    CharSet,
    Space,
};
use crate::email::tags::{find_value, value_bounds};
use crate::email::uri::{resolve_image_uri, resolves_to};
use vstd::prelude::*;

verus! {

/// The user-agent style sheet for e-mail.
pub const EMAIL_MASTER_CSS: &'static str =
    "body { margin: 0; padding: 0; word-wrap: break-word; overflow-wrap: break-word; }\nimg { max-width: 100%; height: auto; }\ntable { border-collapse: collapse; mso-table-lspace: 0; mso-table-rspace: 0; }\ntd, th { padding: 0; }\na { color: inherit; }\np, h1, h2, h3, h4, h5, h6 { margin: 0; padding: 0; }\n";

/// Preprocessed e-mail ready for rendering.
#[derive(Debug, Clone)]
pub struct PreparedEmail {
    /// Sanitized markup, with image URIs intact.
    pub html: String,
    /// Resolved images: the URI as written in the markup, and its bytes.
    pub images: Vec<(String, Vec<u8>)>,
}

/// The value written after a `src=` that ends at offset `at`: between the
/// quotes when it is quoted, else up to the next ASCII white space or `>`.
pub open spec fn src_value(html: Seq<char>, at: int) -> Seq<char> {
    html.subrange(
        value_bounds(html, at, value_stop()).0,
        value_bounds(html, at, value_stop()).1,
    )
}

/// The values of the `src=` attributes found from offset `search_from` on,
/// in the order in which they stand. `src=` is found without regard to
/// case; one that ends the markup has no value.
pub open spec fn image_sources_from(html: Seq<char>, search_from: int) -> Seq<Seq<char>>
    decreases html.len() - search_from,
{
    match first_match(lower_seq(html), search_from, "src="@) {
        None => Seq::empty(),
        Some(pos) => {
            let at = pos + "src="@.len();
            proof {
                reveal_strlit("src=");
                lemma_first_match(lower_seq(html), search_from, "src="@);
            }
            if search_from < 0 || at >= html.len() {
                Seq::empty()
            } else {
                seq![src_value(html, at)] + image_sources_from(html, at)
            }
        },
    }
}

/// The values of all `src=` attributes of the markup.
pub open spec fn spec_image_sources(html: Seq<char>) -> Seq<Seq<char>> {
    image_sources_from(html, 0)
}

/// The views of a list of strings.
pub open spec fn string_views(v: Seq<String>) -> Seq<Seq<char>> {
    Seq::new(v.len(), |i: int| v[i]@)
}

/// Extracts the values of all `src=` attributes of the markup.
pub fn image_sources(html: &str) -> (r: Vec<String>)
    ensures
        string_views(r@) == spec_image_sources(html@),
{
    let chars = to_chars(html);
    let n: usize = chars.len();
    let lower = to_ascii_lower(chars.as_slice());
    let word = to_chars("src=");
    let stop = CharSet::of(Space::Ascii, vec!['>']);
    assert(stop@.chars =~= seq!['>']);
    let mut sources: Vec<String> = Vec::new();
    let mut search_from: usize = 0;
    assert(string_views(sources@) + image_sources_from(html@, 0) =~= spec_image_sources(html@));
    loop
        invariant
            chars@ == html@,
            n == chars.len(),
            lower@ == lower_seq(html@),
            word@ == "src="@,
            stop@ == value_stop(),
            search_from <= n,
            string_views(sources@) + image_sources_from(html@, search_from as int)
                == spec_image_sources(html@),
        ensures
            string_views(sources@) == spec_image_sources(html@),
        decreases n - search_from,
    {
        let ghost before = string_views(sources@);
        let ghost old_from = search_from as int;
        let pos = match find_match(lower.as_slice(), search_from, word.as_slice()) {
            Some(pos) => pos,
            None => {
                assert(before + Seq::<Seq<char>>::empty() =~= before);
                break ;
            },
        };
        proof {
            reveal_strlit("src=");
        }
        let at: usize = pos + word.len();
        search_from = at;
        if at >= n {
            assert(before + Seq::<Seq<char>>::empty() =~= before);
            break ;
        }
        let (a, b) = find_value(chars.as_slice(), at, &stop);
        let value = copy_range(chars.as_slice(), a, b);
        let uri = from_chars(value.as_slice());
        sources.push(uri);
        assert(string_views(sources@) =~= before + seq![src_value(html@, at as int)]);
        assert(string_views(sources@) + image_sources_from(html@, search_from as int) =~= before
            + image_sources_from(html@, old_from));
    }
    sources
}

/// A URI is resolved when it is a `data:` or `cid:` URI, or when a fetcher
/// for remote URIs is at hand.
pub open spec fn wants_resolution(uri: Seq<char>, has_fetcher: bool) -> bool {
    matches_at(uri, 0, "data:"@) || matches_at(uri, 0, "cid:"@) || has_fetcher
}

/// The view of a resolved image.
pub open spec fn image_view(image: (String, Vec<u8>)) -> (Seq<char>, Seq<u8>) {
    (image.0@, image.1@)
}

/// The views of a list of resolved images.
pub open spec fn image_views(images: Seq<(String, Vec<u8>)>) -> Seq<(Seq<char>, Seq<u8>)> {
    Seq::new(images.len(), |i: int| image_view(images[i]))
}

/// No or one image: the URI with its bytes, where there are any.
pub open spec fn resolved_image(uri: Seq<char>, outcome: Option<Vec<u8>>) -> Seq<
    (Seq<char>, Seq<u8>),
> {
    match outcome {
        Some(bytes) => seq![(uri, bytes@)],
        None => Seq::empty(),
    }
}

/// The images kept for the first `k` sources, given the outcome of resolving
/// each: every source whose outcome holds bytes, in order.
pub open spec fn kept_images(
    sources: Seq<Seq<char>>,
    outcomes: Seq<Option<Vec<u8>>>,
    k: int,
) -> Seq<(Seq<char>, Seq<u8>)>
    decreases k,
{
    if k <= 0 {
        Seq::empty()
    } else {
        kept_images(sources, outcomes, k - 1) + resolved_image(sources[k - 1], outcomes[k - 1])
    }
}

/// Appends the image to the list when resolving its URI gave bytes.
pub fn keep_resolved(images: &mut Vec<(String, Vec<u8>)>, uri: String, outcome: Option<Vec<u8>>)
    ensures
        image_views(final(images)@) == image_views(old(images)@) + resolved_image(uri@, outcome),
{
    match outcome {
        Some(bytes) => {
            images.push((uri, bytes));
            assert(image_views(images@) =~= image_views(old(images)@) + resolved_image(
                uri@,
                outcome,
            ));
        },
        None => {
            assert(image_views(images@) =~= image_views(old(images)@) + resolved_image(
                uri@,
                outcome,
            ));
        },
    }
}

/// `outcomes` are possible outcomes of resolving `sources`: for each source
/// that wants resolution, something that resolving it may give, and nothing
/// for each other source.
pub open spec fn possible_outcomes<C: Fn(&str) -> Option<Vec<u8>>, U: Fn(&str) -> Option<Vec<u8>>>(
    sources: Seq<Seq<char>>,
    cid_resolver: Option<&C>,
    url_fetcher: Option<&U>,
    outcomes: Seq<Option<Vec<u8>>>,
) -> bool {
    &&& outcomes.len() == sources.len()
    &&& forall|k: int|
        0 <= k < sources.len() ==> if wants_resolution(sources[k], url_fetcher is Some) {
            resolves_to(sources[k], cid_resolver, url_fetcher, #[trigger] outcomes[k])
        } else {
            outcomes[k] is None
        }
}

/// `images` are what resolving `sources` gave: there are possible outcomes
/// of resolving each source such that the images are exactly the sources
/// that gave bytes, in order, each with its bytes.
pub open spec fn images_resolved<C: Fn(&str) -> Option<Vec<u8>>, U: Fn(&str) -> Option<Vec<u8>>>(
    sources: Seq<Seq<char>>,
    cid_resolver: Option<&C>,
    url_fetcher: Option<&U>,
    images: Seq<(String, Vec<u8>)>,
) -> bool {
    exists|outcomes: Seq<Option<Vec<u8>>>| #[trigger]
        possible_outcomes(sources, cid_resolver, url_fetcher, outcomes) && image_views(images)
            == kept_images(sources, outcomes, outcomes.len() as int)
}

/// Full e-mail preprocessing pipeline: decodes the bytes, rewrites
/// attributes, sanitizes the markup, and resolves the images it refers to.
///
/// `data:` and `cid:` images are always resolved. Remote images are resolved
/// only when `url_fetcher` is given; without one they are skipped.
pub fn prepare_email_html<C: Fn(&str) -> Option<Vec<u8>>, U: Fn(&str) -> Option<Vec<u8>>>(
    raw: &[u8],
    cid_resolver: Option<&C>,
    url_fetcher: Option<&U>,
) -> (r: PreparedEmail)
    requires
        cid_resolver is Some ==> forall|s: &str| #[trigger] cid_resolver.unwrap().requires((s,)),
        url_fetcher is Some ==> forall|s: &str| #[trigger] url_fetcher.unwrap().requires((s,)),
    ensures
        r.html@ == spec_sanitize_html(spec_preprocess_attrs(spec_decode_html(raw@))),
        images_resolved(spec_image_sources(r.html@), cid_resolver, url_fetcher, r.images@),
{
    let decoded = decode_html(raw);
    let preprocessed = preprocess_attrs(decoded.as_str());
    let sanitized = sanitize_html(preprocessed.as_str());

    let sources = image_sources(sanitized.as_str());
    let ghost wanted = spec_image_sources(sanitized@);
    let count: usize = sources.len();
    let data_prefix = to_chars("data:");
    let cid_prefix = to_chars("cid:");
    let mut images: Vec<(String, Vec<u8>)> = Vec::new();
    let ghost mut outcomes: Seq<Option<Vec<u8>>> = Seq::empty();
    let mut k: usize = 0;
    assert(image_views(images@) =~= kept_images(wanted, outcomes, 0));
    while k < count
        invariant
            cid_resolver is Some ==> forall|s: &str| #[trigger]
                cid_resolver.unwrap().requires((s,)),
            url_fetcher is Some ==> forall|s: &str| #[trigger] url_fetcher.unwrap().requires((s,)),
            string_views(sources@) == wanted,
            count == sources.len(),
            data_prefix@ == "data:"@,
            cid_prefix@ == "cid:"@,
            k <= count,
            outcomes.len() == k,
            forall|j: int|
                0 <= j < k ==> if wants_resolution(wanted[j], url_fetcher is Some) {
                    resolves_to(wanted[j], cid_resolver, url_fetcher, #[trigger] outcomes[j])
                } else {
                    outcomes[j] is None
                },
            image_views(images@) == kept_images(wanted, outcomes, k as int),
        decreases count - k,
    {
        let uri = sources[k].clone();
        assert(uri@ == wanted[k as int]);
        let chars = to_chars(uri.as_str());
        let is_local = is_match_at(chars.as_slice(), 0, data_prefix.as_slice()) || is_match_at(
            chars.as_slice(),
            0,
            cid_prefix.as_slice(),
        );
        let outcome = if is_local || url_fetcher.is_some() {
            resolve_image_uri(uri.as_str(), cid_resolver, url_fetcher)
        } else {
            None
        };
        let ghost before = outcomes;
        proof {
            outcomes = outcomes.push(outcome);
            lemma_kept_images_prefix(wanted, before, outcomes, k as int);
        }
        keep_resolved(&mut images, uri, outcome);
        k += 1;
    }
    assert(wanted.len() == count) by {
        assert(string_views(sources@).len() == sources@.len());
    }
    assert(possible_outcomes(wanted, cid_resolver, url_fetcher, outcomes));
    assert(image_views(images@) == kept_images(wanted, outcomes, outcomes.len() as int));
    PreparedEmail { html: sanitized, images }
}

/// What is kept of the first `k` sources depends on their outcomes only.
pub proof fn lemma_kept_images_prefix(
    sources: Seq<Seq<char>>,
    a: Seq<Option<Vec<u8>>>,
    b: Seq<Option<Vec<u8>>>,
    k: int,
)
    requires
        0 <= k <= a.len(),
        k <= b.len(),
        forall|j: int| 0 <= j < k ==> a[j] == b[j],
    ensures
        kept_images(sources, a, k) == kept_images(sources, b, k),
    decreases k,
{
    if k > 0 {
        lemma_kept_images_prefix(sources, a, b, k - 1);
    }
}

} // verus!

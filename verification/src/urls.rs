//! URL parsing and percent-decoding, delegated to the `url` and `urlencoding` crates.
use vstd::prelude::*;
use vstd::utf8::{decode_utf8, encode_utf8, valid_utf8};

verus! {

/// The parts of a parsed URL that the library reads.
#[derive(Clone, Debug)]
pub struct UrlParts {
    /// `Url::host_str`.
    pub host: Option<String>,
    /// `Url::path`: the percent-encoded path, starting with `/` for hierarchical URLs.
    pub path: String,
    /// `Url::query_pairs`: the decoded `key=value` pairs of the query, in order.
    pub query: Vec<(String, String)>,
}

/// What `url::Url::parse` makes of `input`, as [`UrlParts`], or the text of the
/// `url::ParseError` it reports.
pub uninterp spec fn parsed_url(input: Seq<char>) -> Result<UrlParts, Seq<char>>;

/// Parses `input` with `url::Url::parse` and reads its host, path and query pairs;
/// a rejection is returned as the error's display text.
///
/// Trusted: the result is exactly the named [`parsed_url`] of the input; nothing
/// more is claimed about WHATWG URL parsing.
#[verifier::external_body]
pub fn parse_url_parts(input: &str) -> (r: Result<UrlParts, String>)
    ensures
        match r {
            Ok(p) => parsed_url(input@) == Ok::<UrlParts, Seq<char>>(p),
            Err(e) => parsed_url(input@) == Err::<UrlParts, Seq<char>>(e@),
        },
{
    match url::Url::parse(input) {
        Ok(u) => Ok(UrlParts {
            host: u.host_str().map(|h| h.to_string()),
            path: u.path().to_string(),
            query: u.query_pairs().map(|(k, v)| (k.into_owned(), v.into_owned())).collect(),
        }),
        Err(e) => Err(e.to_string()),
    }
}

/// Query pairs seen as character sequences.
pub open spec fn pair_views(q: Seq<(String, String)>) -> Seq<(Seq<char>, Seq<char>)> {
    q.map_values(|p: (String, String)| (p.0@, p.1@))
}

/// The serialization of the URL that `url::Url::parse` makes of `input`, after its
/// query is replaced by `pairs` (`None` when the input does not parse).
pub uninterp spec fn url_with_query(input: Seq<char>, pairs: Seq<(Seq<char>, Seq<char>)>) -> Option<
    Seq<char>,
>;

/// Parses `input` with `url::Url::parse`, clears its query, appends `pairs` with
/// `query_pairs_mut().extend_pairs`, and serializes the result.
///
/// Trusted: the result is the named [`url_with_query`]; it is `None` exactly when
/// the input is rejected, as with [`parse_url_parts`].
#[verifier::external_body]
pub fn replace_query(input: &str, pairs: &[(String, String)]) -> (r: Option<String>)
    ensures
        r matches Some(s) ==> url_with_query(input@, pair_views(pairs@)) == Some(s@),
        r is None ==> url_with_query(input@, pair_views(pairs@)) is None,
        r is None <==> parsed_url(input@) is Err,
{
    let mut u = url::Url::parse(input).ok()?;
    u.query_pairs_mut().clear().extend_pairs(pairs);
    Some(u.to_string())
}

/// The value of an ASCII hexadecimal digit.
pub open spec fn hex_digit_value(b: u8) -> Option<u8> {
    if 0x30 <= b <= 0x39 {
        Some((b - 0x30) as u8)
    } else if 0x41 <= b <= 0x46 {
        Some((b - 0x41 + 10) as u8)
    } else if 0x61 <= b <= 0x66 {
        Some((b - 0x61 + 10) as u8)
    } else {
        None
    }
}

/// Bytes with every `%` followed by two hex digits replaced by the byte they
/// denote; any other byte, `%` included, is kept.
pub open spec fn percent_decoded_bytes(b: Seq<u8>) -> Seq<u8>
    decreases b.len(),
{
    if b.len() == 0 {
        seq![]
    } else if b[0] == 0x25 && b.len() >= 3 && hex_digit_value(b[1]) is Some && hex_digit_value(
        b[2],
    ) is Some {
        seq![(hex_digit_value(b[1]).unwrap() * 16 + hex_digit_value(b[2]).unwrap()) as u8]
            + percent_decoded_bytes(b.skip(3))
    } else {
        seq![b[0]] + percent_decoded_bytes(b.drop_first())
    }
}

/// Percent-decoding of a string: decode the escapes in its UTF-8 bytes, then read
/// the bytes back as UTF-8 (`None` when they are not valid UTF-8).
pub open spec fn percent_decoded(s: Seq<char>) -> Option<Seq<char>> {
    let bytes = percent_decoded_bytes(encode_utf8(s));
    if valid_utf8(bytes) {
        Some(decode_utf8(bytes))
    } else {
        None
    }
}

/// Percent-decodes `s` with `urlencoding::decode`.
///
/// Trusted: the crate's source decodes each `%` with two hex digits to a byte and
/// keeps every other byte, then checks the bytes as UTF-8; that is [`percent_decoded`].
#[verifier::external_body]
pub fn percent_decode(s: &str) -> (r: Option<String>)
    ensures
        r matches Some(d) ==> percent_decoded(s@) == Some(d@),
        r is None ==> percent_decoded(s@) is None,
{
    urlencoding::decode(s).ok().map(|c| c.into_owned())
}

} // verus!

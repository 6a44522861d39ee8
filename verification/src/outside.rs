//! The calls into outside crates (`http`, `urlencoding`) and what this
//! library takes them to do.
use vstd::prelude::*;
use vstd::utf8::{decode_utf8, encode_utf8, valid_utf8};

verus! {

// ---------------------------------------------------------------------------
// http::HeaderMap
// ---------------------------------------------------------------------------

/// `http::HeaderMap`, carried through opaque.
#[verifier::external_type_specification]
#[verifier::external_body]
#[verifier::reject_recursive_types(T)]
pub struct ExHeaderMap<T>(http::HeaderMap<T>);

/// `http::HeaderValue`, carried through opaque: Verus needs it declared as
/// the default value type of `HeaderMap`.
#[verifier::external_type_specification]
#[verifier::external_body]
pub struct ExHeaderValue(http::HeaderValue);

/// What a header map holds: one `(name, value)` pair for every value stored
/// under every name, in the order in which `HeaderMap::iter` yields them; the
/// name as `HeaderName::as_str` gives it, the value as its raw bytes.
pub uninterp spec fn header_entries(headers: http::HeaderMap) -> Seq<(Seq<char>, Seq<u8>)>;

/// Calls `HeaderMap::iter` and hands out each pair as a name string
/// (`HeaderName::as_str`) and the value's bytes (`HeaderValue::as_bytes`).
/// The contract claims that the pairs are exactly `header_entries(headers)`,
/// in that order.
#[verifier::external_body]
pub(crate) fn header_pairs(headers: &http::HeaderMap) -> (r: Vec<(String, Vec<u8>)>)
    ensures
        r@.len() == header_entries(*headers).len(),
        forall|i: int|
            0 <= i < r@.len() ==> (#[trigger] r@[i].0@, r@[i].1@) == header_entries(*headers)[i],
{
    let mut out = Vec::new();
    for (name, value) in headers.iter() {
        out.push((name.as_str().to_string(), value.as_bytes().to_vec()));
    }
    out
}

// ---------------------------------------------------------------------------
// urlencoding::decode
// ---------------------------------------------------------------------------

/// The value of an ASCII hexadecimal digit.
pub open spec fn hex_value(b: u8) -> Option<u8> {
    if 48 <= b && b <= 57 {
        Some((b - 48) as u8)
    } else if 65 <= b && b <= 70 {
        Some((b - 55) as u8)
    } else if 97 <= b && b <= 102 {
        Some((b - 87) as u8)
    } else {
        None
    }
}

/// Percent-decoding of bytes as `urlencoding::decode_binary` does it: `%`
/// and two hex digits become that byte; a `%` that is not followed by two hex
/// digits is kept as it is; `+` and every other byte are kept.
pub open spec fn percent_decode_bytes(s: Seq<u8>) -> Seq<u8>
    decreases s.len(),
{
    if s.len() == 0 {
        Seq::empty()
    } else if s[0] == 37 {
        if s.len() < 3 {
            s
        } else {
            match (hex_value(s[1]), hex_value(s[2])) {
                (Some(hi), Some(lo)) => seq![(hi * 16 + lo) as u8] + percent_decode_bytes(s.skip(3)),
                (Some(_), None) => seq![s[0], s[1]] + percent_decode_bytes(s.skip(2)),
                (None, _) => seq![s[0]] + percent_decode_bytes(s.skip(1)),
            }
        }
    } else {
        seq![s[0]] + percent_decode_bytes(s.skip(1))
    }
}

/// What `urlencoding::decode` gives for `data`: the percent-decoded UTF-8
/// bytes of `data` as text, or nothing when they are not valid UTF-8.
pub open spec fn url_decoded(data: Seq<char>) -> Option<Seq<char>> {
    let bytes = percent_decode_bytes(encode_utf8(data));
    if valid_utf8(bytes) {
        Some(decode_utf8(bytes))
    } else {
        None
    }
}

/// Calls `urlencoding::decode`. The contract claims that it returns the text
/// `url_decoded` describes, and fails exactly when the decoded bytes are not
/// valid UTF-8 (the `FromUtf8Error` case).
#[verifier::external_body]
pub(crate) fn url_decode(data: &str) -> (r: Option<String>)
    ensures
        match r {
            Some(text) => url_decoded(data@) == Some(text@),
            None => url_decoded(data@) is None,
        },
{
    match urlencoding::decode(data) {
        Ok(text) => Some(text.into_owned()),
        Err(_) => None,
    }
}

} // verus!

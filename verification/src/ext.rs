//! The boundary to the outside crates. Each function here is a trusted
//! wrapper: its body makes one outside call and its contract states what that
//! call returns, either exactly (percent-decoding, UTF-8 validity) or under a
//! name for the result (base64 codings, URI parsing).

use vstd::prelude::*;
use vstd::utf8::valid_utf8;
use crate::bytes::PERCENT;
use crate::model::{UriParts, UriPartsV};
use base64::Engine;

verus! {

/// Value of a hexadecimal digit byte, if it is one.
pub open spec fn hex_digit_value(d: u8) -> Option<u8> {
    if 48 <= d <= 57 {
        Some((d - 48) as u8)
    } else if 65 <= d <= 70 {
        Some((d - 55) as u8)
    } else if 97 <= d <= 102 {
        Some((d - 87) as u8)
    } else {
        None
    }
}

/// Percent-decoding of a byte sequence: each `%` followed by two hex digits
/// becomes the byte they name. A `%` not followed by two hex digits stays
/// verbatim: alone when the next byte is no hex digit, together with a first
/// hex digit whose successor is no hex digit, and with whatever follows when
/// fewer than two bytes remain.
pub open spec fn percent_decode_spec(s: Seq<u8>) -> Seq<u8>
    decreases s.len(),
{
    if s.len() == 0 {
        seq![]
    } else if s[0] != PERCENT {
        seq![s[0]] + percent_decode_spec(s.skip(1))
    } else if s.len() < 3 {
        s
    } else {
        match hex_digit_value(s[1]) {
            None => seq![PERCENT] + percent_decode_spec(s.skip(1)),
            Some(hi) => match hex_digit_value(s[2]) {
                None => seq![PERCENT, s[1]] + percent_decode_spec(s.skip(2)),
                Some(lo) => seq![(hi * 16 + lo) as u8] + percent_decode_spec(s.skip(3)),
            },
        }
    }
}

/// Relies on urlencoding::decode_binary: percent-escapes are decoded and
/// malformed escapes are kept verbatim, exactly as `percent_decode_spec`
/// says; the call never fails.
#[verifier::external_body]
pub(crate) fn percent_decode(s: &Vec<u8>) -> (r: Vec<u8>)
    ensures
        r@ == percent_decode_spec(s@),
{
    urlencoding::decode_binary(s.as_slice()).into_owned()
}

/// Relies on std::str::from_utf8: it accepts exactly the byte sequences that
/// are valid UTF-8, which vstd's model `valid_utf8` describes.
#[verifier::external_body]
pub(crate) fn is_utf8(s: &Vec<u8>) -> (r: bool)
    ensures
        r == valid_utf8(s@),
{
    core::str::from_utf8(s.as_slice()).is_ok()
}

/// What base64's STANDARD engine (padded alphabet) decodes the input to:
/// `None` where it rejects the input.
pub uninterp spec fn b64_standard_decoded(s: Seq<u8>) -> Option<Seq<u8>>;

/// What base64's STANDARD engine encodes the input to.
pub uninterp spec fn b64_standard_encoded(b: Seq<u8>) -> Seq<u8>;

/// What base64's STANDARD_NO_PAD engine (unpadded alphabet) decodes the
/// input to: `None` where it rejects the input.
pub uninterp spec fn b64_nopad_decoded(s: Seq<u8>) -> Option<Seq<u8>>;

/// What base64's STANDARD_NO_PAD engine encodes the input to.
pub uninterp spec fn b64_nopad_encoded(b: Seq<u8>) -> Seq<u8>;

/// Relies on base64's Engine::decode with the STANDARD engine: the result is
/// a function of the input bytes alone.
#[verifier::external_body]
pub(crate) fn b64_decode_standard(s: &Vec<u8>) -> (r: Option<Vec<u8>>)
    ensures
        match r {
            Some(v) => b64_standard_decoded(s@) == Some(v@),
            None => b64_standard_decoded(s@) is None,
        },
{
    match base64::engine::general_purpose::STANDARD.decode(s.as_slice()) {
        Ok(v) => Some(v),
        Err(_) => None,
    }
}

/// Relies on base64's Engine::encode with the STANDARD engine: the result is
/// a function of the input bytes alone, and decoding with the same engine
/// gives the input back.
#[verifier::external_body]
pub(crate) fn b64_encode_standard(b: &Vec<u8>) -> (r: Vec<u8>)
    ensures
        r@ == b64_standard_encoded(b@),
        b64_standard_decoded(r@) == Some(b@),
{
    base64::engine::general_purpose::STANDARD.encode(b.as_slice()).into_bytes()
}

/// Relies on base64's Engine::decode with the STANDARD_NO_PAD engine: the
/// result is a function of the input bytes alone.
#[verifier::external_body]
pub(crate) fn b64_decode_nopad(s: &Vec<u8>) -> (r: Option<Vec<u8>>)
    ensures
        match r {
            Some(v) => b64_nopad_decoded(s@) == Some(v@),
            None => b64_nopad_decoded(s@) is None,
        },
{
    match base64::engine::general_purpose::STANDARD_NO_PAD.decode(s.as_slice()) {
        Ok(v) => Some(v),
        Err(_) => None,
    }
}

/// Relies on base64's Engine::encode with the STANDARD_NO_PAD engine: the
/// result is a function of the input bytes alone, and decoding with the same
/// engine gives the input back.
#[verifier::external_body]
pub(crate) fn b64_encode_nopad(b: &Vec<u8>) -> (r: Vec<u8>)
    ensures
        r@ == b64_nopad_encoded(b@),
        b64_nopad_decoded(r@) == Some(b@),
{
    base64::engine::general_purpose::STANDARD_NO_PAD.encode(b.as_slice()).into_bytes()
}

/// The parts that url::Url::parse reads out of the input, taken as UTF-8
/// text: `None` where the bytes are not UTF-8 or do not parse as a URI.
pub uninterp spec fn uri_parts_of(s: Seq<u8>) -> Option<UriPartsV>;

/// Relies on url::Url::parse and its component accessors (scheme, username,
/// host_str, port, query, fragment): the parts of a parsed URI are a function
/// of the input alone. The input bytes are read as UTF-8 text first; bytes
/// that are not, or text that does not parse as a URI, give `None`.
#[verifier::external_body]
pub(crate) fn parse_uri_parts(s: &Vec<u8>) -> (r: Option<UriParts>)
    ensures
        match r {
            Some(p) => uri_parts_of(s@) == Some(p@),
            None => uri_parts_of(s@) is None,
        },
{
    let text = core::str::from_utf8(s.as_slice()).ok()?;
    let url = url::Url::parse(text).ok()?;
    Some(UriParts {
        scheme: url.scheme().as_bytes().to_vec(),
        username: url.username().as_bytes().to_vec(),
        host: url.host_str().map(|h| h.as_bytes().to_vec()),
        port: url.port(),
        query: url.query().map(|q| q.as_bytes().to_vec()),
        fragment: url.fragment().map(|f| f.as_bytes().to_vec()),
    })
}

} // verus!

//! The calls into other crates. Each function here has a body that Verus
//! does not read: its contract is taken on trust, and says what the called
//! function's source or documentation shows.

use vstd::prelude::*;
use actix_web::error::PayloadError;
use actix_web::http::header::{ContentDisposition, HeaderName, HeaderValue};
use httparse::{Error, Status};
use crate::bytes::{absent, first_at};
use crate::header::{
    is_text, is_value, lines, lower, HeaderSyntax, Line, MediaType, MediaTypeView,
};

verus! {

/// `memchr::memmem::find`: the offset of the first occurrence of `needle` in
/// `hay`, or `None` where `needle` occurs nowhere in it.
#[verifier::external_body]
pub(crate) fn find(hay: &[u8], needle: &[u8]) -> (r: Option<usize>)
    ensures
        match r {
            Some(i) => first_at(hay@, needle@, i as int),
            None => absent(hay@, needle@),
        },
{
    memchr::memmem::find(hay, needle)
}

/// What `httparse::parse_headers` reads from `block` when it may store up
/// to `max` headers: the header lines in the order of the block,
/// `Ok(None)` where the block stops before its blank line, or the reason
/// for which the grammar refuses it.
pub uninterp spec fn httparse_headers(block: Seq<u8>, max: nat) -> Result<
    Option<Seq<Line>>,
    HeaderSyntax,
>;

/// `httparse::parse_headers` on `block`, with room for `max` headers. The
/// result is a function of the two arguments; the contract names it and
/// claims nothing else of it. Each header is handed out as a copy of its
/// name and of its value.
#[verifier::external_body]
pub(crate) fn parse_header_block(block: &[u8], max: usize) -> (r: Result<
    Option<Vec<(Vec<u8>, Vec<u8>)>>,
    HeaderSyntax,
>)
    ensures
        match (r, httparse_headers(block@, max as nat)) {
            (Ok(Some(found)), Ok(Some(named))) => lines(found@) == named,
            (Ok(None), Ok(None)) => true,
            (Err(e), Err(named)) => e == named,
            _ => false,
        },
{
    let mut slots = vec![httparse::EMPTY_HEADER; max];
    match httparse::parse_headers(block, &mut slots) {
        Ok(Status::Complete((_, found))) => Ok(Some(
            found.iter().map(|h| (h.name.as_bytes().to_vec(), h.value.to_vec())).collect(),
        )),
        Ok(Status::Partial) => Ok(None),
        Err(Error::HeaderName) => Err(HeaderSyntax::HeaderName),
        Err(Error::HeaderValue) => Err(HeaderSyntax::HeaderValue),
        Err(Error::NewLine) => Err(HeaderSyntax::NewLine),
        Err(Error::Status) => Err(HeaderSyntax::Status),
        Err(Error::Token) => Err(HeaderSyntax::Token),
        Err(Error::TooManyHeaders) => Err(HeaderSyntax::TooManyHeaders),
        Err(Error::Version) => Err(HeaderSyntax::Version),
    }
}

/// A byte that may stand in a header name: a letter, a digit, or one of
/// `! " # $ % & ' * + - . ^ _ ` | ~`.
pub open spec fn name_byte(b: u8) -> bool {
    ||| 33 <= b <= 39
    ||| b == 42
    ||| b == 43
    ||| b == 45
    ||| b == 46
    ||| 48 <= b <= 57
    ||| 65 <= b <= 90
    ||| 94 <= b <= 122
    ||| b == 124
    ||| b == 126
}

/// The longest header name, in bytes.
pub open spec fn max_name_len() -> int {
    65535
}

/// The normal form of a header name: its bytes with the letters in lower
/// case, where the name holds 1 to 65535 bytes that may all stand in a
/// header name, and `None` for any other name.
pub open spec fn http_header_name(raw: Seq<u8>) -> Option<Seq<u8>> {
    if 1 <= raw.len() <= max_name_len() && forall|i: int|
        0 <= i < raw.len() ==> name_byte(#[trigger] raw[i]) {
        Some(Seq::new(raw.len(), |i: int| lower(raw[i])))
    } else {
        None
    }
}

/// `HeaderName::from_bytes` of actix-web's `http::header`, followed by
/// `HeaderName::as_str`: the name in its normal form, or `None` where the
/// name is refused. The source refuses an empty name, a name of more than
/// 65535 bytes and a name with a byte that its table of header characters
/// maps to zero; it hands out every other name with its upper-case letters
/// in lower case.
#[verifier::external_body]
pub(crate) fn canonical_name(raw: &[u8]) -> (r: Option<Vec<u8>>)
    ensures
        match (r, http_header_name(raw@)) {
            (Some(name), Some(named)) => name@ == named,
            (None, None) => true,
            _ => false,
        },
{
    HeaderName::from_bytes(raw).ok().map(|name| name.as_str().as_bytes().to_vec())
}

/// `HeaderValue::from_bytes` of actix-web's `http::header` accepts a value
/// exactly when each byte of it is 32 or more and not 127, or is a tab.
#[verifier::external_body]
pub(crate) fn accepts_value(raw: &[u8]) -> (r: bool)
    ensures
        r == is_value(raw@),
{
    HeaderValue::from_bytes(raw).is_ok()
}

/// The media type that the `mime` crate reads from a text, or `None` where
/// the text is no media type.
pub uninterp spec fn mime_parse(text: Seq<u8>) -> Option<MediaTypeView>;

/// `<mime::Mime as FromStr>::from_str` on a header value that is text,
/// with the parts of the result that this library reads: the media type in
/// full (`as_ref`), its top-level type (`type_`), its subtype (`subtype`)
/// and its `boundary` parameter (`get_param`). The result is a function of
/// the text; the contract names it and claims nothing else of it.
#[verifier::external_body]
pub(crate) fn parse_media_type(text: &[u8]) -> (r: Option<MediaType>)
    requires
        is_text(text@),
    ensures
        match (r, mime_parse(text@)) {
            (Some(m), Some(named)) => m@ == named,
            (None, None) => true,
            _ => false,
        },
{
    let m = std::str::from_utf8(text).ok()?.parse::<mime::Mime>().ok()?;
    Some(MediaType {
        text: m.as_ref().as_bytes().to_vec(),
        kind: m.type_().as_str().as_bytes().to_vec(),
        subtype: m.subtype().as_str().as_bytes().to_vec(),
        boundary: m.get_param(mime::BOUNDARY).map(|b| b.as_str().as_bytes().to_vec()),
    })
}

/// The content disposition of actix-web. The decoder hands it on to the
/// reader of a part and never looks inside.
#[verifier::external_type_specification]
#[verifier::external_body]
pub struct ExContentDisposition(ContentDisposition);

/// The error of a request body's stream in actix-web. The decoder keeps
/// the one that ended a session and hands it back as it got it; it never
/// looks inside.
#[verifier::external_type_specification]
#[verifier::external_body]
pub struct ExPayloadError(PayloadError);

/// What `ContentDisposition::from_raw` reads from a header value, or
/// `None` where it refuses the value.
pub uninterp spec fn content_disposition_from_raw(raw: Seq<u8>) -> Option<ContentDisposition>;

/// `ContentDisposition::from_raw` of actix-web's `http::header`, on a
/// value that `HeaderValue::from_bytes` accepts. The result is a function of
/// the bytes; the contract names it and claims nothing else of it.
#[verifier::external_body]
pub(crate) fn parse_content_disposition(raw: &[u8]) -> (r: Option<ContentDisposition>)
    requires
        is_value(raw@),
    ensures
        r == content_disposition_from_raw(raw@),
{
    HeaderValue::from_bytes(raw).ok().and_then(|value| ContentDisposition::from_raw(&value).ok())
}

/// A byte of a UUID in its usual text form: a lower-case hexadecimal digit
/// or a hyphen.
pub open spec fn uuid_byte(b: u8) -> bool {
    (48 <= b <= 57) || (97 <= b <= 102) || b == 45
}

/// `Uuid::new_v4` of the `uuid` crate, written out with `to_string`: a
/// random UUID as 36 bytes, each a lower-case hexadecimal digit or a
/// hyphen. Which UUID comes back is left open. The call panics where the
/// system gives no random bytes.
#[verifier::external_body]
pub(crate) fn random_uuid() -> (r: Vec<u8>)
    ensures
        r@.len() == 36,
        forall|i: int| 0 <= i < 36 ==> uuid_byte(#[trigger] r@[i]),
{
    uuid::Uuid::new_v4().to_string().into_bytes()
}

} // verus!

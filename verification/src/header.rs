//! Header blocks: the list of name and value pairs that stands in front of
//! a part's body, and the few header values the decoder reads itself.

use vstd::prelude::*;
use vstd::string::StringSliceAdditionalSpecFns;
use actix_web::http::header::ContentDisposition;
use crate::bytes::{position, CR, LF};
use crate::error::{MultipartError, ParseError};
use crate::grammar::{blank_line, valid_boundary};
use crate::payload::{drop_front, Window};
use crate::trusted::{
    accepts_value, canonical_name, content_disposition_from_raw, http_header_name,
    httparse_headers, mime_parse, parse_content_disposition, parse_media_type,
};

verus! {

/// The most header lines a block may hold.
pub const MAX_HEADERS: usize = 32;

/// One header line as a value: its name and its value.
pub type Line = (Seq<u8>, Seq<u8>);

/// The lines of a list of headers, as values.
pub open spec fn lines(entries: Seq<(Vec<u8>, Vec<u8>)>) -> Seq<Line> {
    Seq::new(entries.len(), |i: int| (entries[i].0@, entries[i].1@))
}

/// The lower-case form of an ASCII letter; every other byte is itself.
pub open spec fn lower(b: u8) -> u8 {
    if 65 <= b <= 90 {
        (b + 32) as u8
    } else {
        b
    }
}

/// Two names are the same but for the case of ASCII letters.
pub open spec fn same_name(a: Seq<u8>, b: Seq<u8>) -> bool {
    a.len() == b.len() && forall|i: int| 0 <= i < a.len() ==> lower(a[i]) == lower(b[i])
}

/// Index of the first line at or after `from` whose name is `name`.
pub open spec fn index_of(h: Seq<Line>, name: Seq<u8>, from: int) -> Option<int>
    decreases h.len() - from,
{
    if from < 0 || from >= h.len() {
        None
    } else if same_name(h[from].0, name) {
        Some(from)
    } else {
        index_of(h, name, from + 1)
    }
}

/// The value of the first line whose name is `name`.
pub open spec fn lookup(h: Seq<Line>, name: Seq<u8>) -> Option<Seq<u8>> {
    match index_of(h, name, 0) {
        Some(i) => Some(h[i].1),
        None => None,
    }
}

/// A byte that a header value may be shown as text with: a tab or a
/// printable ASCII character.
pub open spec fn visible(b: u8) -> bool {
    (32 <= b < 127) || b == 9
}

/// A header value that is text: every byte of it is visible.
pub open spec fn is_text(value: Seq<u8>) -> bool {
    forall|i: int| 0 <= i < value.len() ==> visible(#[trigger] value[i])
}

/// A byte that may stand in a header value: anything from the space up,
/// but for the delete character, and the tab.
pub open spec fn value_byte(b: u8) -> bool {
    (b >= 32 && b != 127) || b == 9
}

/// A header value made of admissible bytes only.
pub open spec fn is_value(value: Seq<u8>) -> bool {
    forall|i: int| 0 <= i < value.len() ==> value_byte(#[trigger] value[i])
}

/// `content-type`.
pub open spec fn content_type_name() -> Seq<u8> {
    "content-type".spec_bytes()
}

/// `content-length`.
pub open spec fn content_length_name() -> Seq<u8> {
    "content-length".spec_bytes()
}

/// `content-disposition`.
pub open spec fn content_disposition_name() -> Seq<u8> {
    "content-disposition".spec_bytes()
}

/// `multipart`.
pub open spec fn multipart_name() -> Seq<u8> {
    "multipart".spec_bytes()
}

/// The value of a run of decimal digits.
pub open spec fn digits_value(s: Seq<u8>) -> nat
    decreases s.len(),
{
    if s.len() == 0 {
        0
    } else {
        digits_value(s.drop_last()) * 10 + (s.last() - 48) as nat
    }
}

/// Every byte is a decimal digit.
pub open spec fn all_digits(s: Seq<u8>) -> bool {
    forall|i: int| 0 <= i < s.len() ==> 48 <= #[trigger] s[i] <= 57
}

/// The digits of a number written with an optional plus sign in front.
pub open spec fn unsigned_digits(s: Seq<u8>) -> Seq<u8> {
    if s.len() > 0 && s[0] == 43 {
        s.subrange(1, s.len() as int)
    } else {
        s
    }
}

/// The number that a header value spells in decimal: an optional plus
/// sign, then at least one digit and nothing else, and a value that fits
/// in 64 bits.
pub open spec fn decimal(s: Seq<u8>) -> Option<u64> {
    let d = unsigned_digits(s);
    if d.len() > 0 && all_digits(d) && digits_value(d) <= u64::MAX {
        Some(digits_value(d) as u64)
    } else {
        None
    }
}

/// The value of a prefix of a run of digits is at most the value of the
/// whole run.
pub proof fn lemma_digits_monotone(s: Seq<u8>, k: int)
    requires
        all_digits(s),
        0 <= k <= s.len(),
    ensures
        digits_value(s.subrange(0, k)) <= digits_value(s),
    decreases s.len() - k,
{
    if k == s.len() {
        assert(s.subrange(0, k) =~= s);
    } else {
        lemma_digits_monotone(s, k + 1);
        let t = s.subrange(0, k + 1);
        assert(t.drop_last() =~= s.subrange(0, k));
        assert(48 <= s[k]);
        assert(t.last() == s[k]);
    }
}

/// Reads a decimal number.
pub fn parse_decimal(s: &[u8]) -> (r: Option<u64>)
    ensures
        r == decimal(s@),
{
    let start: usize = if s.len() > 0 && s[0] == 43 {
        1
    } else {
        0
    };
    let ghost d = unsigned_digits(s@);
    assert(d =~= s@.subrange(start as int, s@.len() as int));
    if start == s.len() {
        return None;
    }
    let mut value: u64 = 0;
    let mut i: usize = start;
    while i < s.len()
        invariant
            start <= i <= s@.len(),
            d == unsigned_digits(s@),
            d == s@.subrange(start as int, s@.len() as int),
            all_digits(d.subrange(0, i - start)),
            value == digits_value(d.subrange(0, i - start)),
        decreases s@.len() - i,
    {
        let b = s[i];
        let ghost before = d.subrange(0, i - start);
        let ghost after = d.subrange(0, i - start + 1);
        assert(after.drop_last() =~= before);
        assert(after.last() == b);
        if b < 48 || b > 57 {
            assert(d[i - start] == b);
            assert(!all_digits(d));
            return None;
        }
        assert(all_digits(after)) by {
            assert forall|j: int| 0 <= j < after.len() implies 48 <= #[trigger] after[j]
                <= 57 by {
                if j < before.len() {
                    assert(after[j] == before[j]);
                }
            }
        }
        let next = match value.checked_mul(10) {
            Some(v) => v.checked_add((b - 48) as u64),
            None => None,
        };
        match next {
            Some(v) => {
                value = v;
            },
            None => {
                proof {
                    assert(digits_value(after) > u64::MAX);
                    if all_digits(d) {
                        lemma_digits_monotone(d, i - start + 1);
                    }
                }
                return None;
            },
        }
        i += 1;
    }
    assert(d.subrange(0, i - start) =~= d);
    Some(value)
}

/// Whether two names are the same but for the case of ASCII letters.
pub fn name_eq(a: &[u8], b: &[u8]) -> (r: bool)
    ensures
        r == same_name(a@, b@),
{
    if a.len() != b.len() {
        return false;
    }
    let mut i: usize = 0;
    while i < a.len()
        invariant
            a@.len() == b@.len(),
            i <= a@.len(),
            forall|j: int| 0 <= j < i ==> lower(a@[j]) == lower(b@[j]),
        decreases a@.len() - i,
    {
        let x = a[i];
        let y = b[i];
        let lx: u8 = if 65 <= x && x <= 90 {
            x + 32
        } else {
            x
        };
        let ly: u8 = if 65 <= y && y <= 90 {
            y + 32
        } else {
            y
        };
        if lx != ly {
            return false;
        }
        i += 1;
    }
    true
}

/// Whether a header value is text.
pub fn value_is_text(value: &[u8]) -> (r: bool)
    ensures
        r == is_text(value@),
{
    let mut i: usize = 0;
    while i < value.len()
        invariant
            i <= value@.len(),
            forall|j: int| 0 <= j < i ==> visible(#[trigger] value@[j]),
        decreases value@.len() - i,
    {
        let b = value[i];
        if !((32 <= b && b < 127) || b == 9) {
            return false;
        }
        i += 1;
    }
    true
}

/// Why the header grammar refused a block.
#[derive(Clone, Copy, Debug, PartialEq, Eq, Structural)]
pub enum HeaderSyntax {
    /// A byte that cannot stand in a header name.
    HeaderName,
    /// A byte that cannot stand in a header value.
    HeaderValue,
    /// A byte that cannot stand in a line break.
    NewLine,
    /// A byte that cannot stand in a status.
    Status,
    /// A byte that cannot stand in a token.
    Token,
    /// More header lines than the block may hold.
    TooManyHeaders,
    /// A byte that cannot stand in a protocol version.
    Version,
}

/// A media type as a value: what was read from a `Content-Type` header.
pub struct MediaTypeView {
    /// The whole media type in its normal form, parameters and all.
    pub text: Seq<u8>,
    /// The top-level type, such as `application`.
    pub kind: Seq<u8>,
    /// The subtype, such as `dicom`.
    pub subtype: Seq<u8>,
    /// The value of the `boundary` parameter.
    pub boundary: Option<Seq<u8>>,
}

/// A media type read from a `Content-Type` header.
#[derive(Debug)]
pub struct MediaType {
    /// The whole media type in its normal form, parameters and all.
    pub text: Vec<u8>,
    /// The top-level type, such as `application`.
    pub kind: Vec<u8>,
    /// The subtype, such as `dicom`.
    pub subtype: Vec<u8>,
    /// The value of the `boundary` parameter.
    pub boundary: Option<Vec<u8>>,
}

impl View for MediaType {
    type V = MediaTypeView;

    open spec fn view(&self) -> MediaTypeView {
        MediaTypeView {
            text: self.text@,
            kind: self.kind@,
            subtype: self.subtype@,
            boundary: match self.boundary {
                Some(b) => Some(b@),
                None => None,
            },
        }
    }
}

/// The header lines of a block as the decoder keeps them: each name in
/// its normal form, each value as it is. A name or a value that cannot
/// stand in a header spoils the whole block.
pub open spec fn converted(raw: Seq<Line>) -> Option<Seq<Line>> {
    if forall|i: int|
        0 <= i < raw.len() ==> (#[trigger] http_header_name(raw[i].0)).is_some() && is_value(
            raw[i].1,
        ) {
        Some(Seq::new(raw.len(), |i: int| (http_header_name(raw[i].0).unwrap(), raw[i].1)))
    } else {
        None
    }
}

/// The error that stands for a refusal of the header grammar.
pub open spec fn syntax_error(e: HeaderSyntax) -> ParseError {
    match e {
        HeaderSyntax::HeaderName => ParseError::Header,
        HeaderSyntax::HeaderValue => ParseError::Header,
        HeaderSyntax::NewLine => ParseError::Header,
        HeaderSyntax::Token => ParseError::Header,
        HeaderSyntax::Status => ParseError::Status,
        HeaderSyntax::TooManyHeaders => ParseError::TooLarge,
        HeaderSyntax::Version => ParseError::Version,
    }
}

/// The headers of a block, given what the header grammar read from it.
pub open spec fn headers_from(parsed: Result<Option<Seq<Line>>, HeaderSyntax>) -> Result<
    Seq<Line>,
    MultipartError,
> {
    match parsed {
        Ok(Some(raw)) => match converted(raw) {
            Some(h) => Ok(h),
            None => Err(MultipartError::Parse(ParseError::Header)),
        },
        Ok(None) => Err(MultipartError::Parse(ParseError::Header)),
        Err(e) => Err(MultipartError::Parse(syntax_error(e))),
    }
}

/// The headers of a block of bytes that ends with a blank line.
pub open spec fn block_headers(block: Seq<u8>) -> Result<Seq<Line>, MultipartError> {
    headers_from(httparse_headers(block, MAX_HEADERS as nat))
}

/// Reading a header block: all bytes through the first blank line are
/// taken from the window and read as headers. Without a blank line the
/// step waits, and is `Incomplete` at the end of the source.
pub open spec fn headers_step(w: Window) -> (Result<Option<Seq<Line>>, MultipartError>, Window) {
    match position(w.buf, blank_line()) {
        Some(i) => (
            match block_headers(w.buf.subrange(0, i + 4)) {
                Ok(h) => Ok(Some(h)),
                Err(e) => Err(e),
            },
            drop_front(w, i + 4),
        ),
        None => if w.eof {
            (Err(MultipartError::Incomplete), w)
        } else {
            (Ok(None), w)
        },
    }
}

/// The media type that a part declares: the first `Content-Type` header,
/// where its value is text and a media type.
pub open spec fn content_type_of(h: Seq<Line>) -> Option<MediaTypeView> {
    match lookup(h, content_type_name()) {
        Some(v) => if is_text(v) {
            mime_parse(v)
        } else {
            None
        },
        None => None,
    }
}

/// The content disposition that a part declares: the first
/// `Content-Disposition` header, where its value can be read as one.
pub open spec fn content_disposition_of(h: Seq<Line>) -> Option<ContentDisposition> {
    match lookup(h, content_disposition_name()) {
        Some(v) => if is_value(v) {
            content_disposition_from_raw(v)
        } else {
            None
        },
        None => None,
    }
}

/// The length that a part declares: the first `Content-Length` header,
/// which has to be a decimal number.
pub open spec fn content_length_of(h: Seq<Line>) -> Result<Option<u64>, MultipartError> {
    match lookup(h, content_length_name()) {
        Some(v) => match decimal(v) {
            Some(n) => Ok(Some(n)),
            None => Err(MultipartError::TransportError),
        },
        None => Ok(None),
    }
}

/// What the decoder knows of a part before it reads the body.
pub struct PartHead {
    /// The header lines.
    pub headers: Seq<Line>,
    /// The media type, where the part declares one.
    pub content_type: Option<MediaTypeView>,
    /// The content disposition, where the part declares one.
    pub content_disposition: Option<ContentDisposition>,
    /// The length of the body, where the part declares one.
    pub length: Option<u64>,
}

/// The part that a list of headers announces. A part that is itself a
/// multipart message is refused, and so is a length that is no number.
pub open spec fn part_head(h: Seq<Line>) -> Result<PartHead, MultipartError> {
    let ct = content_type_of(h);
    if ct.is_some() && ct.unwrap().kind == multipart_name() {
        Err(MultipartError::NestedMultipartUnsupported)
    } else {
        match content_length_of(h) {
            Ok(length) => Ok(
                PartHead {
                    headers: h,
                    content_type: ct,
                    content_disposition: content_disposition_of(h),
                    length,
                },
            ),
            Err(e) => Err(e),
        }
    }
}

/// A media type that may be absent, as a value.
pub open spec fn media_view(m: Option<MediaType>) -> Option<MediaTypeView> {
    match m {
        Some(m) => Some(m@),
        None => None,
    }
}

/// The boundary token that the headers of a request declare: the
/// `boundary` parameter of its `Content-Type`, which has to be a media type.
/// A token that is empty or holds a line break counts as missing.
pub open spec fn boundary_of(h: Seq<Line>) -> Result<Seq<u8>, MultipartError> {
    match lookup(h, content_type_name()) {
        None => Err(MultipartError::MissingContentType),
        Some(v) => match content_type_of(h) {
            None => Err(MultipartError::ParseContentType),
            Some(m) => match m.boundary {
                Some(b) => if valid_boundary(b) {
                    Ok(b)
                } else {
                    Err(MultipartError::MissingBoundaryParameter)
                },
                None => Err(MultipartError::MissingBoundaryParameter),
            },
        },
    }
}

/// An ordered list of headers. A name may occur more than once; the lines
/// keep the order in which they were added.
pub struct HeaderMap {
    entries: Vec<(Vec<u8>, Vec<u8>)>,
}

impl View for HeaderMap {
    type V = Seq<Line>;

    closed spec fn view(&self) -> Seq<Line> {
        lines(self.entries@)
    }
}

impl HeaderMap {
    /// An empty list.
    pub fn new() -> (r: Self)
        ensures
            r@ == Seq::<Line>::empty(),
    {
        let r = HeaderMap { entries: Vec::new() };
        assert(r@ =~= Seq::<Line>::empty());
        r
    }

    /// The number of lines.
    pub fn len(&self) -> (r: usize)
        ensures
            r == self@.len(),
    {
        self.entries.len()
    }

    /// Adds a line at the end.
    pub fn append(&mut self, name: Vec<u8>, value: Vec<u8>)
        ensures
            final(self)@ == old(self)@.push((name@, value@)),
    {
        self.entries.push((name, value));
        assert(self@ =~= old(self)@.push((name@, value@)));
    }

    /// The name of line `i`.
    pub fn name_at(&self, i: usize) -> (r: &[u8])
        requires
            i < self@.len(),
        ensures
            r@ == self@[i as int].0,
    {
        self.entries[i].0.as_slice()
    }

    /// The value of line `i`.
    pub fn value_at(&self, i: usize) -> (r: &[u8])
        requires
            i < self@.len(),
        ensures
            r@ == self@[i as int].1,
    {
        self.entries[i].1.as_slice()
    }

    /// The value of the first line whose name is `name`, whatever the case
    /// of its letters.
    pub fn get(&self, name: &[u8]) -> (r: Option<&[u8]>)
        ensures
            match r {
                Some(v) => lookup(self@, name@) == Some(v@),
                None => lookup(self@, name@).is_none(),
            },
    {
        let mut i: usize = 0;
        while i < self.entries.len()
            invariant
                i <= self@.len(),
                self@.len() == self.entries@.len(),
                index_of(self@, name@, 0) == index_of(self@, name@, i as int),
            decreases self@.len() - i,
        {
            if name_eq(self.entries[i].0.as_slice(), name) {
                return Some(self.entries[i].1.as_slice());
            }
            i += 1;
        }
        None
    }
}

/// The error that stands for a refusal of the header grammar.
pub fn parse_error(e: HeaderSyntax) -> (r: ParseError)
    ensures
        r == syntax_error(e),
{
    match e {
        HeaderSyntax::HeaderName => ParseError::Header,
        HeaderSyntax::HeaderValue => ParseError::Header,
        HeaderSyntax::NewLine => ParseError::Header,
        HeaderSyntax::Token => ParseError::Header,
        HeaderSyntax::Status => ParseError::Status,
        HeaderSyntax::TooManyHeaders => ParseError::TooLarge,
        HeaderSyntax::Version => ParseError::Version,
    }
}

/// Turns what the header grammar read from a block into the headers that
/// the decoder keeps.
pub fn headers_of(parsed: Result<Option<Vec<(Vec<u8>, Vec<u8>)>>, HeaderSyntax>) -> (r: Result<
    HeaderMap,
    MultipartError,
>)
    ensures
        match (r, headers_from(parsed_view(parsed))) {
            (Ok(h), Ok(expected)) => h@ == expected,
            (Err(e), Err(expected)) => e == expected,
            _ => false,
        },
{
    let ghost named = parsed_view(parsed);
    match parsed {
        Ok(Some(raw)) => {
            let mut headers = HeaderMap::new();
            let mut i: usize = 0;
            while i < raw.len()
                invariant
                    i <= raw@.len(),
                    named == parsed_view(parsed),
                    named == Ok::<Option<Seq<Line>>, HeaderSyntax>(Some(lines(raw@))),
                    headers@.len() == i,
                    forall|j: int|
                        0 <= j < i ==> (#[trigger] http_header_name(lines(raw@)[j].0)).is_some()
                            && is_value(lines(raw@)[j].1),
                    forall|j: int|
                        0 <= j < i ==> #[trigger] headers@[j] == (
                            http_header_name(lines(raw@)[j].0).unwrap(),
                            lines(raw@)[j].1,
                        ),
                decreases raw@.len() - i,
            {
                let name = match canonical_name(raw[i].0.as_slice()) {
                    Some(name) => name,
                    None => {
                        assert(http_header_name(lines(raw@)[i as int].0).is_none());
                        assert(converted(lines(raw@)).is_none());
                        return Err(MultipartError::Parse(ParseError::Header));
                    },
                };
                if !accepts_value(raw[i].1.as_slice()) {
                    assert(!is_value(lines(raw@)[i as int].1));
                    assert(http_header_name(lines(raw@)[i as int].0).is_some());
                    assert(converted(lines(raw@)).is_none());
                    return Err(MultipartError::Parse(ParseError::Header));
                }
                let value = raw[i].1.clone();
                assert(value@ =~= raw@[i as int].1@);
                headers.append(name, value);
                i += 1;
            }
            assert(headers@ =~= converted(lines(raw@)).unwrap());
            Ok(headers)
        },
        Ok(None) => Err(MultipartError::Parse(ParseError::Header)),
        Err(e) => Err(MultipartError::Parse(parse_error(e))),
    }
}

/// What the header grammar read from a block, as a value.
pub open spec fn parsed_view(parsed: Result<Option<Vec<(Vec<u8>, Vec<u8>)>>, HeaderSyntax>) -> Result<
    Option<Seq<Line>>,
    HeaderSyntax,
> {
    match parsed {
        Ok(Some(raw)) => Ok(Some(lines(raw@))),
        Ok(None) => Ok(None),
        Err(e) => Err(e),
    }
}

/// The media type that a list of headers declares.
pub fn content_type(headers: &HeaderMap) -> (r: Option<MediaType>)
    ensures
        media_view(r) == content_type_of(headers@),
{
    match headers.get("content-type".as_bytes()) {
        Some(v) => if value_is_text(v) {
            parse_media_type(v)
        } else {
            None
        },
        None => None,
    }
}

/// The content disposition that a list of headers declares.
pub fn content_disposition(headers: &HeaderMap) -> (r: Option<ContentDisposition>)
    ensures
        r == content_disposition_of(headers@),
{
    match headers.get("content-disposition".as_bytes()) {
        Some(v) => if accepts_value(v) {
            parse_content_disposition(v)
        } else {
            None
        },
        None => None,
    }
}

/// Whether a boundary token can delimit a message.
pub fn is_valid_boundary(boundary: &[u8]) -> (r: bool)
    ensures
        r == valid_boundary(boundary@),
{
    if boundary.len() == 0 {
        return false;
    }
    let mut i: usize = 0;
    while i < boundary.len()
        invariant
            i <= boundary@.len(),
            forall|j: int| 0 <= j < i ==> boundary@[j] != CR && boundary@[j] != LF,
        decreases boundary@.len() - i,
    {
        if boundary[i] == CR || boundary[i] == LF {
            return false;
        }
        i += 1;
    }
    true
}

/// The length that a list of headers declares.
pub fn content_length(headers: &HeaderMap) -> (r: Result<Option<u64>, MultipartError>)
    ensures
        r == content_length_of(headers@),
{
    match headers.get("content-length".as_bytes()) {
        Some(v) => match parse_decimal(v) {
            Some(n) => Ok(Some(n)),
            None => Err(MultipartError::TransportError),
        },
        None => Ok(None),
    }
}

} // verus!

//! What can go wrong while a multipart message is read.

use vstd::prelude::*;

verus! {

/// Why a header block was refused.
#[derive(Clone, Copy, Debug, PartialEq, Eq, Structural)]
pub enum ParseError {
    /// A header line does not follow the `name: value` grammar.
    Header,
    /// The block holds more header lines than the decoder admits.
    TooLarge,
    /// A status line was malformed.
    Status,
    /// A protocol version was malformed.
    Version,
}

/// Every failure of the decoder. Each one ends the session.
#[derive(Clone, Copy, Debug, PartialEq, Eq, Structural)]
pub enum MultipartError {
    /// The request has no `Content-Type` header.
    MissingContentType,
    /// The `Content-Type` header is not a media type.
    ParseContentType,
    /// The media type carries no usable `boundary` parameter.
    MissingBoundaryParameter,
    /// A line that had to be a boundary delimiter is something else.
    MalformedBoundaryLine,
    /// The byte source ended while a header block, a boundary line or a body
    /// of declared length was still owed.
    Incomplete,
    /// A part is itself a multipart message.
    NestedMultipartUnsupported,
    /// A part was left before its body had been read to the end.
    NotConsumed,
    /// The byte source failed, or a part declared a length that cannot be read.
    TransportError,
    /// A part's header block was refused.
    Parse(ParseError),
}

impl MultipartError {
    /// The text shown to a client for this error.
    pub open spec fn text(self) -> Seq<char> {
        match self {
            MultipartError::MissingContentType => "no Content-Type header found"@,
            MultipartError::ParseContentType => "can not parse Content-Type header"@,
            MultipartError::MissingBoundaryParameter => "multipart boundary is not found"@,
            MultipartError::MalformedBoundaryLine => "malformed multipart boundary line"@,
            MultipartError::Incomplete => "multipart stream is incomplete"@,
            MultipartError::NestedMultipartUnsupported => "nested multipart is not supported"@,
            MultipartError::NotConsumed => "multipart part was not read to its end"@,
            MultipartError::TransportError => "error while reading the multipart payload"@,
            MultipartError::Parse(ParseError::Header) => "invalid header provided"@,
            MultipartError::Parse(ParseError::TooLarge) => "message head is too large"@,
            MultipartError::Parse(ParseError::Status) => "invalid status provided"@,
            MultipartError::Parse(ParseError::Version) => "invalid HTTP version specified"@,
        }
    }

    /// The text shown to a client for this error.
    pub fn message(&self) -> (r: &'static str)
        ensures
            r@ == self.text(),
    {
        match self {
            MultipartError::MissingContentType => "no Content-Type header found",
            MultipartError::ParseContentType => "can not parse Content-Type header",
            MultipartError::MissingBoundaryParameter => "multipart boundary is not found",
            MultipartError::MalformedBoundaryLine => "malformed multipart boundary line",
            MultipartError::Incomplete => "multipart stream is incomplete",
            MultipartError::NestedMultipartUnsupported => "nested multipart is not supported",
            MultipartError::NotConsumed => "multipart part was not read to its end",
            MultipartError::TransportError => "error while reading the multipart payload",
            MultipartError::Parse(ParseError::Header) => "invalid header provided",
            MultipartError::Parse(ParseError::TooLarge) => "message head is too large",
            MultipartError::Parse(ParseError::Status) => "invalid status provided",
            MultipartError::Parse(ParseError::Version) => "invalid HTTP version specified",
        }
    }
}

} // verus!

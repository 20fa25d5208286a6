//! The decoder: a byte stream and a boundary token become a sequence of
//! parts, each with its headers and a body that is read chunk by chunk.

use vstd::prelude::*;
use actix_web::error::PayloadError;
use actix_web::http::header::ContentDisposition;
use crate::bytes::{
    bytes_eq, has_prefix, lemma_position, lemma_position_none, lemma_position_some, occurs_at,
    position, take_front, CR, LF,
};
use crate::error::MultipartError;
use crate::grammar::{
    blank_line, boundary_step, close_line, close_line_of, close_mark_of, delimiter_of,
    field_step, length_step, open_line, open_line_of, scan_step, skip_step, BodyStep,
    FieldState,
};
use crate::header::{
    boundary_of, content_disposition, content_length, content_length_of, content_type,
    headers_of, headers_step, is_valid_boundary, media_view, HeaderMap, MediaType, PartHead,
    MAX_HEADERS,
};
use crate::safety::{Guard, Safety};
use crate::session::{
    broken, ended, fed, inner_poll, next_chunk, next_part, opened, refused, PartStep, PartView,
    Session,
};
use crate::payload::{newline, PayloadBuffer, StreamEvent};
use crate::trusted::{find, parse_header_block};

verus! {

/// A line that `readline` handed out ends with its line feed, and holds no
/// other.
proof fn lemma_line_end(buf: Seq<u8>, i: int)
    requires
        position(buf, newline()) == Some(i),
    ensures
        0 <= i < buf.len(),
        buf[i] == LF,
{
    lemma_position(buf, newline());
    assert(buf.subrange(i, i + 1)[0] == newline()[0]);
}

/// Bytes without a line feed do not end with one.
proof fn lemma_no_line_end(buf: Seq<u8>)
    requires
        position(buf, newline()).is_none(),
        buf.len() > 0,
    ensures
        buf.last() != LF,
{
    lemma_position(buf, newline());
    if buf.last() == LF {
        assert(buf.subrange(buf.len() - 1, buf.len() as int) =~= newline());
        assert(occurs_at(buf, newline(), buf.len() - 1));
    }
}

/// What reading a part's body gave.
pub enum NextChunk {
    /// More bytes have to arrive first.
    Pending,
    /// The next bytes of the body.
    Data(Vec<u8>),
    /// The body has been read to its end.
    End,
    /// The body cannot be read.
    Failed(MultipartError),
}

impl View for NextChunk {
    type V = BodyStep;

    open spec fn view(&self) -> BodyStep {
        match self {
            NextChunk::Pending => BodyStep::Pending,
            NextChunk::Data(d) => BodyStep::Data(d@),
            NextChunk::End => BodyStep::End,
            NextChunk::Failed(e) => BodyStep::Failed(*e),
        }
    }
}

/// How far the body of the part in flight has been read.
pub struct InnerField {
    eof: bool,
    length: Option<u64>,
}

impl View for InnerField {
    type V = FieldState;

    closed spec fn view(&self) -> FieldState {
        FieldState { eof: self.eof, length: self.length }
    }
}

impl InnerField {
    /// The reading state of a part whose headers are `headers`, at the
    /// beginning of its body. A `Content-Length` that is no number is
    /// refused.
    pub fn new(headers: &HeaderMap) -> (r: Result<InnerField, MultipartError>)
        ensures
            match (r, content_length_of(headers@)) {
                (Ok(field), Ok(length)) => field@ == (FieldState { eof: false, length }),
                (Err(e), Err(expected)) => e == expected,
                _ => false,
            },
    {
        match content_length(headers) {
            Ok(length) => Ok(InnerField { eof: false, length }),
            Err(e) => Err(e),
        }
    }

    /// Reads the next chunk of a body of declared length, of which `size`
    /// bytes are still owed.
    pub fn read_len(payload: &mut PayloadBuffer, size: &mut u64) -> (r: NextChunk)
        ensures
            (r@, final(payload)@, *final(size)) == length_step(old(payload)@, *old(size)),
    {
        if *size == 0 {
            NextChunk::End
        } else {
            match payload.read_max(*size) {
                Ok(Some(chunk)) => {
                    let mut chunk = chunk;
                    let len: u64 = if chunk.len() as u64 <= *size {
                        chunk.len() as u64
                    } else {
                        *size
                    };
                    *size = *size - len;
                    let ch = take_front(&mut chunk, len as usize);
                    if chunk.len() > 0 {
                        payload.unprocessed(chunk);
                    }
                    assert(ch@ =~= old(payload)@.buf.subrange(0, len as int));
                    NextChunk::Data(ch)
                },
                Ok(None) => NextChunk::Pending,
                Err(e) => NextChunk::Failed(e),
            }
        }
    }

    /// Reads the next chunk of a body that ends at `CR LF --boundary`.
    pub fn read_stream(payload: &mut PayloadBuffer, boundary: &[u8]) -> (r: NextChunk)
        ensures
            (r@, final(payload)@) == scan_step(old(payload)@, boundary@),
    {
        let len = payload.buffered().len();
        if len == 0 {
            return if payload.is_eof() {
                NextChunk::Failed(MultipartError::Incomplete)
            } else {
                NextChunk::Pending
            };
        }
        let d = delimiter_of(boundary);
        let take: usize = match find(payload.buffered(), d.as_slice()) {
            Some(idx) => {
                proof {
                    lemma_position_some(payload@.buf, d@, idx as int);
                }
                if idx == 0 {
                    return NextChunk::End;
                }
                idx
            },
            None => {
                proof {
                    lemma_position_none(payload@.buf, d@);
                }
                if payload.is_eof() {
                    len
                } else if len >= d.len() {
                    len - (d.len() - 1)
                } else {
                    return NextChunk::Pending;
                }
            },
        };
        match payload.read_max(take as u64) {
            Ok(Some(chunk)) => {
                assert(chunk@ =~= old(payload)@.buf.subrange(0, take as int));
                if take == len {
                    assert(chunk@ =~= old(payload)@.buf);
                }
                NextChunk::Data(chunk)
            },
            _ => NextChunk::Pending,
        }
    }

    /// Reads the next chunk of the part's body; after its end, takes the
    /// rest of the line that the body ended in.
    pub fn poll(&mut self, payload: &mut PayloadBuffer, boundary: &[u8]) -> (r: NextChunk)
        ensures
            (r@, final(payload)@, final(self)@) == field_step(
                old(payload)@,
                old(self)@,
                boundary@,
            ),
    {
        if !self.eof {
            let res = match self.length {
                Some(size) => {
                    let mut left = size;
                    let res = InnerField::read_len(payload, &mut left);
                    self.length = Some(left);
                    res
                },
                None => InnerField::read_stream(payload, boundary),
            };
            match res {
                NextChunk::End => {
                    self.eof = true;
                },
                _ => {
                    return res;
                },
            }
        }
        match payload.readline() {
            Ok(None) => NextChunk::Pending,
            Ok(Some(_)) => NextChunk::End,
            Err(e) => NextChunk::Failed(e),
        }
    }
}

/// Where the decoder stands between two parts.
#[derive(Clone, Copy, Debug, PartialEq, Eq, Structural)]
pub enum InnerState {
    /// The message has ended.
    Eof,
    /// The preamble is skipped until the first boundary line.
    FirstBoundary,
    /// A boundary line comes next.
    Boundary,
    /// A header block comes next.
    Headers,
}

/// The decoder's hold on the byte window.
pub struct InnerMultipart {
    payload: PayloadBuffer,
    boundary: Vec<u8>,
    state: InnerState,
    item: Option<InnerField>,
}

impl InnerMultipart {
    /// Reads a header block from the window.
    pub fn read_headers(payload: &mut PayloadBuffer) -> (r: Result<
        Option<HeaderMap>,
        MultipartError,
    >)
        ensures
            final(payload)@ == headers_step(old(payload)@).1,
            match (r, headers_step(old(payload)@).0) {
                (Ok(Some(h)), Ok(Some(expected))) => h@ == expected,
                (Ok(None), Ok(None)) => true,
                (Err(e), Err(expected)) => e == expected,
                _ => false,
            },
    {
        let blank: [u8; 4] = [CR, LF, CR, LF];
        assert(blank@ =~= blank_line());
        match payload.read_until(blank.as_slice()) {
            Err(e) => Err(e),
            Ok(None) => Ok(None),
            Ok(Some(block)) => {
                match headers_of(parse_header_block(block.as_slice(), MAX_HEADERS)) {
                    Ok(h) => Ok(Some(h)),
                    Err(e) => Err(e),
                }
            },
        }
    }

    /// Reads the line that must be a boundary delimiter.
    pub fn read_boundary(payload: &mut PayloadBuffer, boundary: &[u8]) -> (r: Result<
        Option<bool>,
        MultipartError,
    >)
        ensures
            (r, final(payload)@) == boundary_step(old(payload)@, boundary@),
    {
        proof {
            lemma_position(payload@.buf, newline());
        }
        match payload.readline_or_eof() {
            None => Ok(None),
            Some(chunk) => {
                let open = open_line_of(boundary);
                let close = close_line_of(boundary);
                let n = chunk.len();
                if n > 0 && chunk[n - 1] == LF {
                    proof {
                        if position(old(payload)@.buf, newline()).is_none() {
                            lemma_no_line_end(old(payload)@.buf);
                        }
                    }
                    if bytes_eq(chunk.as_slice(), open.as_slice()) {
                        Ok(Some(false))
                    } else if bytes_eq(chunk.as_slice(), close.as_slice()) {
                        Ok(Some(true))
                    } else {
                        Err(MultipartError::MalformedBoundaryLine)
                    }
                } else {
                    proof {
                        if let Some(i) = position(old(payload)@.buf, newline()) {
                            lemma_line_end(old(payload)@.buf, i);
                        }
                    }
                    let mark = close_mark_of(boundary);
                    if bytes_eq(chunk.as_slice(), mark.as_slice()) {
                        Ok(Some(true))
                    } else if has_prefix(open.as_slice(), chunk.as_slice()) || has_prefix(
                        close.as_slice(),
                        chunk.as_slice(),
                    ) {
                        Err(MultipartError::Incomplete)
                    } else {
                        Err(MultipartError::MalformedBoundaryLine)
                    }
                }
            },
        }
    }

    /// Skips the preamble: drops lines until one is a boundary line.
    pub fn skip_until_boundary(payload: &mut PayloadBuffer, boundary: &[u8]) -> (r: Result<
        Option<bool>,
        MultipartError,
    >)
        ensures
            (r, final(payload)@) == skip_step(old(payload)@, boundary@),
    {
        let open = open_line_of(boundary);
        let close = close_line_of(boundary);
        loop
            invariant
                open@ == open_line(boundary@),
                close@ == close_line(boundary@),
                skip_step(payload@, boundary@) == skip_step(old(payload)@, boundary@),
            decreases payload@.buf.len(),
        {
            proof {
                lemma_position(payload@.buf, newline());
            }
            match payload.readline() {
                Ok(Some(chunk)) => {
                    if bytes_eq(chunk.as_slice(), open.as_slice()) {
                        return Ok(Some(false));
                    }
                    if bytes_eq(chunk.as_slice(), close.as_slice()) {
                        return Ok(Some(true));
                    }
                },
                Ok(None) => {
                    return Ok(None);
                },
                Err(e) => {
                    let mark = close_mark_of(boundary);
                    if bytes_eq(payload.buffered(), mark.as_slice()) {
                        let all = payload.buffered().len();
                        let _ = payload.read_max(all as u64);
                        return Ok(Some(true));
                    }
                    return Err(e);
                },
            }
        }
    }
}

impl InnerMultipart {
    /// The session that this hold on the window makes with a guard and a
    /// recorded failure.
    pub closed spec fn session(
        &self,
        guard: Guard,
        error: Option<MultipartError>,
        cause: Option<PayloadError>,
    ) -> Session {
        Session {
            window: self.payload@,
            boundary: self.boundary@,
            state: self.state,
            field: match self.item {
                Some(f) => Some(f@),
                None => None,
            },
            guard,
            error,
            cause,
        }
    }

    /// The decoder's step between two parts: finds the boundary line that
    /// is due, reads the header block after it and hands out the part.
    pub fn poll(&mut self, safety: &mut Safety) -> (r: NextPart)
        ensures
            forall|cause: Option<PayloadError>|
                (r@, final(self).session(final(safety)@, r.failure(), cause)) == inner_poll(
                    #[trigger] old(self).session(old(safety)@, None, cause),
                ),
    {
        match self.state {
            InnerState::Eof => {
                return NextPart::End;
            },
            InnerState::FirstBoundary => {
                match InnerMultipart::skip_until_boundary(
                    &mut self.payload,
                    self.boundary.as_slice(),
                ) {
                    Ok(None) => {
                        return NextPart::Pending;
                    },
                    Ok(Some(true)) => {
                        self.state = InnerState::Eof;
                        return NextPart::End;
                    },
                    Ok(Some(false)) => {
                        self.state = InnerState::Headers;
                    },
                    Err(e) => {
                        return NextPart::Failed(e);
                    },
                }
            },
            InnerState::Boundary => {
                match InnerMultipart::read_boundary(&mut self.payload, self.boundary.as_slice()) {
                    Ok(None) => {
                        return NextPart::Pending;
                    },
                    Ok(Some(true)) => {
                        self.state = InnerState::Eof;
                        return NextPart::End;
                    },
                    Ok(Some(false)) => {
                        self.state = InnerState::Headers;
                    },
                    Err(e) => {
                        return NextPart::Failed(e);
                    },
                }
            },
            InnerState::Headers => {},
        }
        let headers = match InnerMultipart::read_headers(&mut self.payload) {
            Ok(None) => {
                return NextPart::Pending;
            },
            Ok(Some(headers)) => headers,
            Err(e) => {
                return NextPart::Failed(e);
            },
        };
        self.state = InnerState::Boundary;
        let cd = content_disposition(&headers);
        let ct = content_type(&headers);
        let nested = match &ct {
            Some(m) => bytes_eq(m.kind.as_slice(), "multipart".as_bytes()),
            None => false,
        };
        if nested {
            return NextPart::Failed(MultipartError::NestedMultipartUnsupported);
        }
        let field = match InnerField::new(&headers) {
            Ok(field) => field,
            Err(e) => {
                return NextPart::Failed(e);
            },
        };
        match safety.acquire() {
            None => NextPart::Failed(MultipartError::NotConsumed),
            Some(level) => {
                let length = field.length;
                self.item = Some(field);
                NextPart::Part(Object { ct, cd, headers, length, level })
            },
        }
    }

    /// One reading step on the part in flight.
    fn poll_field(&mut self) -> (r: Option<NextChunk>)
        ensures
            old(self).item.is_none() ==> r.is_none() && *final(self) == *old(self),
            old(self).item.is_some() ==> {
                &&& r.is_some()
                &&& final(self).boundary == old(self).boundary
                &&& final(self).state == old(self).state
                &&& final(self).item.is_some()
                &&& (r.unwrap()@, final(self).payload@, final(self).item.unwrap()@) == field_step(
                    old(self).payload@,
                    old(self).item.unwrap()@,
                    old(self).boundary@,
                )
            },
    {
        match self.item.take() {
            None => None,
            Some(field) => {
                let mut field = field;
                let r = field.poll(&mut self.payload, self.boundary.as_slice());
                self.item = Some(field);
                Some(r)
            },
        }
    }
}

/// What a request for the next part gave.
pub enum NextPart {
    /// More bytes have to arrive first.
    Pending,
    /// The next part.
    Part(Object),
    /// The message has ended.
    End,
    /// The session has failed.
    Failed(MultipartError),
}

impl View for NextPart {
    type V = PartStep;

    open spec fn view(&self) -> PartStep {
        match self {
            NextPart::Pending => PartStep::Pending,
            NextPart::Part(o) => PartStep::Part(o@),
            NextPart::End => PartStep::End,
            NextPart::Failed(e) => PartStep::Failed(*e),
        }
    }
}

impl NextPart {
    /// The failure that this answer reports, if it reports one.
    pub open spec fn failure(&self) -> Option<MultipartError> {
        match self {
            NextPart::Failed(e) => Some(*e),
            _ => None,
        }
    }
}

/// The server-side reader of a `multipart/related` request.
///
/// Bytes are handed to it as they arrive; `poll_next` then gives the parts
/// one after the other. Each part has to be read to its end before the
/// next one is asked for.
pub struct MultipartRelated {
    safety: Safety,
    error: Option<MultipartError>,
    cause: Option<PayloadError>,
    inner: InnerMultipart,
}

impl View for MultipartRelated {
    type V = Session;

    closed spec fn view(&self) -> Session {
        self.inner.session(self.safety@, self.error, self.cause)
    }
}

impl MultipartRelated {
    /// A reader for the request whose headers are `headers`. Where they
    /// declare no boundary token, the reader answers every request with
    /// the reason.
    pub fn new(headers: &HeaderMap) -> (r: MultipartRelated)
        ensures
            r@ == match boundary_of(headers@) {
                Ok(b) => opened(b),
                Err(e) => refused(e),
            },
    {
        match Self::boundary(headers) {
            Ok(boundary) => MultipartRelated::from_boundary(boundary.as_slice()),
            Err(err) => MultipartRelated::from_error(err),
        }
    }

    /// The boundary token that the headers of a request declare.
    pub fn boundary(headers: &HeaderMap) -> (r: Result<Vec<u8>, MultipartError>)
        ensures
            match (r, boundary_of(headers@)) {
                (Ok(b), Ok(expected)) => b@ == expected,
                (Err(e), Err(expected)) => e == expected,
                _ => false,
            },
    {
        if headers.get("content-type".as_bytes()).is_none() {
            return Err(MultipartError::MissingContentType);
        }
        match content_type(headers) {
            None => Err(MultipartError::ParseContentType),
            Some(m) => match m.boundary {
                Some(b) => if is_valid_boundary(b.as_slice()) {
                    Ok(b)
                } else {
                    Err(MultipartError::MissingBoundaryParameter)
                },
                None => Err(MultipartError::MissingBoundaryParameter),
            },
        }
    }

    /// A reader for a message with the given boundary token.
    pub fn from_boundary(boundary: &[u8]) -> (r: MultipartRelated)
        ensures
            r@ == opened(boundary@),
    {
        MultipartRelated {
            error: None,
            cause: None,
            safety: Safety::new(),
            inner: InnerMultipart {
                boundary: vstd::slice::slice_to_vec(boundary),
                payload: PayloadBuffer::new(),
                state: InnerState::FirstBoundary,
                item: None,
            },
        }
    }

    /// A reader that answers every request with `err`.
    pub fn from_error(err: MultipartError) -> (r: MultipartRelated)
        ensures
            r@ == refused(err),
    {
        MultipartRelated {
            error: Some(err),
            cause: None,
            safety: Safety::new(),
            inner: InnerMultipart {
                boundary: Vec::new(),
                payload: PayloadBuffer::new(),
                state: InnerState::Eof,
                item: None,
            },
        }
    }

    /// Takes in bytes that arrived from the source.
    pub fn feed(&mut self, chunk: &[u8])
        ensures
            final(self)@ == fed(old(self)@, chunk@),
    {
        self.inner.payload.extend(chunk);
    }

    /// Records that the source has ended.
    pub fn end_of_stream(&mut self)
        ensures
            final(self)@ == ended(old(self)@),
    {
        let _ = self.inner.payload.poll_stream(&StreamEvent::End);
    }

    /// Takes in what the source did: bytes that arrived, its end, or its
    /// failure with the error that it gave.
    pub fn poll_stream(&mut self, event: StreamEvent)
        ensures
            final(self)@ == match event {
                StreamEvent::Data(data) => fed(old(self)@, data@),
                StreamEvent::End => ended(old(self)@),
                StreamEvent::Failed(cause) => broken(old(self)@, cause),
            },
    {
        match event {
            StreamEvent::Data(data) => self.feed(data.as_slice()),
            StreamEvent::End => self.end_of_stream(),
            StreamEvent::Failed(cause) => self.fail(cause),
        }
    }

    /// Records that the source has failed with `cause`. Every later request
    /// is answered with `TransportError`, and `cause` is kept as it is. A
    /// session that had failed before, or of which a part was left unread,
    /// stays as it is and answers as before.
    pub fn fail(&mut self, cause: PayloadError)
        ensures
            final(self)@ == broken(old(self)@, cause),
    {
        if self.error.is_none() && self.safety.is_clean() {
            self.error = Some(MultipartError::TransportError);
            self.cause = Some(cause);
        }
    }

    /// The error of the byte source that ended the session, as `fail` got
    /// it.
    pub fn source_error(&self) -> (r: Option<&PayloadError>)
        ensures
            match r {
                Some(cause) => self@.cause == Some(*cause),
                None => self@.cause.is_none(),
            },
    {
        self.cause.as_ref()
    }

    /// Gives up the session and hands out the error of the byte source
    /// that ended it, as `fail` got it.
    pub fn into_source_error(self) -> (r: Option<PayloadError>)
        ensures
            r == self@.cause,
    {
        self.cause
    }

    /// The failure that ended the session, if one did.
    pub fn failure(&self) -> (r: Option<MultipartError>)
        ensures
            r == self@.error,
    {
        self.error
    }

    /// Whether no part has been left behind unread.
    pub fn is_clean(&self) -> (r: bool)
        ensures
            r == self@.guard.clean,
    {
        self.safety.is_clean()
    }

    /// Asks for the next part.
    pub fn poll_next(&mut self) -> (r: NextPart)
        ensures
            (r@, final(self)@) == next_part(old(self)@),
    {
        if let Some(e) = self.error {
            return NextPart::Failed(e);
        }
        if !self.safety.is_clean() {
            return NextPart::Failed(MultipartError::NotConsumed);
        }
        if !self.safety.is_idle() {
            self.safety.mark_dirty();
            return NextPart::Failed(MultipartError::NotConsumed);
        }
        let r = self.inner.poll(&mut self.safety);
        if let NextPart::Failed(e) = &r {
            self.error = Some(*e);
        }
        r
    }
}

/// A single part of a multipart message: its headers, and a handle on the
/// byte window through which its body is read.
pub struct Object {
    ct: Option<MediaType>,
    cd: Option<ContentDisposition>,
    headers: HeaderMap,
    length: Option<u64>,
    level: u128,
}

impl View for Object {
    type V = PartView;

    closed spec fn view(&self) -> PartView {
        PartView {
            head: PartHead {
                headers: self.headers@,
                content_type: media_view(self.ct),
                content_disposition: self.cd,
                length: self.length,
            },
            level: self.level,
        }
    }
}

impl Object {
    /// The part's headers.
    pub fn headers(&self) -> (r: &HeaderMap)
        ensures
            r@ == self@.head.headers,
    {
        &self.headers
    }

    /// The part's media type, where it declares one.
    pub fn content_type(&self) -> (r: Option<&MediaType>)
        ensures
            match r {
                Some(m) => self@.head.content_type == Some(m@),
                None => self@.head.content_type.is_none(),
            },
    {
        self.ct.as_ref()
    }

    /// The part's content disposition, where it declares one.
    pub fn content_disposition(&self) -> (r: Option<&ContentDisposition>)
        ensures
            match r {
                Some(cd) => self@.head.content_disposition == Some(*cd),
                None => self@.head.content_disposition.is_none(),
            },
    {
        self.cd.as_ref()
    }

    /// The length of the body, where the part declares one.
    pub fn content_length(&self) -> (r: Option<u64>)
        ensures
            r == self@.head.length,
    {
        self.length
    }

    /// Asks for the next chunk of the part's body, which is read from the
    /// window of `source`, the reader that handed the part out.
    pub fn poll_next(&mut self, source: &mut MultipartRelated) -> (r: NextChunk)
        ensures
            (r@, final(source)@) == next_chunk(old(source)@, old(self)@.level),
            final(self)@ == old(self)@,
    {
        if let Some(e) = source.error {
            return NextChunk::Failed(e);
        }
        if !source.safety.is_clean() {
            return NextChunk::Failed(MultipartError::NotConsumed);
        }
        if !source.safety.current(self.level) || source.safety.is_idle() {
            return NextChunk::End;
        }
        match source.inner.poll_field() {
            None => NextChunk::End,
            Some(r) => {
                match &r {
                    NextChunk::End => {
                        source.inner.item = None;
                        source.safety.release(self.level);
                    },
                    NextChunk::Failed(e) => {
                        source.error = Some(*e);
                    },
                    _ => {},
                }
                r
            },
        }
    }
}

} // verus!

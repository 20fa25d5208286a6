//! The encoder: parts are written one after the other into a
//! `multipart/related` message.

use vstd::prelude::*;
use vstd::slice::slice_to_vec;
use vstd::string::{is_ascii, is_ascii_spec_bytes, StringSliceAdditionalSpecFns};
use crate::bytes::{
    absent, bytes_eq, lemma_position_none, lemma_position_some, occurs_at, position, push_all,
    CR, DASH, LF,
};
use crate::error::MultipartError;
use crate::grammar::{
    blank_line, close_mark, crlf, delimiter, delimiter_of, open_line, valid_boundary,
};
use crate::header::{
    block_headers, content_length, content_type, headers_of, is_valid_boundary, part_head,
    PartHead, MAX_HEADERS,
};
use crate::trusted::{find, parse_header_block, random_uuid, uuid_byte};

verus! {

/// What a writer holds, as a value.
pub struct WriterView {
    /// The boundary token.
    pub boundary: Seq<u8>,
    /// The bytes written so far.
    pub data: Seq<u8>,
    /// No part has been written yet.
    pub first: bool,
    /// The closing mark has been written.
    pub finished: bool,
}

/// The bytes that stand in front of a boundary line: nothing in front of
/// the first one, a line break in front of every other.
pub open spec fn lead(first: bool) -> Seq<u8> {
    if first {
        Seq::<u8>::empty()
    } else {
        crlf()
    }
}

/// One part on the wire: the opening line, the header lines, a blank line
/// and the body as it is.
pub open spec fn part_bytes(boundary: Seq<u8>, first: bool, headers: Seq<u8>, body: Seq<u8>) -> Seq<
    u8,
> {
    lead(first) + open_line(boundary) + headers + crlf() + crlf() + body
}

/// The end of a message on the wire: the closing mark, on a line of its
/// own unless it is all there is.
pub open spec fn closing_bytes(boundary: Seq<u8>, first: bool) -> Seq<u8> {
    lead(first) + close_mark(boundary)
}

/// One part as the writer takes it: its header lines and its body.
pub type Pair = (Seq<u8>, Seq<u8>);

/// The bytes that a fresh writer holds after it has written `parts`.
pub open spec fn written(boundary: Seq<u8>, parts: Seq<Pair>) -> Seq<u8>
    decreases parts.len(),
{
    if parts.len() == 0 {
        Seq::<u8>::empty()
    } else {
        written(boundary, parts.drop_last()) + part_bytes(
            boundary,
            parts.len() == 1,
            parts.last().0,
            parts.last().1,
        )
    }
}

/// The whole message that holds `parts`: the parts, then the closing mark.
pub open spec fn message(boundary: Seq<u8>, parts: Seq<Pair>) -> Seq<u8> {
    written(boundary, parts) + closing_bytes(boundary, parts.len() == 0)
}

/// The part that header lines announce, once they stand in a message with
/// a blank line behind them.
pub open spec fn announced(headers: Seq<u8>) -> Result<PartHead, MultipartError> {
    match block_headers(headers + blank_line()) {
        Ok(h) => part_head(h),
        Err(e) => Err(e),
    }
}

/// A part that can be written and read back: its header lines hold no
/// blank line and announce a part, and its body has the length that the
/// headers declare or, where they declare none, does not hold the
/// delimiter.
pub open spec fn writable(boundary: Seq<u8>, part: Pair) -> bool {
    &&& position(part.0 + blank_line(), blank_line()) == Some(part.0.len() as int)
    &&& match announced(part.0) {
        Ok(head) => match head.length {
            Some(n) => n == part.1.len(),
            None => absent(part.1, delimiter(boundary)),
        },
        Err(_) => false,
    }
}

/// `bodies` as parts that all bear the header lines `headers`.
pub open spec fn uniform(headers: Seq<u8>, bodies: Seq<Vec<u8>>) -> Seq<Pair> {
    Seq::new(bodies.len(), |i: int| (headers, bodies[i]@))
}

/// `boundary-`, which a generated token begins with.
pub open spec fn token_prefix() -> Seq<u8> {
    "boundary-".spec_bytes()
}

/// A boundary token of the writer's own making: `boundary-` and the 36
/// bytes of a UUID.
pub open spec fn generated(boundary: Seq<u8>) -> bool {
    &&& boundary.len() == 45
    &&& boundary.subrange(0, 9) == token_prefix()
    &&& forall|i: int| 9 <= i < 45 ==> uuid_byte(#[trigger] boundary[i])
}

/// `boundary-` is nine bytes, none of them a line break.
pub proof fn lemma_token_prefix()
    ensures
        token_prefix().len() == 9,
        forall|i: int| 0 <= i < 9 ==> token_prefix()[i] != CR && token_prefix()[i] != LF,
{
    reveal_strlit("boundary-");
    broadcast use is_ascii_spec_bytes;

    let s = "boundary-";
    assert(is_ascii(s));
    assert(s.spec_bytes() =~= Seq::new(s@.len(), |i: int| s@.index(i) as u8));
}

/// Different UUIDs make different tokens: the token holds the UUID
/// behind the prefix, so two tokens are the same only where the UUIDs are.
pub proof fn lemma_tokens_differ(one: Seq<u8>, other: Seq<u8>)
    ensures
        token_prefix() + one == token_prefix() + other <==> one == other,
{
    let n = token_prefix().len() as int;
    if token_prefix() + one == token_prefix() + other {
        assert((token_prefix() + one).subrange(n, n + one.len()) =~= one);
        assert((token_prefix() + other).subrange(n, n + other.len()) =~= other);
        assert(one.len() == other.len());
    }
}

/// A token of the writer's own making can delimit a message.
pub proof fn lemma_generated_valid(boundary: Seq<u8>)
    requires
        generated(boundary),
    ensures
        valid_boundary(boundary),
{
    lemma_token_prefix();
    assert forall|i: int| 0 <= i < boundary.len() implies boundary[i] != CR && boundary[i]
        != LF by {
        if i < 9 {
            assert(boundary[i] == boundary.subrange(0, 9)[i]);
        } else {
            assert(uuid_byte(boundary[i]));
        }
    }
}

/// Why a part was not written.
#[derive(Clone, Copy, Debug, PartialEq, Eq, Structural)]
pub enum WriteError {
    /// The closing mark has been written already.
    Finished,
}

/// Writes parts into a `multipart/related` message.
pub struct MultipartWriter {
    boundary: Vec<u8>,
    /// The bytes written so far.
    pub data: Vec<u8>,
    first: bool,
    finished: bool,
}

impl View for MultipartWriter {
    type V = WriterView;

    closed spec fn view(&self) -> WriterView {
        WriterView {
            boundary: self.boundary@,
            data: self.data@,
            first: self.first,
            finished: self.finished,
        }
    }
}

impl MultipartWriter {
    /// An empty writer with a boundary token of its own making: `boundary-`
    /// and a random UUID, so that two messages hardly ever share a token.
    /// The token is what `with_uuid` makes of the UUID that was drawn.
    pub fn new() -> (r: MultipartWriter)
        ensures
            r@.data.len() == 0,
            r@.first,
            !r@.finished,
            generated(r@.boundary),
            valid_boundary(r@.boundary),
    {
        let token = random_uuid();
        let r = MultipartWriter::with_uuid(token);
        proof {
            lemma_token_prefix();
            assert(r@.boundary.subrange(0, 9) =~= token_prefix());
            assert forall|i: int| 9 <= i < 45 implies uuid_byte(#[trigger] r@.boundary[i]) by {
                assert(r@.boundary[i] == token@[i - 9]);
            }
            lemma_generated_valid(r@.boundary);
        }
        r
    }

    /// An empty writer whose boundary token is `boundary-` followed by the
    /// given bytes, which are meant to be the text of a UUID. Different
    /// bytes give different tokens.
    pub fn with_uuid(token: Vec<u8>) -> (r: MultipartWriter)
        ensures
            r@.boundary == token_prefix() + token@,
            r@.data.len() == 0,
            r@.first,
            !r@.finished,
    {
        let mut boundary: Vec<u8> = Vec::new();
        push_all(&mut boundary, "boundary-".as_bytes());
        push_all(&mut boundary, token.as_slice());
        MultipartWriter { boundary, first: true, data: Vec::new(), finished: false }
    }

    /// An empty writer with the given boundary token.
    pub fn new_with_boundary(boundary: &str) -> (r: MultipartWriter)
        ensures
            r@.boundary == boundary.spec_bytes(),
            r@.data.len() == 0,
            r@.first,
            !r@.finished,
    {
        MultipartWriter {
            boundary: slice_to_vec(boundary.as_bytes()),
            first: true,
            data: Vec::new(),
            finished: false,
        }
    }

    /// The boundary token, which belongs into the `boundary` parameter of
    /// the message's own `Content-Type`.
    pub fn boundary(&self) -> (r: &[u8])
        ensures
            r@ == self@.boundary,
    {
        self.boundary.as_slice()
    }

    /// The bytes written so far.
    pub fn data(&self) -> (r: &[u8])
        ensures
            r@ == self@.data,
    {
        self.data.as_slice()
    }

    /// Whether the closing mark has been written.
    pub fn is_finished(&self) -> (r: bool)
        ensures
            r == self@.finished,
    {
        self.finished
    }

    fn write_boundary(&mut self)
        ensures
            final(self)@.data == old(self)@.data + lead(old(self)@.first) + dashes_then(
                old(self)@.boundary,
            ),
            final(self)@.boundary == old(self)@.boundary,
            final(self)@.first == old(self)@.first,
            final(self)@.finished == old(self)@.finished,
    {
        if !self.first {
            self.data.push(CR);
            self.data.push(LF);
        }
        self.data.push(DASH);
        self.data.push(DASH);
        push_all(&mut self.data, self.boundary.as_slice());
        assert(self.data@ =~= old(self).data@ + lead(old(self).first) + dashes_then(
            old(self).boundary@,
        ));
    }

    /// Writes one part: the boundary line, the header lines as given, a
    /// blank line, and the body byte for byte. Returns the number of body
    /// bytes written. After `finish` nothing is written.
    pub fn add(&mut self, body: &[u8], headers: &str) -> (r: Result<u64, WriteError>)
        ensures
            final(self)@.boundary == old(self)@.boundary,
            final(self)@.finished == old(self)@.finished,
            old(self)@.finished ==> r == Err::<u64, WriteError>(WriteError::Finished) && final(self)@ == old(self)@,
            !old(self)@.finished ==> r == Ok::<u64, WriteError>(body@.len() as u64) && !final(self)@.first && final(self)@.data == old(self)@.data + part_bytes(
                old(self)@.boundary,
                old(self)@.first,
                headers.spec_bytes(),
                body@,
            ),
    {
        if self.finished {
            return Err(WriteError::Finished);
        }
        self.write_boundary();
        self.data.push(CR);
        self.data.push(LF);
        push_all(&mut self.data, headers.as_bytes());
        self.data.push(CR);
        self.data.push(LF);
        self.data.push(CR);
        self.data.push(LF);
        push_all(&mut self.data, body);
        self.first = false;
        assert(self.data@ =~= old(self).data@ + part_bytes(
            old(self).boundary@,
            old(self).first,
            headers.spec_bytes(),
            body@,
        ));
        Ok(body.len() as u64)
    }

    /// Whether a part with these header lines and this body, once written
    /// with this writer's boundary token, is read back as it is: the token
    /// can delimit a message, the header lines hold no blank line and
    /// announce a part, and the body has the length that the headers
    /// declare or, where they declare none, does not hold the delimiter.
    pub fn reads_back(&self, body: &[u8], headers: &str) -> (r: bool)
        ensures
            r == (valid_boundary(self@.boundary) && writable(
                self@.boundary,
                (headers.spec_bytes(), body@),
            )),
    {
        if !is_valid_boundary(self.boundary.as_slice()) {
            return false;
        }
        let mut block: Vec<u8> = Vec::new();
        push_all(&mut block, headers.as_bytes());
        block.push(CR);
        block.push(LF);
        block.push(CR);
        block.push(LF);
        assert(block@ =~= headers.spec_bytes() + blank_line());
        let blank: [u8; 4] = [CR, LF, CR, LF];
        assert(blank@ =~= blank_line());
        match find(block.as_slice(), blank.as_slice()) {
            Some(i) => {
                proof {
                    lemma_position_some(block@, blank_line(), i as int);
                }
                if i != headers.as_bytes().len() {
                    return false;
                }
            },
            None => {
                proof {
                    lemma_position_none(block@, blank_line());
                }
                return false;
            },
        }
        let h = match headers_of(parse_header_block(block.as_slice(), MAX_HEADERS)) {
            Ok(h) => h,
            Err(_) => {
                return false;
            },
        };
        let nested = match content_type(&h) {
            Some(m) => bytes_eq(m.kind.as_slice(), "multipart".as_bytes()),
            None => false,
        };
        if nested {
            return false;
        }
        match content_length(&h) {
            Err(_) => false,
            Ok(Some(n)) => n == body.len() as u64,
            Ok(None) => {
                let d = delimiter_of(self.boundary.as_slice());
                match find(body, d.as_slice()) {
                    Some(i) => {
                        assert(occurs_at(body@, d@, i as int));
                        false
                    },
                    None => true,
                }
            },
        }
    }

    /// Writes the closing mark. A second call writes nothing.
    pub fn finish(&mut self)
        ensures
            final(self)@.boundary == old(self)@.boundary,
            final(self)@.first == old(self)@.first,
            final(self)@.finished,
            final(self)@.data == if old(self)@.finished {
                old(self)@.data
            } else {
                old(self)@.data + closing_bytes(old(self)@.boundary, old(self)@.first)
            },
    {
        if !self.finished {
            self.write_boundary();
            self.data.push(DASH);
            self.data.push(DASH);
            self.finished = true;
            assert(self.data@ =~= old(self).data@ + closing_bytes(
                old(self).boundary@,
                old(self).first,
            ));
        }
    }
}

/// Writes a whole message: one part for each body, each with the header
/// lines `headers`, and the closing mark. The boundary token is the given
/// one, or one of the writer's own making.
pub fn encode(boundary: Option<&str>, headers: &str, bodies: &Vec<Vec<u8>>) -> (r: MultipartWriter)
    ensures
        match boundary {
            Some(token) => r@.boundary == token.spec_bytes(),
            None => generated(r@.boundary),
        },
        r@.finished,
        r@.first == (bodies@.len() == 0),
        r@.data == message(r@.boundary, uniform(headers.spec_bytes(), bodies@)),
{
    let mut w = match boundary {
        Some(token) => MultipartWriter::new_with_boundary(token),
        None => MultipartWriter::new(),
    };
    let ghost b = w@.boundary;
    let ghost all = uniform(headers.spec_bytes(), bodies@);
    let mut i: usize = 0;
    assert(w@.data =~= written(b, all.subrange(0, 0)));
    while i < bodies.len()
        invariant
            i <= bodies@.len(),
            all == uniform(headers.spec_bytes(), bodies@),
            w@.boundary == b,
            !w@.finished,
            w@.first == (i == 0),
            w@.data == written(b, all.subrange(0, i as int)),
        decreases bodies@.len() - i,
    {
        let _ = w.add(bodies[i].as_slice(), headers);
        proof {
            let upto = all.subrange(0, i + 1);
            assert(upto.drop_last() =~= all.subrange(0, i as int));
            assert(upto.last() == (headers.spec_bytes(), bodies@[i as int]@));
        }
        i += 1;
    }
    assert(all.subrange(0, i as int) =~= all);
    w.finish();
    w
}

/// `--` and the boundary token.
pub open spec fn dashes_then(boundary: Seq<u8>) -> Seq<u8> {
    seq![DASH, DASH] + boundary
}

} // verus!

//! What a whole message means: the parts that the bytes of a message hold,
//! read off the complete byte sequence at once.

use vstd::prelude::*;
use crate::bytes::{lemma_position, position};
use crate::error::MultipartError;
use crate::grammar::{blank_line, boundary_step, delimiter, skip_step, FieldState};
use crate::header::{headers_step, part_head, PartHead};
use crate::payload::{newline, Window};

verus! {

/// A part with its whole body.
pub struct PartModel {
    /// What its headers say.
    pub head: PartHead,
    /// Its body.
    pub body: Seq<u8>,
}

/// What a message holds: the parts that could be read in full, in their
/// order, and the failure that ended the reading, if one did.
pub struct Decoded {
    /// The parts read in full.
    pub parts: Seq<PartModel>,
    /// The part whose body the failure cut short, if it cut one.
    pub unfinished: Option<PartHead>,
    /// The failure after the last of them, if any.
    pub error: Option<MultipartError>,
}

/// The window on a byte sequence that is complete.
pub open spec fn whole(s: Seq<u8>) -> Window {
    Window { buf: s, eof: true }
}

/// A message without parts that ended well.
pub open spec fn finished() -> Decoded {
    Decoded { parts: Seq::<PartModel>::empty(), unfinished: None, error: None }
}

/// A message without parts that ended with a failure.
pub open spec fn failing(e: MultipartError) -> Decoded {
    Decoded { parts: Seq::<PartModel>::empty(), unfinished: None, error: Some(e) }
}

/// A message that failed in the body of the part that `head` announces,
/// before any part had been read in full.
pub open spec fn cut(head: PartHead, e: MultipartError) -> Decoded {
    Decoded { parts: Seq::<PartModel>::empty(), unfinished: Some(head), error: Some(e) }
}

/// `rest` with the parts `parts` in front.
pub open spec fn join(parts: Seq<PartModel>, rest: Decoded) -> Decoded {
    Decoded { parts: parts + rest.parts, unfinished: rest.unfinished, error: rest.error }
}

/// Where the body of the part in flight ends in `s`: at once where it has
/// ended already, after the bytes still owed for a declared length, and in
/// front of the first delimiter otherwise.
pub open spec fn body_end(s: Seq<u8>, field: FieldState, boundary: Seq<u8>) -> Option<int> {
    if field.eof {
        Some(0)
    } else {
        match field.length {
            Some(n) => if n <= s.len() {
                Some(n as int)
            } else {
                None
            },
            None => position(s, delimiter(boundary)),
        }
    }
}

/// The rest of a part's body at the front of `s`, and what follows the
/// line that the body ends in. A body that does not end, or is not
/// followed by a line feed, is `Incomplete`.
pub open spec fn body_rest(s: Seq<u8>, field: FieldState, boundary: Seq<u8>) -> Result<
    (Seq<u8>, Seq<u8>),
    MultipartError,
> {
    match body_end(s, field, boundary) {
        Some(k) => match position(s.subrange(k, s.len() as int), newline()) {
            Some(j) => Ok((s.subrange(0, k), s.subrange(k + j + 1, s.len() as int))),
            None => Err(MultipartError::Incomplete),
        },
        None => Err(MultipartError::Incomplete),
    }
}

/// What follows a part's body in `s`: the boundary line, and after an
/// opening line the parts that follow.
pub open spec fn after_body(s: Seq<u8>, boundary: Seq<u8>) -> Decoded
    decreases s.len(), 0nat,
    via after_body_decreases
{
    let (r, w) = boundary_step(whole(s), boundary);
    match r {
        Ok(Some(true)) => finished(),
        Ok(Some(false)) => parts_from(w.buf, boundary),
        Ok(None) => failing(MultipartError::Incomplete),
        Err(e) => failing(e),
    }
}

/// The parts in `s`, which begins with the header block of a part.
pub open spec fn parts_from(s: Seq<u8>, boundary: Seq<u8>) -> Decoded
    decreases s.len(), 1nat,
    via parts_from_decreases
{
    let (r, w) = headers_step(whole(s));
    match r {
        Ok(Some(h)) => match part_head(h) {
            Ok(head) => match body_rest(
                w.buf,
                FieldState { eof: false, length: head.length },
                boundary,
            ) {
                Ok((body, rest)) => join(
                    seq![PartModel { head, body }],
                    after_body(rest, boundary),
                ),
                Err(e) => cut(head, e),
            },
            Err(e) => failing(e),
        },
        Ok(None) => failing(MultipartError::Incomplete),
        Err(e) => failing(e),
    }
}

/// The message that the bytes `s` hold for a boundary token: the preamble
/// in front of the first boundary line counts for nothing, and what comes
/// after the closing mark is not read.
pub open spec fn decode(s: Seq<u8>, boundary: Seq<u8>) -> Decoded {
    let (r, w) = skip_step(whole(s), boundary);
    match r {
        Ok(Some(true)) => finished(),
        Ok(Some(false)) => parts_from(w.buf, boundary),
        Ok(None) => failing(MultipartError::Incomplete),
        Err(e) => failing(e),
    }
}

/// A boundary line that was found has been taken from the window.
pub proof fn lemma_boundary_shrinks(w: Window, boundary: Seq<u8>)
    ensures
        boundary_step(w, boundary).1.buf.len() <= w.buf.len(),
        boundary_step(w, boundary).0 == Ok::<Option<bool>, MultipartError>(Some(false))
            ==> boundary_step(w, boundary).1.buf.len() < w.buf.len(),
{
    lemma_position(w.buf, newline());
}

/// What follows a body is shorter than what the body began in, and no
/// longer than it by much.
pub proof fn lemma_body_rest_shrinks(s: Seq<u8>, field: FieldState, boundary: Seq<u8>)
    ensures
        match body_rest(s, field, boundary) {
            Ok((body, rest)) => rest.len() < s.len() && body.len() + rest.len() < s.len(),
            Err(_) => true,
        },
{
    match body_end(s, field, boundary) {
        Some(k) => {
            if !field.eof && field.length.is_none() {
                lemma_position(s, delimiter(boundary));
            }
            lemma_position(s.subrange(k, s.len() as int), newline());
        },
        None => {},
    }
}

#[via_fn]
proof fn after_body_decreases(s: Seq<u8>, boundary: Seq<u8>) {
    lemma_boundary_shrinks(whole(s), boundary);
}

#[via_fn]
proof fn parts_from_decreases(s: Seq<u8>, boundary: Seq<u8>) {
    lemma_position(s, blank_line());
    let (r, w) = headers_step(whole(s));
    if let Ok(Some(h)) = r {
        if let Ok(head) = part_head(h) {
            lemma_body_rest_shrinks(w.buf, FieldState { eof: false, length: head.length }, boundary);
        }
    }
}

} // verus!

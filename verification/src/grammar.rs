//! The wire grammar of a multipart message, as functions on the byte
//! window: what each reading step takes from the window and what it
//! answers.

use vstd::prelude::*;
use crate::bytes::{lemma_position, position, push_all, starts_with, CR, DASH, LF};
use crate::error::MultipartError;
use crate::payload::{drop_front, newline, Window};

verus! {

/// `CR LF`.
pub open spec fn crlf() -> Seq<u8> {
    seq![CR, LF]
}

/// `--`.
pub open spec fn dashes() -> Seq<u8> {
    seq![DASH, DASH]
}

/// The blank line that ends a header block: `CR LF CR LF`.
pub open spec fn blank_line() -> Seq<u8> {
    seq![CR, LF, CR, LF]
}

/// The line that opens a part: `--boundary CR LF`.
pub open spec fn open_line(boundary: Seq<u8>) -> Seq<u8> {
    dashes() + boundary + crlf()
}

/// The mark that closes the message: `--boundary--`.
pub open spec fn close_mark(boundary: Seq<u8>) -> Seq<u8> {
    dashes() + boundary + dashes()
}

/// The closing mark as a full line: `--boundary-- CR LF`.
pub open spec fn close_line(boundary: Seq<u8>) -> Seq<u8> {
    close_mark(boundary) + crlf()
}

/// What ends a body that declares no length: `CR LF --boundary`.
pub open spec fn delimiter(boundary: Seq<u8>) -> Seq<u8> {
    crlf() + dashes() + boundary
}

/// A boundary token that can delimit a message: not empty, and free of
/// carriage returns and line feeds.
pub open spec fn valid_boundary(boundary: Seq<u8>) -> bool {
    boundary.len() > 0 && forall|i: int|
        0 <= i < boundary.len() ==> boundary[i] != CR && boundary[i] != LF
}

/// What a step that looks for a boundary line answers: `Ok(None)` while
/// more bytes are needed, `Ok(Some(last))` for a boundary line, where
/// `last` tells the closing one.
pub type LineStep = Result<Option<bool>, MultipartError>;

/// The bytes at the end of the source, with no line feed among them, can
/// still grow into a boundary line.
pub open spec fn cut_short(rest: Seq<u8>, boundary: Seq<u8>) -> bool {
    starts_with(open_line(boundary), rest) || starts_with(close_line(boundary), rest)
}

/// Reading the line that must be a boundary delimiter.
///
/// A full line is taken from the window whatever it holds: the opening
/// line continues with a part, the closing line ends the message, any other
/// line is malformed. Without a line feed the step waits; at the end of
/// the source all that is left is taken: the bare closing mark still ends
/// the message, a line that was cut short is `Incomplete`, and anything
/// else is malformed.
pub open spec fn boundary_step(w: Window, boundary: Seq<u8>) -> (LineStep, Window) {
    match position(w.buf, newline()) {
        Some(i) => {
            let line = w.buf.subrange(0, i + 1);
            let rest = drop_front(w, i + 1);
            if line == open_line(boundary) {
                (Ok(Some(false)), rest)
            } else if line == close_line(boundary) {
                (Ok(Some(true)), rest)
            } else {
                (Err(MultipartError::MalformedBoundaryLine), rest)
            }
        },
        None => if !w.eof {
            (Ok(None), w)
        } else {
            let rest = drop_front(w, w.buf.len() as int);
            if w.buf == close_mark(boundary) {
                (Ok(Some(true)), rest)
            } else if cut_short(w.buf, boundary) {
                (Err(MultipartError::Incomplete), rest)
            } else {
                (Err(MultipartError::MalformedBoundaryLine), rest)
            }
        },
    }
}

/// Skipping the preamble: lines are dropped until one is a boundary line.
///
/// Every full line that is no boundary line is taken from the window and
/// forgotten. Without a further line feed the step waits; at the end of the
/// source the bare closing mark ends the message and anything else is
/// `Incomplete`.
pub open spec fn skip_step(w: Window, boundary: Seq<u8>) -> (LineStep, Window)
    decreases w.buf.len(),
    via skip_step_decreases
{
    match position(w.buf, newline()) {
        Some(i) => {
            let line = w.buf.subrange(0, i + 1);
            let rest = drop_front(w, i + 1);
            if line == open_line(boundary) {
                (Ok(Some(false)), rest)
            } else if line == close_line(boundary) {
                (Ok(Some(true)), rest)
            } else {
                skip_step(rest, boundary)
            }
        },
        None => if !w.eof {
            (Ok(None), w)
        } else if w.buf == close_mark(boundary) {
            (Ok(Some(true)), drop_front(w, w.buf.len() as int))
        } else {
            (Err(MultipartError::Incomplete), w)
        },
    }
}

#[via_fn]
proof fn skip_step_decreases(w: Window, boundary: Seq<u8>) {
    lemma_position(w.buf, newline());
}

/// What a step that reads a body answers.
pub enum BodyStep {
    /// More bytes are needed.
    Pending,
    /// The next bytes of the body.
    Data(Seq<u8>),
    /// The body has ended.
    End,
    /// The body cannot be read.
    Failed(MultipartError),
}

/// Reading a body of declared length, of which `size` bytes are still
/// owed: whatever is buffered is handed out, up to `size` bytes. The
/// result holds the step, the window after it and the bytes then owed.
pub open spec fn length_step(w: Window, size: u64) -> (BodyStep, Window, u64) {
    if size == 0 {
        (BodyStep::End, w, size)
    } else if w.buf.len() > 0 {
        let n = if w.buf.len() <= size {
            w.buf.len() as int
        } else {
            size as int
        };
        (BodyStep::Data(w.buf.subrange(0, n)), drop_front(w, n), (size - n) as u64)
    } else if w.eof {
        (BodyStep::Failed(MultipartError::Incomplete), w, size)
    } else {
        (BodyStep::Pending, w, size)
    }
}

/// Reading a body that ends at the delimiter `CR LF --boundary`.
///
/// All bytes in front of the first delimiter are handed out, and the
/// delimiter itself stays in the window. While no delimiter is buffered the
/// last `delimiter.len() - 1` bytes are held back, since they may be the
/// beginning of one; at the end of the source nothing is held back, and an
/// empty window is then `Incomplete`.
pub open spec fn scan_step(w: Window, boundary: Seq<u8>) -> (BodyStep, Window) {
    let d = delimiter(boundary);
    if w.buf.len() == 0 {
        if w.eof {
            (BodyStep::Failed(MultipartError::Incomplete), w)
        } else {
            (BodyStep::Pending, w)
        }
    } else {
        match position(w.buf, d) {
            Some(i) => if i == 0 {
                (BodyStep::End, w)
            } else {
                (BodyStep::Data(w.buf.subrange(0, i)), drop_front(w, i))
            },
            None => if w.eof {
                (BodyStep::Data(w.buf), drop_front(w, w.buf.len() as int))
            } else if w.buf.len() >= d.len() {
                let n = w.buf.len() - (d.len() - 1);
                (BodyStep::Data(w.buf.subrange(0, n)), drop_front(w, n))
            } else {
                (BodyStep::Pending, w)
            },
        }
    }
}

/// How far a part's body has been read.
pub struct FieldState {
    /// The body itself has ended; the line break after it is still owed.
    pub eof: bool,
    /// The bytes still owed, for a body of declared length.
    pub length: Option<u64>,
}

/// One reading step on a part: the body comes first, by its declared
/// length or up to the delimiter; once it has ended, the rest of the line
/// is taken from the window, and with that the part is done.
pub open spec fn field_step(w: Window, field: FieldState, boundary: Seq<u8>) -> (
    BodyStep,
    Window,
    FieldState,
) {
    let (step, w1, length) = if field.eof {
        (BodyStep::End, w, field.length)
    } else {
        match field.length {
            Some(size) => {
                let (s, w1, left) = length_step(w, size);
                (s, w1, Some(left))
            },
            None => {
                let (s, w1) = scan_step(w, boundary);
                (s, w1, None)
            },
        }
    };
    match step {
        BodyStep::End => {
            let ended = FieldState { eof: true, length };
            match position(w1.buf, newline()) {
                Some(i) => (BodyStep::End, drop_front(w1, i + 1), ended),
                None => if w1.eof {
                    (BodyStep::Failed(MultipartError::Incomplete), w1, ended)
                } else {
                    (BodyStep::Pending, w1, ended)
                },
            }
        },
        _ => (step, w1, FieldState { eof: false, length }),
    }
}

/// Builds `--boundary CR LF`.
pub fn open_line_of(boundary: &[u8]) -> (r: Vec<u8>)
    ensures
        r@ == open_line(boundary@),
{
    let mut r: Vec<u8> = Vec::new();
    r.push(DASH);
    r.push(DASH);
    push_all(&mut r, boundary);
    r.push(CR);
    r.push(LF);
    assert(r@ =~= open_line(boundary@));
    r
}

/// Builds `--boundary--`.
pub fn close_mark_of(boundary: &[u8]) -> (r: Vec<u8>)
    ensures
        r@ == close_mark(boundary@),
{
    let mut r: Vec<u8> = Vec::new();
    r.push(DASH);
    r.push(DASH);
    push_all(&mut r, boundary);
    r.push(DASH);
    r.push(DASH);
    assert(r@ =~= close_mark(boundary@));
    r
}

/// Builds `--boundary-- CR LF`.
pub fn close_line_of(boundary: &[u8]) -> (r: Vec<u8>)
    ensures
        r@ == close_line(boundary@),
{
    let mut r = close_mark_of(boundary);
    r.push(CR);
    r.push(LF);
    assert(r@ =~= close_line(boundary@));
    r
}

/// Builds `CR LF --boundary`.
pub fn delimiter_of(boundary: &[u8]) -> (r: Vec<u8>)
    ensures
        r@ == delimiter(boundary@),
{
    let mut r: Vec<u8> = Vec::new();
    r.push(CR);
    r.push(LF);
    r.push(DASH);
    r.push(DASH);
    push_all(&mut r, boundary);
    assert(r@ =~= delimiter(boundary@));
    r
}

} // verus!

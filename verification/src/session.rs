//! The decoder as a state machine on values: what each request to it
//! answers, and the state it leaves behind.

use vstd::prelude::*;
use actix_web::error::PayloadError;
use crate::error::MultipartError;
use crate::grammar::{boundary_step, field_step, skip_step, BodyStep, FieldState, LineStep};
use crate::header::{headers_step, part_head, PartHead};
use crate::payload::Window;
use crate::safety::Guard;
use crate::server::InnerState;

verus! {

/// A decoding session, as a value.
pub struct Session {
    /// The byte window.
    pub window: Window,
    /// The boundary token.
    pub boundary: Seq<u8>,
    /// Where the decoder stands between two parts.
    pub state: InnerState,
    /// How far the part in flight has been read, while there is one.
    pub field: Option<FieldState>,
    /// The consumption guard.
    pub guard: Guard,
    /// The failure that ended the session, if one did.
    pub error: Option<MultipartError>,
    /// The error of the byte source, where that is what ended the session.
    pub cause: Option<PayloadError>,
}

/// A part as the decoder hands it out, as a value.
pub struct PartView {
    /// What its headers say.
    pub head: PartHead,
    /// The number of its handle on the byte window.
    pub level: u128,
}

/// What a request for the next part answers.
pub enum PartStep {
    /// More bytes have to arrive first.
    Pending,
    /// The next part.
    Part(PartView),
    /// The message has ended.
    End,
    /// The session has failed.
    Failed(MultipartError),
}

/// A fresh session on an empty window.
pub open spec fn opened(boundary: Seq<u8>) -> Session {
    Session {
        window: Window { buf: Seq::<u8>::empty(), eof: false },
        boundary,
        state: InnerState::FirstBoundary,
        field: None,
        guard: Guard { issued: 0, drained: 0, clean: true },
        error: None,
        cause: None,
    }
}

/// A session that failed before it began.
pub open spec fn refused(error: MultipartError) -> Session {
    Session {
        window: Window { buf: Seq::<u8>::empty(), eof: false },
        boundary: Seq::<u8>::empty(),
        state: InnerState::Eof,
        field: None,
        guard: Guard { issued: 0, drained: 0, clean: true },
        error: Some(error),
        cause: None,
    }
}

/// The session after `chunk` has arrived. After the end of the source
/// nothing more is taken in.
pub open spec fn fed(s: Session, chunk: Seq<u8>) -> Session {
    if s.window.eof {
        s
    } else {
        Session { window: Window { buf: s.window.buf + chunk, eof: false }, ..s }
    }
}

/// The session after the source has ended.
pub open spec fn ended(s: Session) -> Session {
    Session { window: Window { buf: s.window.buf, eof: true }, ..s }
}

/// A session that answers every request with a failure: it has failed, or
/// a part of it was left unread.
pub open spec fn lost(s: Session) -> bool {
    s.error.is_some() || !s.guard.clean
}

/// The failure that a lost session answers with.
pub open spec fn loss(s: Session) -> MultipartError {
    if s.error.is_some() {
        s.error.unwrap()
    } else {
        MultipartError::NotConsumed
    }
}

/// The session after the source has failed with `cause`: the session fails
/// with `TransportError` and keeps `cause` as it is. A session that is
/// lost already stays as it is, with the failure it had.
pub open spec fn broken(s: Session, cause: PayloadError) -> Session {
    if lost(s) {
        s
    } else {
        Session { error: Some(MultipartError::TransportError), cause: Some(cause), ..s }
    }
}

/// The session after it has failed with `e`.
pub open spec fn failed(s: Session, e: MultipartError) -> (PartStep, Session) {
    (PartStep::Failed(e), Session { error: Some(e), ..s })
}

/// Reading a header block and handing out the part it announces. The
/// part gets a fresh handle on the window; where the guard has none to
/// give, the session fails with `NotConsumed`.
pub open spec fn headers_phase(s: Session) -> (PartStep, Session) {
    let (r, w) = headers_step(s.window);
    let s1 = Session { window: w, ..s };
    match r {
        Ok(None) => (PartStep::Pending, s1),
        Err(e) => failed(s1, e),
        Ok(Some(h)) => {
            let s2 = Session { state: InnerState::Boundary, ..s1 };
            match part_head(h) {
                Err(e) => failed(s2, e),
                Ok(head) => {
                    let (handle, guard) = s2.guard.acquired();
                    match handle {
                        None => failed(Session { guard, ..s2 }, MultipartError::NotConsumed),
                        Some(level) => (
                            PartStep::Part(PartView { head, level }),
                            Session {
                                guard,
                                field: Some(FieldState { eof: false, length: head.length }),
                                ..s2
                            },
                        ),
                    }
                },
            }
        },
    }
}

/// What follows a step that looked for a boundary line.
pub open spec fn after_line(s: Session, step: (LineStep, Window)) -> (PartStep, Session) {
    let s1 = Session { window: step.1, ..s };
    match step.0 {
        Ok(None) => (PartStep::Pending, s1),
        Ok(Some(true)) => (PartStep::End, Session { state: InnerState::Eof, ..s1 }),
        Ok(Some(false)) => headers_phase(Session { state: InnerState::Headers, ..s1 }),
        Err(e) => failed(s1, e),
    }
}

/// The decoder's step between two parts, by the state it is in.
pub open spec fn inner_poll(s: Session) -> (PartStep, Session) {
    match s.state {
        InnerState::Eof => (PartStep::End, s),
        InnerState::FirstBoundary => after_line(s, skip_step(s.window, s.boundary)),
        InnerState::Boundary => after_line(s, boundary_step(s.window, s.boundary)),
        InnerState::Headers => headers_phase(s),
    }
}

/// A request for the next part.
///
/// A failed session answers with its failure, a dirty one with
/// `NotConsumed`. A request that comes while the last part has not been
/// read to its end makes the session dirty and is answered with
/// `NotConsumed` too. Otherwise the decoder takes its step.
pub open spec fn next_part(s: Session) -> (PartStep, Session) {
    if s.error.is_some() {
        (PartStep::Failed(s.error.unwrap()), s)
    } else if !s.guard.clean {
        (PartStep::Failed(MultipartError::NotConsumed), s)
    } else if !s.guard.idle() {
        (
            PartStep::Failed(MultipartError::NotConsumed),
            Session { guard: Guard { clean: false, ..s.guard }, ..s },
        )
    } else {
        inner_poll(s)
    }
}

/// A request for the next chunk of the part with handle `level`.
///
/// A failed session answers with its failure, a dirty one with
/// `NotConsumed`. A handle that is not the current one, or has read its part
/// to the end, answers with the end of the body. Otherwise the part takes
/// its reading step; the end of the body releases the window.
pub open spec fn next_chunk(s: Session, level: u128) -> (BodyStep, Session) {
    if s.error.is_some() {
        (BodyStep::Failed(s.error.unwrap()), s)
    } else if !s.guard.clean {
        (BodyStep::Failed(MultipartError::NotConsumed), s)
    } else if !s.guard.is_current(level) || s.guard.idle() || s.field.is_none() {
        (BodyStep::End, s)
    } else {
        let (step, w, f) = field_step(s.window, s.field.unwrap(), s.boundary);
        let s1 = Session { window: w, field: Some(f), ..s };
        match step {
            BodyStep::End => (
                BodyStep::End,
                Session { field: None, guard: s.guard.released(level), ..s1 },
            ),
            BodyStep::Failed(e) => (BodyStep::Failed(e), Session { error: Some(e), ..s1 }),
            _ => (step, s1),
        }
    }
}

} // verus!

//! Reading a whole message: the bytes are taken in as they arrive, every
//! part is read to its end, and what comes out is what the message holds,
//! however the bytes were cut into chunks.

use vstd::prelude::*;
use crate::bytes::{lemma_position, position, push_all};
use crate::error::MultipartError;
use crate::grammar::{
    blank_line, boundary_step, delimiter, field_step, length_step, scan_step, skip_step,
    BodyStep, FieldState,
};
use crate::header::{headers_step, part_head};
use crate::message::{
    after_body, body_rest, cut, decode, failing, finished, join, parts_from, Decoded, PartModel,
};
use crate::payload::{drop_front, newline, Window};
use crate::server::{InnerState, MultipartRelated, NextChunk, NextPart, Object};
use crate::session::{
    ended, fed, headers_phase, next_chunk, next_part, opened, PartStep, PartView, Session,
};
use crate::stream::{
    field_agrees, lemma_boundary_extend, lemma_field_extend, lemma_headers_extend,
    lemma_skip_extend, may_follow,
};

verus! {

/// What is still to be read of a message, for a session and the bytes
/// `stream` that its window holds and will hold: the rest of the part in
/// flight, whose body so far is `reading`, and the parts after it.
pub open spec fn resume(s: Session, reading: Option<PartModel>, stream: Seq<u8>) -> Decoded {
    if s.error.is_some() {
        match reading {
            Some(part) => cut(part.head, s.error.unwrap()),
            None => failing(s.error.unwrap()),
        }
    } else {
        match reading {
            Some(part) => match s.field {
                Some(f) => match body_rest(stream, f, s.boundary) {
                    Ok((more, rest)) => join(
                        seq![PartModel { head: part.head, body: part.body + more }],
                        after_body(rest, s.boundary),
                    ),
                    Err(e) => cut(part.head, e),
                },
                None => join(seq![part], after_body(stream, s.boundary)),
            },
            None => match s.state {
                InnerState::FirstBoundary => decode(stream, s.boundary),
                InnerState::Headers => parts_from(stream, s.boundary),
                InnerState::Boundary => after_body(stream, s.boundary),
                InnerState::Eof => finished(),
            },
        }
    }
}

/// A session between two parts that can take its step.
pub open spec fn between_parts(s: Session) -> bool {
    &&& s.error.is_none()
    &&& s.guard.clean
    &&& s.guard.idle()
    &&& s.guard.issued < u128::MAX
}

/// What a request for the next part means for the whole message.
pub open spec fn part_agrees(s: Session, more: Seq<u8>) -> bool {
    let (r, s1) = next_part(s);
    let total = s.window.buf + more;
    let left = s1.window.buf + more;
    &&& s1.boundary == s.boundary
    &&& s1.window.eof == s.window.eof
    &&& s1.guard.clean
    &&& s1.guard.drained == s.guard.drained
    &&& match r {
        PartStep::Pending => {
            &&& !s.window.eof
            &&& s1.error.is_none()
            &&& s1.guard == s.guard
            &&& s1.field.is_none()
            &&& s1.window.buf.len() <= s.window.buf.len()
            &&& resume(s, None, total) == resume(s1, None, left)
        },
        PartStep::Part(p) => {
            &&& s1.error.is_none()
            &&& s1.state == InnerState::Boundary
            &&& s1.guard.issued == s.guard.issued + 1
            &&& p.level == s1.guard.issued
            &&& s1.field == Some(FieldState { eof: false, length: p.head.length })
            &&& s1.window.buf.len() < s.window.buf.len()
            &&& resume(s, None, total) == resume(
                s1,
                Some(PartModel { head: p.head, body: Seq::<u8>::empty() }),
                left,
            )
        },
        PartStep::End => {
            &&& s1.error.is_none()
            &&& s1.state == InnerState::Eof
            &&& s1.guard == s.guard
            &&& s1.field.is_none()
            &&& resume(s, None, total) == finished()
        },
        PartStep::Failed(e) => {
            &&& s1.error == Some(e)
            &&& s1.guard == s.guard
            &&& resume(s, None, total) == failing(e)
        },
    }
}

/// At the end of the source the preamble is decided.
pub proof fn lemma_skip_decides(w: Window, boundary: Seq<u8>)
    requires
        w.eof,
    ensures
        skip_step(w, boundary).0 != Ok::<Option<bool>, MultipartError>(None),
        skip_step(w, boundary).1.buf.len() <= w.buf.len(),
    decreases w.buf.len(),
{
    lemma_position(w.buf, newline());
    match position(w.buf, newline()) {
        Some(i) => {
            lemma_skip_decides(drop_front(w, i + 1), boundary);
        },
        None => {},
    }
}

/// The preamble step never lengthens the window.
pub proof fn lemma_skip_shrinks(w: Window, boundary: Seq<u8>)
    ensures
        skip_step(w, boundary).1.buf.len() <= w.buf.len(),
        skip_step(w, boundary).1.eof == w.eof,
    decreases w.buf.len(),
{
    lemma_position(w.buf, newline());
    match position(w.buf, newline()) {
        Some(i) => {
            lemma_skip_shrinks(drop_front(w, i + 1), boundary);
        },
        None => {},
    }
}

/// The header block and the part it announces: what the decoder reads
/// from the bytes at hand is what the whole message holds.
proof fn lemma_headers_phase(s: Session, more: Seq<u8>)
    requires
        between_parts(s),
        s.field.is_none(),
        s.state == InnerState::Headers,
        may_follow(s.window, more),
    ensures
        ({
            let (r, s1) = headers_phase(s);
            let total = s.window.buf + more;
            let left = s1.window.buf + more;
            &&& s1.boundary == s.boundary
            &&& s1.window.eof == s.window.eof
            &&& s1.guard.clean
            &&& s1.guard.drained == s.guard.drained
            &&& match r {
                PartStep::Pending => {
                    &&& !s.window.eof
                    &&& s1 == s
                },
                PartStep::Part(p) => {
                    &&& s1.error.is_none()
                    &&& s1.state == InnerState::Boundary
                    &&& s1.guard.issued == s.guard.issued + 1
                    &&& p.level == s1.guard.issued
                    &&& s1.field == Some(FieldState { eof: false, length: p.head.length })
                    &&& s1.window.buf.len() < s.window.buf.len()
                    &&& parts_from(total, s.boundary) == resume(
                        s1,
                        Some(PartModel { head: p.head, body: Seq::<u8>::empty() }),
                        left,
                    )
                },
                PartStep::End => false,
                PartStep::Failed(e) => {
                    &&& s1.error == Some(e)
                    &&& s1.guard == s.guard
                    &&& parts_from(total, s.boundary) == failing(e)
                },
            }
        }),
{
    lemma_headers_extend(s.window, more);
    lemma_position(s.window.buf, blank_line());
    let (r0, w0) = headers_step(s.window);
    let left = w0.buf + more;
    match r0 {
        Ok(Some(h)) => {
            match part_head(h) {
                Ok(head) => {
                    let f = FieldState { eof: false, length: head.length };
                    match body_rest(left, f, s.boundary) {
                        Ok((body, rest)) => {
                            assert(Seq::<u8>::empty() + body =~= body);
                        },
                        Err(_) => {},
                    }
                },
                Err(_) => {},
            }
        },
        _ => {},
    }
}

/// What a request for the next part answers on the bytes at hand is what
/// the whole message holds, whatever bytes follow.
pub proof fn lemma_part_agrees(s: Session, more: Seq<u8>)
    requires
        between_parts(s),
        s.field.is_none(),
        may_follow(s.window, more),
    ensures
        part_agrees(s, more),
{
    let total = s.window.buf + more;
    match s.state {
        InnerState::Eof => {},
        InnerState::Headers => {
            lemma_headers_phase(s, more);
        },
        InnerState::FirstBoundary => {
            lemma_skip_extend(s.window, more, s.boundary);
            lemma_skip_shrinks(s.window, s.boundary);
            if s.window.eof {
                lemma_skip_decides(s.window, s.boundary);
            }
            let (r0, w0) = skip_step(s.window, s.boundary);
            if r0 == Ok::<Option<bool>, MultipartError>(Some(false)) {
                lemma_headers_phase(Session { window: w0, state: InnerState::Headers, ..s }, more);
            }
        },
        InnerState::Boundary => {
            lemma_boundary_extend(s.window, more, s.boundary);
            lemma_position(s.window.buf, newline());
            let (r0, w0) = boundary_step(s.window, s.boundary);
            if r0 == Ok::<Option<bool>, MultipartError>(Some(false)) {
                lemma_headers_phase(Session { window: w0, state: InnerState::Headers, ..s }, more);
            }
        },
    }
}

/// A request for the next part never lengthens the window.
pub proof fn lemma_part_window(s: Session)
    ensures
        next_part(s).1.window.buf.len() <= s.window.buf.len(),
{
    lemma_skip_shrinks(s.window, s.boundary);
    lemma_position(s.window.buf, newline());
    lemma_position(s.window.buf, blank_line());
    let after_skip = skip_step(s.window, s.boundary).1;
    lemma_position(after_skip.buf, blank_line());
    let after_line = boundary_step(s.window, s.boundary).1;
    lemma_position(after_line.buf, blank_line());
}

/// A session with a part in flight that can take its reading step.
pub open spec fn in_part(s: Session, level: u128) -> bool {
    &&& s.error.is_none()
    &&& s.guard.is_current(level)
    &&& !s.guard.idle()
    &&& s.field.is_some()
    &&& s.state == InnerState::Boundary
}

/// What a request for the next chunk means for the whole message.
pub open spec fn chunk_agrees(s: Session, level: u128, part: PartModel, more: Seq<u8>) -> bool {
    let (r, s1) = next_chunk(s, level);
    let total = s.window.buf + more;
    let left = s1.window.buf + more;
    &&& s1.boundary == s.boundary
    &&& s1.window.eof == s.window.eof
    &&& s1.window.buf.len() <= s.window.buf.len()
    &&& s1.state == s.state
    &&& s1.guard.clean
    &&& s1.guard.issued == s.guard.issued
    &&& match r {
        BodyStep::Pending => {
            &&& !s.window.eof
            &&& in_part(s1, level)
            &&& s1.window.buf.len() <= s.window.buf.len()
            &&& resume(s, Some(part), total) == resume(s1, Some(part), left)
        },
        BodyStep::Data(d) => {
            &&& in_part(s1, level)
            &&& s1.window.buf.len() < s.window.buf.len()
            &&& resume(s, Some(part), total) == resume(
                s1,
                Some(PartModel { head: part.head, body: part.body + d }),
                left,
            )
        },
        BodyStep::End => {
            &&& s1.error.is_none()
            &&& s1.guard.idle()
            &&& s1.field.is_none()
            &&& s1.window.buf.len() < s.window.buf.len()
            &&& resume(s, Some(part), total) == join(seq![part], resume(s1, None, left))
        },
        BodyStep::Failed(e) => {
            &&& s1.error == Some(e)
            &&& resume(s, Some(part), total) == cut(part.head, e)
        },
    }
}

/// What a request for the next chunk answers on the bytes at hand is what
/// the whole message holds, whatever bytes follow.
pub proof fn lemma_chunk_agrees(s: Session, level: u128, part: PartModel, more: Seq<u8>)
    requires
        in_part(s, level),
        may_follow(s.window, more),
    ensures
        chunk_agrees(s, level, part, more),
{
    let f = s.field.unwrap();
    lemma_field_extend(s.window, f, more, s.boundary);
    assert(field_agrees(s.window, f, more, s.boundary));
    let (step, w1, f1) = field_step(s.window, f, s.boundary);
    let total = s.window.buf + more;
    let left = w1.buf + more;
    lemma_field_window(s.window, f, s.boundary);
    match step {
        BodyStep::Data(d) => {
            match body_rest(left, f1, s.boundary) {
                Ok((m, rest)) => {
                    assert(part.body + (d + m) =~= (part.body + d) + m);
                },
                Err(_) => {},
            }
        },
        BodyStep::End => {
            assert(part.body + Seq::<u8>::empty() =~= part.body);
        },
        _ => {},
    }
}

/// A reading step on a part leaves the end mark of the window alone, and
/// waits only while the source has not ended.
pub proof fn lemma_field_window(w: Window, field: FieldState, boundary: Seq<u8>)
    ensures
        field_step(w, field, boundary).1.eof == w.eof,
        field_step(w, field, boundary).1.buf.len() <= w.buf.len(),
        field_step(w, field, boundary).0 == BodyStep::Pending ==> !w.eof,
{
    lemma_position(w.buf, newline());
    lemma_position(w.buf, delimiter(boundary));
    let w1 = field_step(w, field, boundary).1;
    lemma_position(w1.buf, newline());
    if !field.eof {
        match field.length {
            Some(size) => {
                lemma_position(length_step(w, size).1.buf, newline());
            },
            None => {
                lemma_position(scan_step(w, boundary).1.buf, newline());
            },
        }
    }
}

/// A part that has been read in full.
pub struct CollectedPart {
    /// The part as the decoder handed it out.
    pub part: Object,
    /// Its body.
    pub body: Vec<u8>,
}

impl View for CollectedPart {
    type V = PartModel;

    open spec fn view(&self) -> PartModel {
        PartModel { head: self.part@.head, body: self.body@ }
    }
}

/// The parts of a list, as values.
pub open spec fn models(parts: Seq<CollectedPart>) -> Seq<PartModel> {
    Seq::new(parts.len(), |i: int| parts[i]@)
}

/// What was read from a message.
pub struct Collected {
    /// The parts read in full, in their order.
    pub parts: Vec<CollectedPart>,
    /// The part whose body the failure cut short, if it cut one.
    pub unfinished: Option<Object>,
    /// The failure that ended the reading, if one did.
    pub error: Option<MultipartError>,
}

impl View for Collected {
    type V = Decoded;

    open spec fn view(&self) -> Decoded {
        Decoded {
            parts: models(self.parts@),
            unfinished: match self.unfinished {
                Some(o) => Some(o@.head),
                None => None,
            },
            error: self.error,
        }
    }
}

/// What a collector holds, as a value.
pub struct CollectorView {
    /// The decoding session.
    pub session: Session,
    /// The parts read in full.
    pub parts: Seq<PartModel>,
    /// The part in flight, with its body so far.
    pub reading: Option<(PartView, Seq<u8>)>,
    /// All the bytes taken in so far.
    pub fed: Seq<u8>,
    /// The message has ended or failed.
    pub done: bool,
}

impl CollectorView {
    /// The part in flight, with its body so far.
    pub open spec fn model(self) -> Option<PartModel> {
        match self.reading {
            Some((p, body)) => Some(PartModel { head: p.head, body }),
            None => None,
        }
    }

    /// What the message holds if `more` is all that still arrives.
    pub open spec fn outlook(self, more: Seq<u8>) -> Decoded {
        join(self.parts, resume(self.session, self.model(), self.session.window.buf + more))
    }

    /// What has been read agrees with the message: whatever bytes still
    /// arrive, the parts read in full and the rest of the bytes make up
    /// what the whole message holds.
    pub open spec fn coherent(self) -> bool {
        &&& self.session.guard.clean
        &&& self.session.guard.issued == self.parts.len() + (if self.reading.is_some() {
            1int
        } else {
            0int
        })
        &&& match self.reading {
            Some((p, _)) => !self.session.guard.idle() && p.level == self.session.guard.issued && (
            self.session.error.is_none() ==> in_part(self.session, p.level)),
            None => self.session.guard.idle() && self.session.field.is_none(),
        }
        &&& (!self.done ==> self.session.error.is_none())
        &&& (self.done ==> self.session.error.is_some() || (self.session.state
            == InnerState::Eof && self.reading.is_none()))
        &&& forall|more: Seq<u8>|
            may_follow(self.session.window, more) ==> #[trigger] self.agrees(more)
    }

    /// If `more` is all that still arrives, the message as a whole holds
    /// the parts read in full and what the rest of the bytes hold.
    pub open spec fn agrees(self, more: Seq<u8>) -> bool {
        decode(self.fed + more, self.session.boundary) == self.outlook(more)
    }
}

/// The collector after one reading step on the part in flight.
pub open spec fn chunk_taken(c: CollectorView) -> CollectorView {
    match c.reading {
        Some((p, body)) => {
            let (r, s1) = next_chunk(c.session, p.level);
            match r {
                BodyStep::Pending => CollectorView { session: s1, ..c },
                BodyStep::Data(d) => CollectorView {
                    session: s1,
                    reading: Some((p, body + d)),
                    ..c
                },
                BodyStep::End => CollectorView {
                    session: s1,
                    reading: None,
                    parts: c.parts.push(PartModel { head: p.head, body }),
                    ..c
                },
                BodyStep::Failed(_) => CollectorView { session: s1, done: true, ..c },
            }
        },
        None => c,
    }
}

/// The collector after one step between two parts.
pub open spec fn part_taken(c: CollectorView) -> CollectorView {
    let (r, s1) = next_part(c.session);
    match r {
        PartStep::Pending => CollectorView { session: s1, ..c },
        PartStep::Part(p) => CollectorView {
            session: s1,
            reading: Some((p, Seq::<u8>::empty())),
            ..c
        },
        PartStep::End => CollectorView { session: s1, done: true, ..c },
        PartStep::Failed(_) => CollectorView { session: s1, done: true, ..c },
    }
}

/// Whether a step got on: it took a part, a chunk or the end of a body.
pub open spec fn reads_on(after: CollectorView, before: CollectorView) -> bool {
    !after.done && (after.reading != before.reading || after.parts != before.parts)
}

/// What holds after a step of a coherent collector.
pub open spec fn stepped(after: CollectorView, before: CollectorView) -> bool {
    &&& after.coherent()
    &&& after.fed == before.fed
    &&& after.session.boundary == before.session.boundary
    &&& after.session.window.eof == before.session.window.eof
    &&& (reads_on(after, before) ==> after.session.window.buf.len()
        < before.session.window.buf.len())
    &&& (!reads_on(after, before) && before.session.window.eof ==> after.done)
    &&& (!reads_on(after, before) ==> settled(after))
    &&& after.session.guard.issued + after.session.window.buf.len()
        <= before.session.guard.issued + before.session.window.buf.len()
}

/// A collector that has read as far as the bytes reach: the message is
/// over, or the next step waits for bytes.
pub open spec fn settled(c: CollectorView) -> bool {
    c.done || match c.reading {
        Some((p, _)) => next_chunk(c.session, p.level).0 is Pending,
        None => next_part(c.session).0 is Pending,
    }
}

/// A preamble step that waits for bytes waits again until bytes arrive.
pub proof fn lemma_skip_waits(w: Window, boundary: Seq<u8>)
    requires
        skip_step(w, boundary).0 == Ok::<Option<bool>, MultipartError>(None),
    ensures
        skip_step(skip_step(w, boundary).1, boundary) == skip_step(w, boundary),
    decreases w.buf.len(),
{
    lemma_position(w.buf, newline());
    match position(w.buf, newline()) {
        Some(i) => {
            lemma_skip_waits(drop_front(w, i + 1), boundary);
        },
        None => {},
    }
}

/// A request for the next part that waits for bytes waits again until
/// bytes arrive.
pub proof fn lemma_part_waits(s: Session)
    requires
        between_parts(s),
        s.field.is_none(),
        next_part(s).0 is Pending,
    ensures
        next_part(next_part(s).1).0 is Pending,
{
    lemma_position(s.window.buf, newline());
    lemma_position(s.window.buf, blank_line());
    if s.state == InnerState::FirstBoundary && skip_step(s.window, s.boundary).0 == Ok::<
        Option<bool>,
        MultipartError,
    >(None) {
        lemma_skip_waits(s.window, s.boundary);
    }
}

/// A request for the next chunk that waits for bytes waits again until
/// bytes arrive.
pub proof fn lemma_chunk_waits(s: Session, level: u128)
    requires
        in_part(s, level),
        next_chunk(s, level).0 is Pending,
    ensures
        next_chunk(next_chunk(s, level).1, level).0 is Pending,
{
    lemma_field_window(s.window, s.field.unwrap(), s.boundary);
    lemma_position(s.window.buf, delimiter(s.boundary));
}

/// What a collector needs for a reading step on the part in flight.
pub open spec fn reading_part(c: CollectorView) -> bool {
    &&& !c.done
    &&& c.session.error.is_none()
    &&& match c.reading {
        Some((p, _)) => in_part(c.session, p.level),
        None => false,
    }
}

/// A reading step on the part in flight keeps the agreement with the
/// message, for the bytes `more` that still arrive.
proof fn lemma_chunk_taken_agrees(c: CollectorView, more: Seq<u8>)
    requires
        reading_part(c),
        may_follow(c.session.window, more),
        c.agrees(more),
    ensures
        chunk_taken(c).agrees(more),
{
    let after = chunk_taken(c);
    let (p, body) = c.reading.unwrap();
    let part = c.model().unwrap();
    lemma_chunk_agrees(c.session, p.level, part, more);
    let rest = resume(after.session, None, after.session.window.buf + more);
    assert(c.parts + (seq![part] + rest.parts) =~= c.parts.push(part) + rest.parts);
}

/// A reading step on the part in flight that hands out bytes hands out at
/// least one.
proof fn lemma_chunk_grows(c: CollectorView)
    requires
        reading_part(c),
    ensures
        match next_chunk(c.session, c.reading.unwrap().0.level).0 {
            BodyStep::Data(d) => d.len() > 0,
            _ => true,
        },
{
    lemma_field_extend(
        c.session.window,
        c.session.field.unwrap(),
        Seq::<u8>::empty(),
        c.session.boundary,
    );
}

/// A reading step on the part in flight keeps the collector coherent.
pub proof fn lemma_chunk_taken(c: CollectorView)
    requires
        c.coherent(),
        !c.done,
        c.reading.is_some(),
    ensures
        stepped(chunk_taken(c), c),
{
    let after = chunk_taken(c);
    let (p, body) = c.reading.unwrap();
    let part = c.model().unwrap();
    lemma_chunk_agrees(c.session, p.level, part, Seq::<u8>::empty());
    lemma_chunk_grows(c);
    if next_chunk(c.session, p.level).0 is Pending {
        lemma_chunk_waits(c.session, p.level);
    }
    assert forall|more: Seq<u8>| may_follow(after.session.window, more) implies #[trigger] after.agrees(more) by {
        assert(c.agrees(more));
        lemma_chunk_taken_agrees(c, more);
    }
    match next_chunk(c.session, p.level).0 {
        BodyStep::Data(d) => {
            assert((body + d).len() != body.len());
        },
        _ => {},
    }
}

/// A step between two parts keeps the collector coherent.
pub proof fn lemma_part_taken(c: CollectorView)
    requires
        c.coherent(),
        !c.done,
        c.reading.is_none(),
        c.parts.len() < u128::MAX,
    ensures
        stepped(part_taken(c), c),
{
    let after = part_taken(c);
    lemma_part_agrees(c.session, Seq::<u8>::empty());
    lemma_part_window(c.session);
    if next_part(c.session).0 is Pending {
        lemma_part_waits(c.session);
    }
    assert forall|more: Seq<u8>| may_follow(after.session.window, more) implies #[trigger] after.agrees(more) by {
        lemma_part_agrees(c.session, more);
        assert(c.agrees(more));
    }
}

/// A collector that has taken in nothing yet.
pub open spec fn fresh(boundary: Seq<u8>) -> CollectorView {
    CollectorView {
        session: opened(boundary),
        parts: Seq::<PartModel>::empty(),
        reading: None,
        fed: Seq::<u8>::empty(),
        done: false,
    }
}

/// A collector that has taken in nothing yet is coherent.
pub proof fn lemma_fresh(boundary: Seq<u8>)
    ensures
        fresh(boundary).coherent(),
{
    let c = fresh(boundary);
    assert forall|more: Seq<u8>| may_follow(c.session.window, more) implies #[trigger] c.agrees(
        more,
    ) by {
        assert(c.fed + more =~= c.session.window.buf + more);
        let d = resume(c.session, None, c.session.window.buf + more);
        assert(join(c.parts, d).parts =~= d.parts);
    }
}

/// The collector after one step: a reading step on the part in flight,
/// or a request for the next part where none is in flight.
pub open spec fn step(c: CollectorView) -> CollectorView {
    if c.reading.is_some() {
        chunk_taken(c)
    } else {
        part_taken(c)
    }
}

/// The collector after it has read as far as the bytes reach: step after
/// step, each part to its end, until a step waits for bytes or the
/// message is over.
pub open spec fn settle(c: CollectorView) -> CollectorView
    decreases c.session.window.buf.len(),
{
    if c.done {
        c
    } else {
        let next = step(c);
        if reads_on(next, c) && next.session.window.buf.len() < c.session.window.buf.len() {
            settle(next)
        } else {
            next
        }
    }
}

/// The collector after `chunk` has arrived, before it reads on.
pub open spec fn arrive(c: CollectorView, chunk: Seq<u8>) -> CollectorView {
    CollectorView { session: fed(c.session, chunk), fed: c.fed + chunk, ..c }
}

/// The collector after the source has ended, before it reads on.
pub open spec fn close(c: CollectorView) -> CollectorView {
    CollectorView { session: ended(c.session), ..c }
}

/// The collector after the chunks have arrived one by one and the source
/// has ended, where it has read as far as the bytes reached after each.
pub open spec fn run(c: CollectorView, chunks: Seq<Seq<u8>>) -> CollectorView
    decreases chunks.len(),
{
    if chunks.len() == 0 {
        settle(close(c))
    } else {
        run(settle(arrive(c, chunks[0])), chunks.drop_first())
    }
}

/// The bytes of a list of chunks, one after the other.
pub open spec fn joined(chunks: Seq<Seq<u8>>) -> Seq<u8>
    decreases chunks.len(),
{
    if chunks.len() == 0 {
        Seq::<u8>::empty()
    } else {
        chunks[0] + joined(chunks.drop_first())
    }
}

/// What a collector has read: the parts read in full, the part in flight
/// and the failure of the session.
pub open spec fn outcome(c: CollectorView) -> Decoded {
    Decoded {
        parts: c.parts,
        unfinished: match c.reading {
            Some((p, _)) => Some(p.head),
            None => None,
        },
        error: c.session.error,
    }
}

/// A coherent collector that has handed out no more parts than it has
/// taken bytes from its window.
pub open spec fn counted(c: CollectorView) -> bool {
    c.coherent() && c.session.guard.issued + c.session.window.buf.len() <= c.fed.len()
}

/// A step of a collector keeps it in order.
pub proof fn lemma_step(c: CollectorView)
    requires
        counted(c),
        !c.done,
        c.fed.len() < u128::MAX,
    ensures
        counted(step(c)),
        stepped(step(c), c),
{
    if c.reading.is_some() {
        lemma_chunk_taken(c);
    } else {
        lemma_part_taken(c);
    }
}

/// Reading as far as the bytes reach keeps a collector in order, takes in
/// no bytes, and ends with a step that waits or with the end of the
/// message; after the end of the source it ends with the end of the
/// message.
pub proof fn lemma_settle(c: CollectorView)
    requires
        counted(c),
        c.fed.len() < u128::MAX,
    ensures
        counted(settle(c)),
        settled(settle(c)),
        settle(c).fed == c.fed,
        settle(c).session.boundary == c.session.boundary,
        settle(c).session.window.eof == c.session.window.eof,
        c.session.window.eof ==> settle(c).done,
    decreases c.session.window.buf.len(),
{
    if !c.done {
        lemma_step(c);
        let next = step(c);
        if reads_on(next, c) && next.session.window.buf.len() < c.session.window.buf.len() {
            lemma_settle(next);
        }
    }
}

/// The bytes of a list of chunks are the first chunk and the bytes of the
/// others.
pub proof fn lemma_joined_len(chunks: Seq<Seq<u8>>)
    requires
        chunks.len() > 0,
    ensures
        joined(chunks).len() == chunks[0].len() + joined(chunks.drop_first()).len(),
{
}

/// A collector that takes in chunks one by one and reads each part to its
/// end has read, when the source has ended, what the bytes it took in hold
/// as one message.
pub proof fn lemma_run(c: CollectorView, chunks: Seq<Seq<u8>>)
    requires
        counted(c),
        !c.session.window.eof,
        c.fed.len() + joined(chunks).len() < u128::MAX,
    ensures
        run(c, chunks).done,
        outcome(run(c, chunks)) == decode(c.fed + joined(chunks), c.session.boundary),
    decreases chunks.len(),
{
    if chunks.len() == 0 {
        lemma_source_ended(c);
        let closed = close(c);
        lemma_settle(closed);
        lemma_outcome(settle(closed));
        assert(c.fed + joined(chunks) =~= c.fed);
    } else {
        lemma_chunk_fed(c, chunks[0]);
        let taken = arrive(c, chunks[0]);
        lemma_settle(taken);
        let next = settle(taken);
        lemma_run(next, chunks.drop_first());
        assert(c.fed + joined(chunks) =~= next.fed + joined(chunks.drop_first()));
    }
}

/// Reads a message as its bytes arrive, each part to its end.
pub struct Collector {
    source: MultipartRelated,
    current: Option<Object>,
    body: Vec<u8>,
    parts: Vec<CollectedPart>,
    done: bool,
    fed: Ghost<Seq<u8>>,
}

impl View for Collector {
    type V = CollectorView;

    closed spec fn view(&self) -> CollectorView {
        CollectorView {
            session: self.source@,
            parts: models(self.parts@),
            reading: match self.current {
                Some(o) => Some((o@, self.body@)),
                None => None,
            },
            fed: self.fed@,
            done: self.done,
        }
    }
}

impl Collector {
    /// The collector is in order and its source has not ended.
    pub open spec fn wf(&self) -> bool {
        self@.coherent() && !self@.session.window.eof
    }

    /// A collector for a message with the given boundary token.
    pub fn new(boundary: &[u8]) -> (r: Collector)
        ensures
            r.wf(),
            r@ == fresh(boundary@),
    {
        let r = Collector {
            source: MultipartRelated::from_boundary(boundary),
            current: None,
            body: Vec::new(),
            parts: Vec::new(),
            done: false,
            fed: Ghost(Seq::<u8>::empty()),
        };
        proof {
            assert(r@.parts =~= Seq::<PartModel>::empty());
            lemma_fresh(boundary@);
        }
        r
    }

    /// One reading step on the part in flight. Tells whether to read on.
    fn step_in_part(&mut self) -> (go: bool)
        requires
            old(self)@.coherent(),
            !old(self)@.done,
            old(self)@.reading.is_some(),
        ensures
            final(self)@ == chunk_taken(old(self)@),
            go == reads_on(chunk_taken(old(self)@), old(self)@),
    {
        let ghost before = self@;
        match self.current.take() {
            Some(obj) => {
                let mut obj = obj;
                match obj.poll_next(&mut self.source) {
                    NextChunk::Data(d) => {
                        push_all(&mut self.body, d.as_slice());
                        self.current = Some(obj);
                        true
                    },
                    NextChunk::End => {
                        let mut body: Vec<u8> = Vec::new();
                        core::mem::swap(&mut body, &mut self.body);
                        self.parts.push(CollectedPart { part: obj, body });
                        assert(self@.parts =~= before.parts.push(before.model().unwrap()));
                        true
                    },
                    NextChunk::Pending => {
                        self.current = Some(obj);
                        false
                    },
                    NextChunk::Failed(_) => {
                        self.current = Some(obj);
                        self.done = true;
                        false
                    },
                }
            },
            None => false,
        }
    }

    /// One step between two parts. Tells whether to read on.
    fn step_between(&mut self) -> (go: bool)
        requires
            old(self)@.coherent(),
            !old(self)@.done,
            old(self)@.reading.is_none(),
        ensures
            final(self)@ == part_taken(old(self)@),
            go == reads_on(part_taken(old(self)@), old(self)@),
    {
        match self.source.poll_next() {
            NextPart::Part(obj) => {
                self.current = Some(obj);
                self.body = Vec::new();
                true
            },
            NextPart::Pending => false,
            NextPart::End => {
                self.done = true;
                false
            },
            NextPart::Failed(_) => {
                self.done = true;
                false
            },
        }
    }

    /// Reads on until more bytes are needed or the message is over.
    fn advance(&mut self)
        requires
            old(self)@.coherent(),
        ensures
            final(self)@ == settle(old(self)@),
            final(self)@.coherent(),
            final(self)@.fed == old(self)@.fed,
            final(self)@.session.boundary == old(self)@.session.boundary,
            final(self)@.session.window.eof == old(self)@.session.window.eof,
            final(self)@.session.window.eof ==> final(self)@.done,
            settled(final(self)@),
    {
        if self.done {
            return ;
        }
        loop
            invariant
                self@.coherent(),
                !self@.done,
                settle(self@) == settle(old(self)@),
                self@.fed == old(self)@.fed,
                self@.session.boundary == old(self)@.session.boundary,
                self@.session.window.eof == old(self)@.session.window.eof,
            decreases self@.session.window.buf.len(),
        {
            let ghost before = self@;
            let go = if self.current.is_some() {
                proof {
                    lemma_chunk_taken(before);
                }
                self.step_in_part()
            } else {
                let count = self.parts.len();
                proof {
                    assert(before.parts.len() == count);
                    lemma_part_taken(before);
                }
                self.step_between()
            };
            assert(self@ == step(before));
            if !go {
                return ;
            }
        }
    }

    /// Takes in bytes that arrived from the source and reads on as far as
    /// they reach: part after part, each to its end, until a step waits for
    /// bytes or the message is over.
    pub fn feed(&mut self, chunk: &[u8])
        requires
            old(self).wf(),
        ensures
            final(self).wf(),
            final(self)@ == settle(arrive(old(self)@, chunk@)),
            final(self)@.fed == old(self)@.fed + chunk@,
            final(self)@.session.boundary == old(self)@.session.boundary,
            settled(final(self)@),
    {
        proof {
            lemma_chunk_fed(self@, chunk@);
        }
        self.source.feed(chunk);
        self.fed = Ghost(self.fed@ + chunk@);
        self.advance();
    }

    /// Records that the source has ended, reads what is left, and hands
    /// out what the message held. The result is what the bytes taken in
    /// mean as one message, however they were cut into chunks.
    pub fn finish(self) -> (r: Collected)
        requires
            self.wf(),
        ensures
            r@ == outcome(settle(close(self@))),
            r@ == decode(self@.fed, self@.session.boundary),
    {
        let mut this = self;
        proof {
            lemma_source_ended(this@);
        }
        this.source.end_of_stream();
        this.advance();
        proof {
            lemma_outcome(this@);
        }
        let error = this.source.failure();
        Collected { parts: this.parts, unfinished: this.current, error }
    }
}

/// Bytes that arrive keep the collector coherent.
pub proof fn lemma_chunk_fed(c: CollectorView, chunk: Seq<u8>)
    requires
        c.coherent(),
        !c.session.window.eof,
    ensures
        arrive(c, chunk).coherent(),
{
    let after = arrive(c, chunk);
    assert forall|more: Seq<u8>| may_follow(after.session.window, more) implies #[trigger] after.agrees(more) by {
        assert(after.fed + more =~= c.fed + (chunk + more));
        assert(after.session.window.buf + more =~= c.session.window.buf + (chunk + more));
        assert(c.agrees(chunk + more));
    }
}

/// The end of the source keeps the collector coherent.
pub proof fn lemma_source_ended(c: CollectorView)
    requires
        c.coherent(),
    ensures
        close(c).coherent(),
{
    let after = close(c);
    assert forall|more: Seq<u8>| may_follow(after.session.window, more) implies #[trigger] after.agrees(more) by {
        assert(c.agrees(more));
    }
}

/// Once the message is over, the parts read in full and the failure of
/// the session are what the bytes taken in hold.
pub proof fn lemma_outcome(c: CollectorView)
    requires
        c.coherent(),
        c.done,
        c.session.window.eof,
    ensures
        decode(c.fed, c.session.boundary) == outcome(c),
{
    let none = Seq::<u8>::empty();
    assert(c.fed + none =~= c.fed);
    assert(c.agrees(none));
    let rest = resume(c.session, c.model(), c.session.window.buf + none);
    assert(rest.parts =~= Seq::<PartModel>::empty());
    assert(c.parts + rest.parts =~= c.parts);
}

/// The chunks of a list, as values.
pub open spec fn chunk_views(chunks: Seq<Vec<u8>>) -> Seq<Seq<u8>> {
    Seq::new(chunks.len(), |i: int| chunks[i]@)
}

/// Reads a message that arrives in the given chunks: the chunks are taken
/// in one by one, and after each the parts are read as far as the bytes
/// reach. The result depends on the bytes alone, not on where they are
/// cut.
pub fn decode_chunks(boundary: &[u8], chunks: &Vec<Vec<u8>>) -> (r: Collected)
    ensures
        r@ == outcome(run(fresh(boundary@), chunk_views(chunks@))),
        r@ == decode(joined(chunk_views(chunks@)), boundary@),
{
    let mut collector = Collector::new(boundary);
    let ghost all = chunk_views(chunks@);
    let mut i: usize = 0;
    assert(all.subrange(0, all.len() as int) =~= all);
    assert(collector@.fed + joined(all) =~= joined(all));
    while i < chunks.len()
        invariant
            i <= chunks@.len(),
            all == chunk_views(chunks@),
            collector.wf(),
            collector@.fed + joined(all.subrange(i as int, all.len() as int)) == joined(all),
            collector@.session.boundary == boundary@,
            run(collector@, all.subrange(i as int, all.len() as int)) == run(
                fresh(boundary@),
                all,
            ),
        decreases chunks@.len() - i,
    {
        let ghost before = collector@;
        let ghost rest = all.subrange(i as int, all.len() as int);
        collector.feed(chunks[i].as_slice());
        proof {
            assert(rest[0] == chunks@[i as int]@);
            assert(rest.drop_first() =~= all.subrange(i + 1, all.len() as int));
            assert(before.fed + (rest[0] + joined(rest.drop_first())) =~= (before.fed + rest[0])
                + joined(rest.drop_first()));
        }
        i += 1;
    }
    assert(all.subrange(i as int, all.len() as int) =~= Seq::<Seq<u8>>::empty());
    assert(collector@.fed + Seq::<u8>::empty() =~= collector@.fed);
    collector.finish()
}

} // verus!

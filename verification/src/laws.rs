//! What holds of the codec as a whole: what is written can be read back,
//! a body ends at the delimiter and nowhere else, a part left unread ends
//! the session, and the closing mark ends the message.

use vstd::prelude::*;
use actix_web::error::PayloadError;
use crate::builder::{announced, message, writable, written, Pair};
use crate::bytes::{
    absent, lemma_position, lemma_position_none, lemma_position_some, occurs_at, position, CR, LF,
};
use crate::collect::{fresh, joined, lemma_fresh, lemma_run, outcome, run};
use crate::error::MultipartError;
use crate::grammar::{
    blank_line, boundary_step, close_line, close_mark, crlf, dashes, delimiter, open_line,
    skip_step, valid_boundary, BodyStep, FieldState,
};
use crate::header::{block_headers, headers_step, part_head, Line, PartHead};
use crate::message::{
    after_body, body_rest, decode, failing, finished, join, parts_from, whole, Decoded,
    PartModel,
};
use crate::payload::newline;
use crate::session::{
    broken, ended, fed, loss, lost, next_chunk, next_part, PartStep, Session,
};
use crate::stream::{lemma_cut, lemma_position_extend};

verus! {

/// The first place at which one byte stands is its position.
pub proof fn lemma_first_byte(s: Seq<u8>, byte: u8, at: int)
    requires
        0 <= at < s.len(),
        s[at] == byte,
        forall|j: int| 0 <= j < at ==> s[j] != byte,
    ensures
        position(s, seq![byte]) == Some(at),
{
    assert(s.subrange(at, at + 1) =~= seq![byte]);
    assert forall|j: int| 0 <= j < at implies !occurs_at(s, seq![byte], j) by {
        if occurs_at(s, seq![byte], j) {
            assert(s.subrange(j, j + 1)[0] == byte);
        }
    }
    lemma_position_some(s, seq![byte], at);
}

/// A byte that stands nowhere has no position.
pub proof fn lemma_no_byte(s: Seq<u8>, byte: u8)
    requires
        forall|j: int| 0 <= j < s.len() ==> s[j] != byte,
    ensures
        position(s, seq![byte]).is_none(),
{
    assert forall|j: int| !occurs_at(s, seq![byte], j) by {
        if occurs_at(s, seq![byte], j) {
            assert(s.subrange(j, j + 1)[0] == byte);
        }
    }
    lemma_position_none(s, seq![byte]);
}

/// An opening line in front of `tail` is read as such, and leaves `tail`.
pub proof fn lemma_opening_line(boundary: Seq<u8>, tail: Seq<u8>)
    requires
        valid_boundary(boundary),
    ensures
        boundary_step(whole(open_line(boundary) + tail), boundary) == (
            Ok::<Option<bool>, MultipartError>(Some(false)),
            whole(tail),
        ),
        skip_step(whole(open_line(boundary) + tail), boundary) == (
            Ok::<Option<bool>, MultipartError>(Some(false)),
            whole(tail),
        ),
{
    let line = open_line(boundary);
    let s = line + tail;
    let at: int = boundary.len() as int + 3;
    assert(newline() =~= seq![LF]);
    assert forall|j: int| 0 <= j < at implies s[j] != LF by {
        if 2 <= j < 2 + boundary.len() {
            assert(s[j] == boundary[j - 2]);
        }
    }
    lemma_first_byte(s, LF, at);
    assert(s.subrange(0, at + 1) =~= line);
    assert(s.subrange(at + 1, s.len() as int) =~= tail);
}

/// The closing mark at the very end of a message ends it.
pub proof fn lemma_closing_mark(boundary: Seq<u8>)
    requires
        valid_boundary(boundary),
    ensures
        boundary_step(whole(close_mark(boundary)), boundary).0 == Ok::<
            Option<bool>,
            MultipartError,
        >(Some(true)),
        skip_step(whole(close_mark(boundary)), boundary).0 == Ok::<Option<bool>, MultipartError>(
            Some(true),
        ),
{
    let s = close_mark(boundary);
    assert(newline() =~= seq![LF]);
    assert forall|j: int| 0 <= j < s.len() implies s[j] != LF by {
        if 2 <= j < 2 + boundary.len() {
            assert(s[j] == boundary[j - 2]);
        }
    }
    lemma_no_byte(s, LF);
}

/// The closing mark on a line of its own ends the message, whatever
/// follows the line.
pub proof fn lemma_closing_line(boundary: Seq<u8>, tail: Seq<u8>)
    requires
        valid_boundary(boundary),
    ensures
        boundary_step(whole(close_line(boundary) + tail), boundary).0 == Ok::<
            Option<bool>,
            MultipartError,
        >(Some(true)),
        skip_step(whole(close_line(boundary) + tail), boundary).0 == Ok::<
            Option<bool>,
            MultipartError,
        >(Some(true)),
{
    let line = close_line(boundary);
    let s = line + tail;
    let at: int = boundary.len() as int + 5;
    assert(newline() =~= seq![LF]);
    assert forall|j: int| 0 <= j < at implies s[j] != LF by {
        if 2 <= j < 2 + boundary.len() {
            assert(s[j] == boundary[j - 2]);
        }
    }
    lemma_first_byte(s, LF, at);
    assert(s.subrange(0, at + 1) =~= line);
    assert(line != open_line(boundary)) by {
        assert(line.len() != open_line(boundary).len());
    }
}

/// The preamble counts for nothing: a full line in front of a message that
/// is no boundary line leaves what the message holds as it is.
pub proof fn lemma_preamble(boundary: Seq<u8>, line: Seq<u8>, rest: Seq<u8>)
    requires
        line.len() > 0,
        line.last() == LF,
        forall|j: int| 0 <= j < line.len() - 1 ==> line[j] != LF,
        line != open_line(boundary),
        line != close_line(boundary),
    ensures
        decode(line + rest, boundary) == decode(rest, boundary),
{
    let s = line + rest;
    let at = line.len() - 1;
    assert(newline() =~= seq![LF]);
    lemma_first_byte(s, LF, at);
    assert(s.subrange(0, at + 1) =~= line);
    assert(s.subrange(at + 1, s.len() as int) =~= rest);
}

/// A message that ends with the closing mark ends well: after the last
/// body, `--boundary--` is the end of the message, with or without a line
/// break behind it, and nothing after that line is read.
pub proof fn lemma_terminal_boundary(boundary: Seq<u8>, tail: Seq<u8>)
    requires
        valid_boundary(boundary),
    ensures
        after_body(close_mark(boundary), boundary) == finished(),
        after_body(close_line(boundary) + tail, boundary) == finished(),
        decode(close_mark(boundary), boundary) == finished(),
        decode(close_line(boundary) + tail, boundary) == finished(),
{
    lemma_closing_mark(boundary);
    lemma_closing_line(boundary, tail);
}

/// A message that ends with an opening boundary fails as `Incomplete`:
/// after `--boundary`, with or without its line break, a part is owed, and
/// the end of the source in its place is no clean end.
pub proof fn lemma_open_boundary_at_end(boundary: Seq<u8>)
    requires
        valid_boundary(boundary),
    ensures
        after_body(dashes() + boundary, boundary) == failing(MultipartError::Incomplete),
        after_body(open_line(boundary), boundary) == failing(MultipartError::Incomplete),
        decode(dashes() + boundary, boundary) == failing(MultipartError::Incomplete),
        decode(open_line(boundary), boundary) == failing(MultipartError::Incomplete),
{
    let s = dashes() + boundary;
    assert(newline() =~= seq![LF]);
    assert forall|j: int| 0 <= j < s.len() implies s[j] != LF by {
        if 2 <= j {
            assert(s[j] == boundary[j - 2]);
        }
    }
    lemma_no_byte(s, LF);
    assert(s != close_mark(boundary)) by {
        assert(s.len() != close_mark(boundary).len());
    }
    assert(open_line(boundary).subrange(0, s.len() as int) =~= s);
    let none = Seq::<u8>::empty();
    lemma_opening_line(boundary, none);
    assert(open_line(boundary) + none =~= open_line(boundary));
    lemma_position(none, blank_line());
    if let Some(i) = position(none, blank_line()) {
        assert(occurs_at(none, blank_line(), i));
    }
}

/// An occurrence of the delimiter holds an occurrence of the boundary
/// token.
pub proof fn lemma_token_in_delimiter(body: Seq<u8>, boundary: Seq<u8>)
    requires
        absent(body, boundary),
    ensures
        absent(body, delimiter(boundary)),
{
    let d = delimiter(boundary);
    assert forall|j: int| !occurs_at(body, d, j) by {
        if occurs_at(body, d, j) {
            let n = boundary.len() as int;
            assert(body.subrange(j + 4, j + 4 + n) =~= d.subrange(4, 4 + n));
            assert(d.subrange(4, 4 + n) =~= boundary);
            assert(occurs_at(body, boundary, j + 4));
        }
    }
}

/// Behind a body that does not hold the delimiter, the delimiter that
/// follows is the first.
pub proof fn lemma_delimiter_after_body(body: Seq<u8>, boundary: Seq<u8>, tail: Seq<u8>)
    requires
        valid_boundary(boundary),
        absent(body, delimiter(boundary)),
    ensures
        position(body + delimiter(boundary) + tail, delimiter(boundary)) == Some(
            body.len() as int,
        ),
{
    let d = delimiter(boundary);
    let s = body + d + tail;
    let n = body.len() as int;
    assert(s.subrange(n, n + d.len()) =~= d);
    assert forall|j: int| 0 <= j < n implies !occurs_at(s, d, j) by {
        if occurs_at(s, d, j) {
            if j + d.len() <= n {
                assert(body.subrange(j, j + d.len()) =~= s.subrange(j, j + d.len()));
                assert(occurs_at(body, d, j));
            } else {
                let q = n - j;
                assert(s.subrange(j, j + d.len())[q] == d[q]);
                assert(s[n] == d[0]);
                if q >= 4 {
                    assert(d[q] == boundary[q - 4]);
                }
            }
        }
    }
    lemma_position_some(s, d, n);
}

/// The body in front of a delimiter, read by its declared length or up to
/// the delimiter.
proof fn lemma_body_read(body: Seq<u8>, boundary: Seq<u8>, tail: Seq<u8>, field: FieldState)
    requires
        valid_boundary(boundary),
        !field.eof,
        match field.length {
            Some(n) => n == body.len(),
            None => absent(body, delimiter(boundary)),
        },
    ensures
        body_rest(body + delimiter(boundary) + tail, field, boundary) == Ok::<
            (Seq<u8>, Seq<u8>),
            MultipartError,
        >((body, dashes() + boundary + tail)),
{
    let d = delimiter(boundary);
    let s = body + d + tail;
    let n = body.len() as int;
    if field.length.is_none() {
        lemma_delimiter_after_body(body, boundary, tail);
    }
    let after = s.subrange(n, s.len() as int);
    assert(newline() =~= seq![LF]);
    assert(after[0] == d[0]);
    assert(after[1] == d[1]);
    lemma_first_byte(after, LF, 1);
    assert(s.subrange(0, n) =~= body);
    assert(s.subrange(n + 2, s.len() as int) =~= dashes() + boundary + tail);
}

/// A body is read the same with a declared length and without one: where
/// the boundary token does not stand in the body, a part that declares the
/// body's length and a part that declares none give the same body, and
/// leave the same bytes behind it.
pub proof fn lemma_length_or_scan(body: Seq<u8>, boundary: Seq<u8>, tail: Seq<u8>)
    requires
        valid_boundary(boundary),
        absent(body, boundary),
        body.len() <= u64::MAX,
    ensures
        body_rest(
            body + delimiter(boundary) + tail,
            FieldState { eof: false, length: Some(body.len() as u64) },
            boundary,
        ) == body_rest(
            body + delimiter(boundary) + tail,
            FieldState { eof: false, length: None },
            boundary,
        ),
        body_rest(
            body + delimiter(boundary) + tail,
            FieldState { eof: false, length: None },
            boundary,
        ) == Ok::<(Seq<u8>, Seq<u8>), MultipartError>((body, dashes() + boundary + tail)),
{
    lemma_token_in_delimiter(body, boundary);
    lemma_body_read(
        body,
        boundary,
        tail,
        FieldState { eof: false, length: Some(body.len() as u64) },
    );
    lemma_body_read(body, boundary, tail, FieldState { eof: false, length: None });
}

/// A body ends at the whole delimiter and nowhere else: it may hold
/// `CR LF --`, and any beginning of the delimiter, and is still read as it
/// is, as long as the whole delimiter `CR LF --boundary` does not stand in
/// it.
pub proof fn lemma_body_ends_at_delimiter(body: Seq<u8>, boundary: Seq<u8>, tail: Seq<u8>)
    requires
        valid_boundary(boundary),
        absent(body, delimiter(boundary)),
    ensures
        body_rest(
            body + delimiter(boundary) + tail,
            FieldState { eof: false, length: None },
            boundary,
        ) == Ok::<(Seq<u8>, Seq<u8>), MultipartError>((body, dashes() + boundary + tail)),
{
    lemma_body_read(body, boundary, tail, FieldState { eof: false, length: None });
}

/// A single chunk holds its own bytes.
pub proof fn lemma_single_chunk(whole: Seq<u8>)
    ensures
        joined(seq![whole]) == whole,
{
    let one = seq![whole];
    assert(one.drop_first() =~= Seq::<Seq<u8>>::empty());
    assert(joined(one.drop_first()) =~= Seq::<u8>::empty());
    assert(joined(one) =~= whole);
}

/// Request by request, a reader gets what the message holds: where the
/// chunks of a message are taken in one by one, and after each chunk the
/// parts are asked for and each part is read to its end as far as the bytes
/// reach, the parts that were handed out and the way the reading ended are
/// what `decode` says of the bytes. The requests are those of
/// `MultipartRelated::poll_next` and `Object::poll_next`.
pub proof fn lemma_requests_read_the_message(boundary: Seq<u8>, chunks: Seq<Seq<u8>>)
    requires
        joined(chunks).len() < u128::MAX,
    ensures
        run(fresh(boundary), chunks).done,
        outcome(run(fresh(boundary), chunks)) == decode(joined(chunks), boundary),
{
    lemma_fresh(boundary);
    lemma_run(fresh(boundary), chunks);
    assert(fresh(boundary).fed + joined(chunks) =~= joined(chunks));
}

/// However a message is cut into chunks, it is read the same: two lists of
/// chunks that hold the same bytes give the same parts, with the same
/// bodies in the same order, and the same end, and so does the message
/// that arrives as one chunk. A reader of chunks may wait more often; it
/// never gets another answer.
pub proof fn lemma_chunking_invariance(
    boundary: Seq<u8>,
    chunks: Seq<Seq<u8>>,
    other: Seq<Seq<u8>>,
)
    requires
        joined(chunks) == joined(other),
        joined(chunks).len() < u128::MAX,
    ensures
        outcome(run(fresh(boundary), chunks)) == outcome(run(fresh(boundary), other)),
        outcome(run(fresh(boundary), chunks)) == outcome(
            run(fresh(boundary), seq![joined(chunks)]),
        ),
        outcome(run(fresh(boundary), chunks)) == decode(joined(chunks), boundary),
{
    lemma_single_chunk(joined(chunks));
    lemma_requests_read_the_message(boundary, chunks);
    lemma_requests_read_the_message(boundary, other);
    lemma_requests_read_the_message(boundary, seq![joined(chunks)]);
}

/// A part left unread ends the session: a request for the next part that
/// comes while the last part has not been read to its end is answered with
/// `NotConsumed`, and leaves the session lost.
pub proof fn lemma_abandoned(s: Session)
    requires
        s.error.is_none(),
        s.guard.clean,
        !s.guard.idle(),
    ensures
        next_part(s).0 == PartStep::Failed(MultipartError::NotConsumed),
        lost(next_part(s).1),
        loss(next_part(s).1) == MultipartError::NotConsumed,
{
}

/// A part that has just been handed out has not been read: the very next
/// request for a part is answered with `NotConsumed`, whatever bytes have
/// arrived in between.
pub proof fn lemma_second_request(s: Session, chunk: Seq<u8>)
    requires
        s.error.is_none(),
        s.guard.clean,
        s.guard.idle(),
        next_part(s).0 is Part,
    ensures
        next_part(next_part(s).1).0 == PartStep::Failed(MultipartError::NotConsumed),
        next_part(fed(next_part(s).1, chunk)).0 == PartStep::Failed(MultipartError::NotConsumed),
        next_part(ended(next_part(s).1)).0 == PartStep::Failed(MultipartError::NotConsumed),
{
}

/// A lost session stays lost: every request for a part and for a chunk is
/// answered with the same failure and changes nothing, and neither bytes
/// that arrive, nor the end of the source, nor a failure of the source
/// bring the session back or change what it answers. A session of which a
/// part was left unread answers `NotConsumed` for good.
pub proof fn lemma_lost_for_good(s: Session, level: u128, chunk: Seq<u8>, cause: PayloadError)
    requires
        lost(s),
    ensures
        next_part(s) == (PartStep::Failed(loss(s)), s),
        next_chunk(s, level) == (BodyStep::Failed(loss(s)), s),
        lost(fed(s, chunk)) && loss(fed(s, chunk)) == loss(s),
        lost(ended(s)) && loss(ended(s)) == loss(s),
        broken(s, cause) == s,
        s.error.is_none() ==> loss(s) == MultipartError::NotConsumed,
{
}

/// A failure of the source is kept as it is: a session that is not lost
/// fails with `TransportError`, holds the source's error unchanged, and
/// answers every request with `TransportError` from then on.
pub proof fn lemma_source_failure(s: Session, level: u128, cause: PayloadError)
    requires
        !lost(s),
    ensures
        broken(s, cause).cause == Some(cause),
        lost(broken(s, cause)),
        loss(broken(s, cause)) == MultipartError::TransportError,
        next_part(broken(s, cause)) == (
            PartStep::Failed(MultipartError::TransportError),
            broken(s, cause),
        ),
        next_chunk(broken(s, cause), level) == (
            BodyStep::Failed(MultipartError::TransportError),
            broken(s, cause),
        ),
{
}

/// The error of the source is set by a failure of the source alone: no
/// request and no arrival of bytes changes it.
pub proof fn lemma_cause_kept(s: Session, level: u128, chunk: Seq<u8>)
    ensures
        next_part(s).1.cause == s.cause,
        next_chunk(s, level).1.cause == s.cause,
        fed(s, chunk).cause == s.cause,
        ended(s).cause == s.cause,
{
}

/// What a reader makes of parts that were written: for each part what its
/// header lines announce, and its body.
pub open spec fn read_back(parts: Seq<Pair>) -> Seq<PartModel> {
    Seq::new(
        parts.len(),
        |i: int| PartModel { head: announced(parts[i].0).unwrap(), body: parts[i].1 },
    )
}

/// The message that holds `parts` in front of `end`, from its first
/// boundary line on.
pub open spec fn chain(boundary: Seq<u8>, parts: Seq<Pair>, end: Seq<u8>) -> Seq<u8>
    decreases parts.len(),
{
    if parts.len() == 0 {
        end
    } else {
        link(boundary, parts[0], chain(boundary, parts.drop_first(), end))
    }
}

/// One part in front of `end`.
pub open spec fn link(boundary: Seq<u8>, part: Pair, end: Seq<u8>) -> Seq<u8> {
    open_line(boundary) + part.0 + blank_line() + part.1 + crlf() + end
}

/// A part more at the end of a chain is a part more in front of its end.
proof fn lemma_chain_push(boundary: Seq<u8>, parts: Seq<Pair>, part: Pair, end: Seq<u8>)
    ensures
        chain(boundary, parts.push(part), end) == chain(boundary, parts, link(boundary, part, end)),
    decreases parts.len(),
{
    if parts.len() == 0 {
        assert(parts.push(part).drop_first() =~= parts);
        assert(chain(boundary, parts.push(part).drop_first(), end) == end);
    } else {
        assert(parts.push(part).drop_first() =~= parts.drop_first().push(part));
        lemma_chain_push(boundary, parts.drop_first(), part, end);
    }
}

/// What a writer holds is a chain that waits for its end.
proof fn lemma_written_chain(boundary: Seq<u8>, parts: Seq<Pair>, end: Seq<u8>)
    requires
        parts.len() > 0,
    ensures
        written(boundary, parts) + crlf() + end == chain(boundary, parts, end),
    decreases parts.len(),
{
    let last = parts.last();
    let init = parts.drop_last();
    assert(parts =~= init.push(last));
    lemma_chain_push(boundary, init, last, end);
    if parts.len() == 1 {
        assert(init =~= Seq::<Pair>::empty());
        assert(written(boundary, init) =~= Seq::<u8>::empty());
        assert(written(boundary, parts) + crlf() + end =~= link(boundary, last, end));
    } else {
        lemma_written_chain(boundary, init, link(boundary, last, end));
        assert(written(boundary, parts) + crlf() + end =~= written(boundary, init) + crlf() + link(
            boundary,
            last,
            end,
        ));
    }
}

/// A whole message is a chain that ends with the closing mark.
pub proof fn lemma_message_chain(boundary: Seq<u8>, parts: Seq<Pair>)
    ensures
        message(boundary, parts) == chain(boundary, parts, close_mark(boundary)),
{
    if parts.len() == 0 {
        assert(message(boundary, parts) =~= close_mark(boundary));
    } else {
        lemma_written_chain(boundary, parts, close_mark(boundary));
        assert(message(boundary, parts) =~= written(boundary, parts) + crlf() + close_mark(
            boundary,
        ));
    }
}

/// A chain begins with `--boundary`.
proof fn lemma_chain_begins(boundary: Seq<u8>, parts: Seq<Pair>)
    ensures
        exists|tail: Seq<u8>|
            chain(boundary, parts, close_mark(boundary)) == dashes() + boundary + tail,
{
    if parts.len() == 0 {
        assert(close_mark(boundary) == dashes() + boundary + dashes());
    } else {
        let rest = chain(boundary, parts.drop_first(), close_mark(boundary));
        let tail = crlf() + parts[0].0 + blank_line() + parts[0].1 + crlf() + rest;
        assert(chain(boundary, parts, close_mark(boundary)) =~= dashes() + boundary + tail);
    }
}

/// The header block of a writable part is read as what it announces, and
/// leaves what follows it.
proof fn lemma_block_read(headers: Seq<u8>, follow: Seq<u8>)
    requires
        position(headers + blank_line(), blank_line()) == Some(headers.len() as int),
    ensures
        headers_step(whole(headers + blank_line() + follow)) == (
            match block_headers(headers + blank_line()) {
                Ok(h) => Ok::<Option<Seq<Line>>, MultipartError>(Some(h)),
                Err(e) => Err::<Option<Seq<Line>>, MultipartError>(e),
            },
            whole(follow),
        ),
{
    let block = headers + blank_line();
    let s = block + follow;
    lemma_position_extend(block, follow, blank_line());
    lemma_cut(block, follow, block.len() as int);
    assert(block.subrange(0, block.len() as int) =~= block);
    assert(block.subrange(block.len() as int, block.len() as int) + follow =~= follow);
}

/// How the bytes of one part in front of a boundary line fall apart.
proof fn lemma_link_bytes(boundary: Seq<u8>, part: Pair, rest: Seq<u8>, tail: Seq<u8>)
    requires
        rest == dashes() + boundary + tail,
    ensures
        part.0 + blank_line() + part.1 + crlf() + rest == part.0 + blank_line() + (part.1 + crlf()
            + rest),
        part.1 + crlf() + rest == part.1 + delimiter(boundary) + tail,
{
    assert(part.0 + blank_line() + part.1 + crlf() + rest =~= part.0 + blank_line() + (part.1
        + crlf() + rest));
    assert(part.1 + crlf() + rest =~= part.1 + delimiter(boundary) + tail);
}

/// A header block and a body that are read in turn make a part.
proof fn lemma_part_read(
    s1: Seq<u8>,
    s2: Seq<u8>,
    head: PartHead,
    body: Seq<u8>,
    rest: Seq<u8>,
    boundary: Seq<u8>,
)
    requires
        headers_step(whole(s1)).1 == whole(s2),
        match headers_step(whole(s1)).0 {
            Ok(Some(h)) => part_head(h) == Ok::<PartHead, MultipartError>(head),
            _ => false,
        },
        body_rest(s2, FieldState { eof: false, length: head.length }, boundary) == Ok::<
            (Seq<u8>, Seq<u8>),
            MultipartError,
        >((body, rest)),
    ensures
        parts_from(s1, boundary) == join(
            seq![PartModel { head, body }],
            after_body(rest, boundary),
        ),
{
}

/// One writable part in front of a boundary line is read as that part, and
/// the reading goes on at the boundary line.
proof fn lemma_link_read(boundary: Seq<u8>, part: Pair, rest: Seq<u8>, tail: Seq<u8>)
    requires
        valid_boundary(boundary),
        writable(boundary, part),
        rest == dashes() + boundary + tail,
    ensures
        parts_from(part.0 + blank_line() + part.1 + crlf() + rest, boundary) == join(
            seq![PartModel { head: announced(part.0).unwrap(), body: part.1 }],
            after_body(rest, boundary),
        ),
{
    let head = announced(part.0).unwrap();
    let field = FieldState { eof: false, length: head.length };
    let s1 = part.0 + blank_line() + part.1 + crlf() + rest;
    let s2 = part.1 + crlf() + rest;
    lemma_link_bytes(boundary, part, rest, tail);
    lemma_block_read(part.0, s2);
    lemma_body_read(part.1, boundary, tail, field);
    lemma_part_read(s1, s2, head, part.1, rest, boundary);
}

/// One writable part behind its opening line, in front of a boundary
/// line: the part is read, and then what the rest holds.
proof fn lemma_link_decoded(
    boundary: Seq<u8>,
    part: Pair,
    rest: Seq<u8>,
    tail: Seq<u8>,
    others: Seq<PartModel>,
)
    requires
        valid_boundary(boundary),
        writable(boundary, part),
        rest == dashes() + boundary + tail,
        after_body(rest, boundary) == (Decoded { parts: others, unfinished: None, error: None }),
    ensures
        after_body(link(boundary, part, rest), boundary) == (Decoded {
            parts: seq![PartModel { head: announced(part.0).unwrap(), body: part.1 }] + others,
            unfinished: None,
            error: None,
        }),
        decode(link(boundary, part, rest), boundary) == (Decoded {
            parts: seq![PartModel { head: announced(part.0).unwrap(), body: part.1 }] + others,
            unfinished: None,
            error: None,
        }),
{
    let s1 = part.0 + blank_line() + part.1 + crlf() + rest;
    assert(link(boundary, part, rest) =~= open_line(boundary) + s1);
    lemma_opening_line(boundary, s1);
    lemma_link_read(boundary, part, rest, tail);
}

/// The parts read back from a list are the first of them and the parts
/// read back from the others.
proof fn lemma_read_back_first(parts: Seq<Pair>)
    requires
        parts.len() > 0,
    ensures
        read_back(parts) == seq![
            PartModel { head: announced(parts[0].0).unwrap(), body: parts[0].1 },
        ] + read_back(parts.drop_first()),
{
    let first = PartModel { head: announced(parts[0].0).unwrap(), body: parts[0].1 };
    let others = parts.drop_first();
    assert forall|i: int| 1 <= i < parts.len() implies read_back(others)[i - 1] == read_back(
        parts,
    )[i] by {
        assert(others[i - 1] == parts[i]);
    }
    assert(seq![first] + read_back(others) =~= read_back(parts));
}

/// A chain of writable parts is read back part by part.
proof fn lemma_chain_read(boundary: Seq<u8>, parts: Seq<Pair>)
    requires
        valid_boundary(boundary),
        forall|i: int| 0 <= i < parts.len() ==> writable(boundary, #[trigger] parts[i]),
    ensures
        after_body(chain(boundary, parts, close_mark(boundary)), boundary) == (Decoded {
            parts: read_back(parts),
            unfinished: None,
            error: None,
        }),
        decode(chain(boundary, parts, close_mark(boundary)), boundary) == (Decoded {
            parts: read_back(parts),
            unfinished: None,
            error: None,
        }),
    decreases parts.len(),
{
    if parts.len() == 0 {
        lemma_terminal_boundary(boundary, Seq::<u8>::empty());
        assert(read_back(parts) =~= Seq::<PartModel>::empty());
    } else {
        let others = parts.drop_first();
        let rest = chain(boundary, others, close_mark(boundary));
        assert forall|i: int| 0 <= i < others.len() implies writable(
            boundary,
            #[trigger] others[i],
        ) by {
            assert(others[i] == parts[i + 1]);
        }
        lemma_chain_read(boundary, others);
        lemma_chain_begins(boundary, others);
        let tail = choose|tail: Seq<u8>| rest == dashes() + boundary + tail;
        lemma_link_decoded(boundary, parts[0], rest, tail, read_back(others));
        lemma_read_back_first(parts);
    }
}

/// What is written can be read back: the message that a writer makes of
/// parts, each of them writable, holds those parts and ends well. Each
/// part comes back with what its header lines announce and with its body
/// byte for byte. This holds for no part, one part and any number of them.
pub proof fn lemma_round_trip(boundary: Seq<u8>, parts: Seq<Pair>)
    requires
        valid_boundary(boundary),
        forall|i: int| 0 <= i < parts.len() ==> writable(boundary, #[trigger] parts[i]),
    ensures
        decode(message(boundary, parts), boundary) == (Decoded {
            parts: read_back(parts),
            unfinished: None,
            error: None,
        }),
{
    lemma_message_chain(boundary, parts);
    lemma_chain_read(boundary, parts);
}

/// What is written is read back request by request: where the message
/// that a writer makes of writable parts arrives in chunks, cut anywhere,
/// the requests hand out as many parts as were written, in their order,
/// each with what its header lines announce and with its body byte for
/// byte, and then the end of the message; no request fails.
pub proof fn lemma_round_trip_by_requests(
    boundary: Seq<u8>,
    parts: Seq<Pair>,
    chunks: Seq<Seq<u8>>,
)
    requires
        valid_boundary(boundary),
        forall|i: int| 0 <= i < parts.len() ==> writable(boundary, #[trigger] parts[i]),
        joined(chunks) == message(boundary, parts),
        joined(chunks).len() < u128::MAX,
    ensures
        run(fresh(boundary), chunks).done,
        outcome(run(fresh(boundary), chunks)) == (Decoded {
            parts: read_back(parts),
            unfinished: None,
            error: None,
        }),
{
    lemma_requests_read_the_message(boundary, chunks);
    lemma_round_trip(boundary, parts);
}

/// A body is read the same, request by request, with a declared length
/// and without one: of two messages that hold the same body, which does not
/// hold the boundary token, once behind headers that declare its length
/// and once behind headers that declare none, the requests hand out one
/// part each, with that body, and then the end of the message.
pub proof fn lemma_length_or_scan_by_requests(
    boundary: Seq<u8>,
    declared: Seq<u8>,
    bare: Seq<u8>,
    body: Seq<u8>,
    one: Seq<Seq<u8>>,
    other: Seq<Seq<u8>>,
)
    requires
        valid_boundary(boundary),
        absent(body, boundary),
        writable(boundary, (declared, body)),
        writable(boundary, (bare, body)),
        announced(declared).unwrap().length == Some(body.len() as u64),
        announced(bare).unwrap().length.is_none(),
        joined(one) == message(boundary, seq![(declared, body)]),
        joined(other) == message(boundary, seq![(bare, body)]),
        joined(one).len() < u128::MAX,
        joined(other).len() < u128::MAX,
    ensures
        outcome(run(fresh(boundary), one)).error.is_none(),
        outcome(run(fresh(boundary), other)).error.is_none(),
        outcome(run(fresh(boundary), one)).parts.len() == 1,
        outcome(run(fresh(boundary), other)).parts.len() == 1,
        outcome(run(fresh(boundary), one)).parts[0].body == body,
        outcome(run(fresh(boundary), other)).parts[0].body == body,
{
    lemma_round_trip_by_requests(boundary, seq![(declared, body)], one);
    lemma_round_trip_by_requests(boundary, seq![(bare, body)], other);
}

/// A body that holds `CR LF --` is read as it is, request by request: as
/// long as the whole delimiter does not stand in the body, the requests
/// hand out every byte of it, the `CR LF --` among them, before they hand
/// out the end of the part.
pub proof fn lemma_dashes_by_requests(
    boundary: Seq<u8>,
    headers: Seq<u8>,
    body: Seq<u8>,
    chunks: Seq<Seq<u8>>,
)
    requires
        valid_boundary(boundary),
        absent(body, delimiter(boundary)),
        writable(boundary, (headers, body)),
        joined(chunks) == message(boundary, seq![(headers, body)]),
        joined(chunks).len() < u128::MAX,
    ensures
        outcome(run(fresh(boundary), chunks)).error.is_none(),
        outcome(run(fresh(boundary), chunks)).parts.len() == 1,
        outcome(run(fresh(boundary), chunks)).parts[0].body == body,
{
    lemma_round_trip_by_requests(boundary, seq![(headers, body)], chunks);
}

} // verus!

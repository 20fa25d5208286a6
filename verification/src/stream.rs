//! Why the decoder does not depend on how the bytes arrive: what a reading
//! step decides on the bytes it has is what it would decide on the whole
//! message.

use vstd::prelude::*;
use crate::bytes::{
    lemma_absent_extend, lemma_first_extend, lemma_first_skip, lemma_position, lemma_position_some,
    occurs_at, position,
};
use crate::error::MultipartError;
use crate::grammar::{
    blank_line, boundary_step, delimiter, field_step, length_step, scan_step, skip_step,
    BodyStep, FieldState,
};
use crate::header::headers_step;
use crate::message::{body_end, body_rest, whole};
use crate::payload::{drop_front, newline, Window};

verus! {

/// The position of a needle does not move when bytes are appended.
pub proof fn lemma_position_extend(hay: Seq<u8>, more: Seq<u8>, needle: Seq<u8>)
    ensures
        position(hay, needle).is_some() ==> position(hay + more, needle) == position(
            hay,
            needle,
        ),
{
    lemma_position(hay, needle);
    if let Some(i) = position(hay, needle) {
        lemma_first_extend(hay, more, needle, i);
        lemma_position_some(hay + more, needle, i);
    }
}

/// Cutting `hay + more` inside `hay`.
pub proof fn lemma_cut(hay: Seq<u8>, more: Seq<u8>, k: int)
    requires
        0 <= k <= hay.len(),
    ensures
        (hay + more).subrange(0, k) == hay.subrange(0, k),
        (hay + more).subrange(k, (hay + more).len() as int) == hay.subrange(k, hay.len() as int)
            + more,
{
    assert((hay + more).subrange(0, k) =~= hay.subrange(0, k));
    assert((hay + more).subrange(k, (hay + more).len() as int) =~= hay.subrange(
        k,
        hay.len() as int,
    ) + more);
}

/// The bytes still to come, `more`, are none once the source has ended.
pub open spec fn may_follow(w: Window, more: Seq<u8>) -> bool {
    w.eof ==> more.len() == 0
}

/// The window on the whole sequence is the window at the end of the
/// source.
proof fn lemma_whole(w: Window, more: Seq<u8>)
    requires
        w.eof,
        more.len() == 0,
    ensures
        whole(w.buf + more) == w,
{
    assert(w.buf + more =~= w.buf);
}

/// A boundary line that the step has read from the bytes at hand is the one
/// it reads from the whole message.
pub proof fn lemma_boundary_extend(w: Window, more: Seq<u8>, boundary: Seq<u8>)
    requires
        may_follow(w, more),
    ensures
        boundary_step(w, boundary).0 != Ok::<Option<bool>, MultipartError>(None) ==> {
            &&& boundary_step(whole(w.buf + more), boundary).0 == boundary_step(w, boundary).0
            &&& boundary_step(whole(w.buf + more), boundary).1 == whole(
                boundary_step(w, boundary).1.buf + more,
            )
        },
{
    lemma_position(w.buf, newline());
    match position(w.buf, newline()) {
        Some(i) => {
            lemma_position_extend(w.buf, more, newline());
            lemma_cut(w.buf, more, i + 1);
        },
        None => {
            if w.eof {
                lemma_whole(w, more);
                assert(drop_front(w, w.buf.len() as int).buf + more =~= drop_front(
                    w,
                    w.buf.len() as int,
                ).buf);
            }
        },
    }
}

/// The preamble that the step has dropped from the bytes at hand is
/// preamble of the whole message, and the boundary line it has found is
/// the first of the whole message.
pub proof fn lemma_skip_extend(w: Window, more: Seq<u8>, boundary: Seq<u8>)
    requires
        may_follow(w, more),
    ensures
        skip_step(w, boundary).0 == Ok::<Option<bool>, MultipartError>(None) ==> skip_step(
            whole(w.buf + more),
            boundary,
        ) == skip_step(whole(skip_step(w, boundary).1.buf + more), boundary),
        skip_step(w, boundary).0 != Ok::<Option<bool>, MultipartError>(None) ==> {
            &&& skip_step(whole(w.buf + more), boundary).0 == skip_step(w, boundary).0
            &&& skip_step(whole(w.buf + more), boundary).1 == whole(
                skip_step(w, boundary).1.buf + more,
            )
        },
    decreases w.buf.len(),
{
    lemma_position(w.buf, newline());
    match position(w.buf, newline()) {
        Some(i) => {
            lemma_position_extend(w.buf, more, newline());
            lemma_cut(w.buf, more, i + 1);
            let rest = drop_front(w, i + 1);
            lemma_skip_extend(rest, more, boundary);
            assert(drop_front(whole(w.buf + more), i + 1) == whole(rest.buf + more));
        },
        None => {
            if w.eof {
                lemma_whole(w, more);
                assert(drop_front(w, w.buf.len() as int).buf + more =~= drop_front(
                    w,
                    w.buf.len() as int,
                ).buf);
            }
        },
    }
}

/// A header block that the step has read from the bytes at hand is the one
/// it reads from the whole message.
pub proof fn lemma_headers_extend(w: Window, more: Seq<u8>)
    requires
        may_follow(w, more),
    ensures
        !(headers_step(w).0 matches Ok(None)) ==> {
            &&& headers_step(whole(w.buf + more)).0 == headers_step(w).0
            &&& headers_step(whole(w.buf + more)).1 == whole(headers_step(w).1.buf + more)
        },
{
    lemma_position(w.buf, blank_line());
    match position(w.buf, blank_line()) {
        Some(i) => {
            lemma_position_extend(w.buf, more, blank_line());
            lemma_cut(w.buf, more, i + 4);
        },
        None => {
            if w.eof {
                lemma_whole(w, more);
            }
        },
    }
}

/// A result of `body_rest` with `front` put in front of the body.
pub open spec fn with_front(front: Seq<u8>, r: Result<(Seq<u8>, Seq<u8>), MultipartError>)
    -> Result<(Seq<u8>, Seq<u8>), MultipartError> {
    match r {
        Ok((body, rest)) => Ok((front + body, rest)),
        Err(e) => Err(e),
    }
}

/// What a reading step on a part means for the body in the whole message.
pub open spec fn field_agrees(
    w: Window,
    field: FieldState,
    more: Seq<u8>,
    boundary: Seq<u8>,
) -> bool {
    let (step, w1, f1) = field_step(w, field, boundary);
    let total = w.buf + more;
    let left = w1.buf + more;
    match step {
        BodyStep::Pending => body_rest(total, field, boundary) == body_rest(left, f1, boundary),
        BodyStep::Data(d) => d.len() > 0 && w1.buf.len() < w.buf.len() && body_rest(
            total,
            field,
            boundary,
        ) == with_front(d, body_rest(left, f1, boundary)),
        BodyStep::End => w1.buf.len() < w.buf.len() && body_rest(total, field, boundary) == Ok::<
            (Seq<u8>, Seq<u8>),
            MultipartError,
        >((Seq::<u8>::empty(), left)),
        BodyStep::Failed(e) => body_rest(total, field, boundary) == Err::<
            (Seq<u8>, Seq<u8>),
            MultipartError,
        >(e),
    }
}

/// The line after a body: what the step takes from the bytes at hand is
/// what ends the body in the whole message.
proof fn lemma_line_extend(w: Window, field: FieldState, more: Seq<u8>, boundary: Seq<u8>)
    requires
        may_follow(w, more),
        field.eof,
    ensures
        field_agrees(w, field, more, boundary),
{
    let total = w.buf + more;
    lemma_position(w.buf, newline());
    assert(total.subrange(0, total.len() as int) =~= total);
    assert(total.subrange(0, 0) =~= Seq::<u8>::empty());
    match position(w.buf, newline()) {
        Some(i) => {
            lemma_position_extend(w.buf, more, newline());
            lemma_cut(w.buf, more, i + 1);
        },
        None => {
            if w.eof {
                assert(total =~= w.buf);
            }
        },
    }
}

/// A body whose end is at hand: the step that finds the end and the step
/// on a part that has ended do the same.
proof fn lemma_ended(w: Window, field: FieldState, more: Seq<u8>, boundary: Seq<u8>)
    requires
        may_follow(w, more),
        !field.eof,
        body_end(w.buf + more, field, boundary) == Some(0int),
        match field.length {
            Some(size) => length_step(w, size).0 == BodyStep::End,
            None => scan_step(w, boundary).0 == BodyStep::End,
        },
    ensures
        field_agrees(w, field, more, boundary),
{
    let done = FieldState { eof: true, length: field.length };
    lemma_line_extend(w, done, more, boundary);
    assert(field_step(w, field, boundary) == field_step(w, done, boundary));
    assert(body_rest(w.buf + more, field, boundary) == body_rest(w.buf + more, done, boundary));
    let f1 = field_step(w, field, boundary).2;
    let left = field_step(w, field, boundary).1.buf + more;
    assert(body_rest(left, f1, boundary) == body_rest(left, done, boundary));
}

/// A body of declared length: what the step hands out of the bytes at hand
/// is the front of the body in the whole message.
proof fn lemma_length_extend(w: Window, field: FieldState, more: Seq<u8>, boundary: Seq<u8>)
    requires
        may_follow(w, more),
        !field.eof,
        field.length.is_some(),
    ensures
        field_agrees(w, field, more, boundary),
{
    let size = field.length.unwrap();
    let total = w.buf + more;
    if size == 0 {
        lemma_ended(w, field, more, boundary);
    } else if w.buf.len() > 0 {
        let n: int = if w.buf.len() <= size {
            w.buf.len() as int
        } else {
            size as int
        };
        let (step, w1, f1) = field_step(w, field, boundary);
        let left = w1.buf + more;
        lemma_cut(w.buf, more, n);
        assert(left == total.subrange(n, total.len() as int));
        assert(f1 == FieldState { eof: false, length: Some((size - n) as u64) });
        let d = w.buf.subrange(0, n);
        if size <= total.len() {
            assert(left.subrange(size - n, left.len() as int) =~= total.subrange(
                size as int,
                total.len() as int,
            ));
            assert(d + left.subrange(0, size - n) =~= total.subrange(0, size as int));
            match position(total.subrange(size as int, total.len() as int), newline()) {
                Some(j) => {
                    lemma_position(total.subrange(size as int, total.len() as int), newline());
                    assert(left.subrange(size - n + j + 1, left.len() as int) =~= total.subrange(
                        size + j + 1,
                        total.len() as int,
                    ));
                },
                None => {},
            }
        }
    } else {
        if w.eof {
            assert(total =~= w.buf);
        }
    }
}

/// A body that ends at the delimiter: what the step hands out of the bytes
/// at hand is the front of the body in the whole message, and it never
/// hands out a byte of the delimiter.
proof fn lemma_scan_extend(w: Window, field: FieldState, more: Seq<u8>, boundary: Seq<u8>)
    requires
        may_follow(w, more),
        !field.eof,
        field.length.is_none(),
    ensures
        field_agrees(w, field, more, boundary),
{
    let d = delimiter(boundary);
    let total = w.buf + more;
    let (step, w1, f1) = field_step(w, field, boundary);
    let left = w1.buf + more;
    lemma_position(w.buf, d);
    lemma_position(total, d);
    if w.buf.len() == 0 {
        if w.eof {
            assert(total =~= w.buf);
        }
    } else {
        match position(w.buf, d) {
            Some(i) => {
                lemma_position_extend(w.buf, more, d);
                if i == 0 {
                    lemma_ended(w, field, more, boundary);
                } else {
                    lemma_cut(w.buf, more, i);
                    assert(left == total.subrange(i, total.len() as int));
                    lemma_first_skip(total, d, i, i);
                    lemma_position_some(left, d, 0);
                    assert(left.subrange(0, left.len() as int) =~= left);
                    assert(w.buf.subrange(0, i) + left.subrange(0, 0) =~= total.subrange(0, i));
                    match position(left, newline()) {
                        Some(j) => {
                            lemma_position(left, newline());
                            assert(left.subrange(j + 1, left.len() as int) =~= total.subrange(
                                i + j + 1,
                                total.len() as int,
                            ));
                        },
                        None => {},
                    }
                }
            },
            None => {
                if w.eof {
                    assert(total =~= w.buf);
                    assert(left =~= Seq::<u8>::empty());
                    lemma_position(left, d);
                    if let Some(p) = position(left, d) {
                        assert(occurs_at(left, d, p));
                    }
                } else if w.buf.len() >= d.len() {
                    let n = w.buf.len() - (d.len() - 1);
                    lemma_cut(w.buf, more, n);
                    assert(left == total.subrange(n, total.len() as int));
                    lemma_position(left, d);
                    match position(total, d) {
                        Some(p) => {
                            lemma_absent_extend(w.buf, more, d, p);
                            lemma_first_skip(total, d, p, n);
                            lemma_position_some(left, d, p - n);
                            assert(w.buf.subrange(0, n) + left.subrange(0, p - n)
                                =~= total.subrange(0, p));
                            assert(left.subrange(p - n, left.len() as int) =~= total.subrange(
                                p,
                                total.len() as int,
                            ));
                            match position(total.subrange(p, total.len() as int), newline()) {
                                Some(j) => {
                                    lemma_position(
                                        total.subrange(p, total.len() as int),
                                        newline(),
                                    );
                                    assert(left.subrange(p - n + j + 1, left.len() as int)
                                        =~= total.subrange(p + j + 1, total.len() as int));
                                },
                                None => {},
                            }
                        },
                        None => {
                            if let Some(q) = position(left, d) {
                                assert(left.subrange(q, q + d.len()) =~= total.subrange(
                                    q + n,
                                    q + n + d.len(),
                                ));
                                assert(occurs_at(total, d, q + n));
                            }
                        },
                    }
                }
            },
        }
    }
}

/// What a reading step on a part hands out of the bytes at hand is what
/// the body holds in the whole message, whatever bytes follow.
pub proof fn lemma_field_extend(w: Window, field: FieldState, more: Seq<u8>, boundary: Seq<u8>)
    requires
        may_follow(w, more),
    ensures
        field_agrees(w, field, more, boundary),
{
    if field.eof {
        lemma_line_extend(w, field, more, boundary);
    } else if field.length.is_some() {
        lemma_length_extend(w, field, more, boundary);
    } else {
        lemma_scan_extend(w, field, more, boundary);
    }
}

} // verus!

use actix_web::error::PayloadError;
use dicomweb_server::error::{MultipartError, ParseError};
use dicomweb_server::header::HeaderMap;
use dicomweb_server::payload::{PayloadBuffer, StreamEvent};
use dicomweb_server::server::{InnerField, InnerMultipart, MultipartRelated, NextChunk, NextPart};

fn window(bytes: &[u8], eof: bool) -> PayloadBuffer {
    let mut w = PayloadBuffer::new();
    w.extend(bytes);
    if eof {
        w.poll_stream(&StreamEvent::End).unwrap();
    }
    w
}

fn data(c: NextChunk) -> Vec<u8> {
    match c {
        NextChunk::Data(d) => d,
        NextChunk::Pending => panic!("pending"),
        NextChunk::End => panic!("end"),
        NextChunk::Failed(e) => panic!("failed: {}", e.message()),
    }
}

#[test]
fn boundary_line_opens_or_closes() {
    let mut w = window(b"--xyz\r\nrest", false);
    assert_eq!(InnerMultipart::read_boundary(&mut w, b"xyz"), Ok(Some(false)));
    assert_eq!(w.buffered(), b"rest");
    let mut w = window(b"--xyz--\r\nrest", false);
    assert_eq!(InnerMultipart::read_boundary(&mut w, b"xyz"), Ok(Some(true)));
    assert_eq!(w.buffered(), b"rest");
    let mut w = window(b"--xyz--", true);
    assert_eq!(InnerMultipart::read_boundary(&mut w, b"xyz"), Ok(Some(true)));
    assert_eq!(w.buffered(), b"");
}

#[test]
fn boundary_line_waits_for_its_line_feed() {
    let mut w = window(b"--xyz--", false);
    assert_eq!(InnerMultipart::read_boundary(&mut w, b"xyz"), Ok(None));
    assert_eq!(w.buffered(), b"--xyz--");
    let mut w = window(b"", false);
    assert_eq!(InnerMultipart::read_boundary(&mut w, b"xyz"), Ok(None));
}

#[test]
fn boundary_line_that_is_something_else_is_malformed() {
    for line in [&b"--xyz\n"[..], b"--xy\r\n", b"-xyz\r\n", b"--xyzz\r\n", b"--xyz-\r\n", b"--xyz--x\r\n", b"\r\n", b"--xyz--\n"] {
        let mut w = window(line, false);
        assert_eq!(
            InnerMultipart::read_boundary(&mut w, b"xyz"),
            Err(MultipartError::MalformedBoundaryLine),
            "{:?}",
            line
        );
        assert_eq!(w.buffered(), b"");
    }
}

#[test]
fn boundary_line_cut_short_is_incomplete() {
    for rest in [&b""[..], b"-", b"--", b"--xy", b"--xyz", b"--xyz\r", b"--xyz-", b"--xyz--\r"] {
        let mut w = window(rest, true);
        assert_eq!(
            InnerMultipart::read_boundary(&mut w, b"xyz"),
            Err(MultipartError::Incomplete),
            "{:?}",
            rest
        );
    }
    for rest in [&b"x"[..], b"--xyzz", b"--xyz--x", b"--xyz\r\r"] {
        let mut w = window(rest, true);
        assert_eq!(
            InnerMultipart::read_boundary(&mut w, b"xyz"),
            Err(MultipartError::MalformedBoundaryLine),
            "{:?}",
            rest
        );
    }
}

#[test]
fn preamble_is_skipped_line_by_line() {
    let mut w = window(b"one\r\n\r\n--xy\r\n--xyz \r\n--xyz\r\nrest", false);
    assert_eq!(InnerMultipart::skip_until_boundary(&mut w, b"xyz"), Ok(Some(false)));
    assert_eq!(w.buffered(), b"rest");
    let mut w = window(b"one\r\n--xyz--\r\nrest", false);
    assert_eq!(InnerMultipart::skip_until_boundary(&mut w, b"xyz"), Ok(Some(true)));
    assert_eq!(w.buffered(), b"rest");
}

#[test]
fn preamble_waits_and_keeps_the_line_it_is_in() {
    let mut w = window(b"one\r\ntwo\r\n--xy", false);
    assert_eq!(InnerMultipart::skip_until_boundary(&mut w, b"xyz"), Ok(None));
    assert_eq!(w.buffered(), b"--xy");
    w.extend(b"z\r\n");
    assert_eq!(InnerMultipart::skip_until_boundary(&mut w, b"xyz"), Ok(Some(false)));
    assert_eq!(w.buffered(), b"");
}

#[test]
fn preamble_without_boundary_is_incomplete() {
    let mut w = window(b"one\r\n--xyz", true);
    assert_eq!(
        InnerMultipart::skip_until_boundary(&mut w, b"xyz"),
        Err(MultipartError::Incomplete)
    );
    let mut w = window(b"one\r\n--xyz--", true);
    assert_eq!(InnerMultipart::skip_until_boundary(&mut w, b"xyz"), Ok(Some(true)));
    assert_eq!(w.buffered(), b"");
}

#[test]
fn header_block_ends_at_the_blank_line() {
    let mut w = window(b"Content-Type: a/b\r\nX: 1\r\n\r\nbody\r\n\r\n", false);
    let h = InnerMultipart::read_headers(&mut w).unwrap().unwrap();
    assert_eq!(h.len(), 2);
    assert_eq!(h.get(b"content-type"), Some(&b"a/b"[..]));
    assert_eq!(h.get(b"x"), Some(&b"1"[..]));
    assert_eq!(w.buffered(), b"body\r\n\r\n");
}

#[test]
fn header_block_waits_or_is_incomplete() {
    let mut w = window(b"Content-Type: a/b\r\n", false);
    assert!(matches!(InnerMultipart::read_headers(&mut w), Ok(None)));
    assert_eq!(w.buffered(), b"Content-Type: a/b\r\n");
    let mut w = window(b"Content-Type: a/b\r\n", true);
    assert_eq!(InnerMultipart::read_headers(&mut w).err(), Some(MultipartError::Incomplete));
}

#[test]
fn empty_header_block() {
    let mut w = window(b"\r\n\r\nbody", false);
    let h = InnerMultipart::read_headers(&mut w).unwrap().unwrap();
    assert_eq!(h.len(), 0);
    assert_eq!(w.buffered(), b"body");
}

#[test]
fn body_of_declared_length() {
    let mut w = window(b"abcdef", false);
    let mut left: u64 = 4;
    assert_eq!(data(InnerField::read_len(&mut w, &mut left)), b"abcd".to_vec());
    assert_eq!(left, 0);
    assert!(matches!(InnerField::read_len(&mut w, &mut left), NextChunk::End));
    assert_eq!(w.buffered(), b"ef");

    let mut w = window(b"ab", false);
    let mut left: u64 = 4;
    assert_eq!(data(InnerField::read_len(&mut w, &mut left)), b"ab".to_vec());
    assert_eq!(left, 2);
    assert!(matches!(InnerField::read_len(&mut w, &mut left), NextChunk::Pending));
    w.poll_stream(&StreamEvent::End).unwrap();
    assert!(matches!(
        InnerField::read_len(&mut w, &mut left),
        NextChunk::Failed(MultipartError::Incomplete)
    ));
    assert_eq!(left, 2);
}

#[test]
fn scanned_body_stops_in_front_of_the_delimiter() {
    let mut w = window(b"hello\r\n--xyz\r\n", false);
    assert_eq!(data(InnerField::read_stream(&mut w, b"xyz")), b"hello".to_vec());
    assert_eq!(w.buffered(), b"\r\n--xyz\r\n");
    assert!(matches!(InnerField::read_stream(&mut w, b"xyz"), NextChunk::End));
    assert_eq!(w.buffered(), b"\r\n--xyz\r\n");
}

#[test]
fn scanned_body_holds_back_what_may_begin_a_delimiter() {
    let mut w = window(b"0123456789", false);
    assert_eq!(data(InnerField::read_stream(&mut w, b"xyz")), b"0123".to_vec());
    assert_eq!(w.buffered(), b"456789");
    assert!(matches!(InnerField::read_stream(&mut w, b"xyz"), NextChunk::Pending));
    assert_eq!(w.buffered(), b"456789");
    w.extend(b"\r");
    assert_eq!(data(InnerField::read_stream(&mut w, b"xyz")), b"4".to_vec());
    w.poll_stream(&StreamEvent::End).unwrap();
    assert_eq!(data(InnerField::read_stream(&mut w, b"xyz")), b"56789\r".to_vec());
    assert!(matches!(
        InnerField::read_stream(&mut w, b"xyz"),
        NextChunk::Failed(MultipartError::Incomplete)
    ));
}

#[test]
fn scanned_body_waits_on_an_empty_window() {
    let mut w = window(b"", false);
    assert!(matches!(InnerField::read_stream(&mut w, b"xyz"), NextChunk::Pending));
}

#[test]
fn part_poll_takes_the_line_break_after_the_body() {
    let mut h = HeaderMap::new();
    h.append(b"content-length".to_vec(), b"3".to_vec());
    let mut f = InnerField::new(&h).unwrap();
    let mut w = window(b"abc\r\n--xyz--", false);
    assert_eq!(data(f.poll(&mut w, b"xyz")), b"abc".to_vec());
    assert!(matches!(f.poll(&mut w, b"xyz"), NextChunk::End));
    assert_eq!(w.buffered(), b"--xyz--");
}

#[test]
fn part_poll_drops_the_rest_of_the_line_after_a_declared_length() {
    let mut h = HeaderMap::new();
    h.append(b"Content-Length".to_vec(), b"3".to_vec());
    let mut f = InnerField::new(&h).unwrap();
    let mut w = window(b"abcjunk", false);
    assert_eq!(data(f.poll(&mut w, b"xyz")), b"abc".to_vec());
    assert!(matches!(f.poll(&mut w, b"xyz"), NextChunk::Pending));
    w.extend(b"\r\n--xyz--");
    assert!(matches!(f.poll(&mut w, b"xyz"), NextChunk::End));
    assert_eq!(w.buffered(), b"--xyz--");
}

#[test]
fn part_poll_without_line_break_is_incomplete() {
    let h = HeaderMap::new();
    let mut f = InnerField::new(&h).unwrap();
    let mut w = window(b"abc", true);
    assert_eq!(data(f.poll(&mut w, b"xyz")), b"abc".to_vec());
    assert!(matches!(f.poll(&mut w, b"xyz"), NextChunk::Failed(MultipartError::Incomplete)));
}

#[test]
fn unreadable_length_gives_no_part() {
    let mut h = HeaderMap::new();
    h.append(b"content-length".to_vec(), b"-3".to_vec());
    assert_eq!(InnerField::new(&h).err(), Some(MultipartError::TransportError));
}

#[test]
fn decoder_waits_for_bytes() {
    let mut mp = MultipartRelated::from_boundary(b"xyz");
    assert!(matches!(mp.poll_next(), NextPart::Pending));
    mp.feed(b"--xyz\r\nA: b\r\n");
    assert!(matches!(mp.poll_next(), NextPart::Pending));
    mp.feed(b"\r\nbo");
    let mut p = match mp.poll_next() {
        NextPart::Part(p) => p,
        _ => panic!("no part"),
    };
    assert!(matches!(p.poll_next(&mut mp), NextChunk::Pending));
    mp.feed(b"dy\r\n--x");
    assert_eq!(data(p.poll_next(&mut mp)), b"bod".to_vec());
    assert!(matches!(p.poll_next(&mut mp), NextChunk::Pending));
    mp.feed(b"yz--");
    assert_eq!(data(p.poll_next(&mut mp)), b"y".to_vec());
    assert!(matches!(p.poll_next(&mut mp), NextChunk::End));
    assert!(matches!(p.poll_next(&mut mp), NextChunk::End));
    assert!(matches!(mp.poll_next(), NextPart::Pending));
    mp.end_of_stream();
    assert!(matches!(mp.poll_next(), NextPart::End));
    assert!(matches!(p.poll_next(&mut mp), NextChunk::End));
    assert!(mp.is_clean());
}

#[test]
fn a_finished_part_does_not_read_the_next_one() {
    let mut mp = MultipartRelated::from_boundary(b"xyz");
    mp.feed(b"--xyz\r\nA: b\r\n\r\none\r\n--xyz\r\nA: c\r\n\r\ntwo\r\n--xyz--");
    mp.end_of_stream();
    let mut first_part = match mp.poll_next() {
        NextPart::Part(p) => p,
        _ => panic!("no part"),
    };
    assert_eq!(data(first_part.poll_next(&mut mp)), b"one".to_vec());
    assert!(matches!(first_part.poll_next(&mut mp), NextChunk::End));
    let mut second_part = match mp.poll_next() {
        NextPart::Part(p) => p,
        _ => panic!("no part"),
    };
    assert!(matches!(first_part.poll_next(&mut mp), NextChunk::End));
    assert_eq!(data(second_part.poll_next(&mut mp)), b"two".to_vec());
    assert!(matches!(second_part.poll_next(&mut mp), NextChunk::End));
    assert!(matches!(mp.poll_next(), NextPart::End));
    assert!(mp.is_clean());
}

#[test]
fn a_failure_is_for_good() {
    let mut mp = MultipartRelated::from_boundary(b"xyz");
    mp.feed(b"--xyz\r\nA: b\r\n\r\none\r\n--xyzz\r\n--xyz--");
    mp.end_of_stream();
    let mut first_part = match mp.poll_next() {
        NextPart::Part(p) => p,
        _ => panic!("no part"),
    };
    assert_eq!(data(first_part.poll_next(&mut mp)), b"one".to_vec());
    assert!(matches!(first_part.poll_next(&mut mp), NextChunk::End));
    assert!(matches!(mp.poll_next(), NextPart::Failed(MultipartError::MalformedBoundaryLine)));
    assert!(matches!(mp.poll_next(), NextPart::Failed(MultipartError::MalformedBoundaryLine)));
    assert!(matches!(
        first_part.poll_next(&mut mp),
        NextChunk::Failed(MultipartError::MalformedBoundaryLine)
    ));
    assert_eq!(mp.failure(), Some(MultipartError::MalformedBoundaryLine));
}

#[test]
fn a_failing_source_ends_the_session() {
    let mut mp = MultipartRelated::from_boundary(b"xyz");
    mp.feed(b"--xyz\r\nA: b\r\n\r\none");
    let mut first_part = match mp.poll_next() {
        NextPart::Part(p) => p,
        _ => panic!("no part"),
    };
    assert!(mp.source_error().is_none());
    mp.fail(PayloadError::Overflow);
    assert!(matches!(
        first_part.poll_next(&mut mp),
        NextChunk::Failed(MultipartError::TransportError)
    ));
    assert!(matches!(mp.poll_next(), NextPart::Failed(MultipartError::TransportError)));
    assert!(matches!(mp.poll_next(), NextPart::Failed(MultipartError::TransportError)));
    assert_eq!(mp.failure(), Some(MultipartError::TransportError));
    assert!(matches!(mp.source_error(), Some(PayloadError::Overflow)));
    assert!(matches!(mp.into_source_error(), Some(PayloadError::Overflow)));
}

#[test]
fn the_error_of_the_source_comes_back_as_it_was() {
    let mut mp = MultipartRelated::from_boundary(b"xyz");
    let cause = std::io::Error::new(std::io::ErrorKind::ConnectionReset, "peer went away");
    mp.fail(PayloadError::Io(cause));
    assert!(matches!(mp.poll_next(), NextPart::Failed(MultipartError::TransportError)));
    match mp.into_source_error() {
        Some(PayloadError::Io(e)) => {
            assert_eq!(e.kind(), std::io::ErrorKind::ConnectionReset);
            assert_eq!(e.to_string(), "peer went away");
        }
        _ => panic!("the error of the source was not kept"),
    }
}

#[test]
fn the_decoder_takes_in_what_the_source_did() {
    let mut mp = MultipartRelated::from_boundary(b"xyz");
    mp.poll_stream(StreamEvent::Data(b"--xyz\r\nA: b\r\n\r\none\r\n".to_vec()));
    mp.poll_stream(StreamEvent::Data(b"--xyz--".to_vec()));
    let mut first_part = match mp.poll_next() {
        NextPart::Part(p) => p,
        _ => panic!("no part"),
    };
    assert_eq!(data(first_part.poll_next(&mut mp)), b"one".to_vec());
    assert!(matches!(first_part.poll_next(&mut mp), NextChunk::End));
    assert!(matches!(mp.poll_next(), NextPart::Pending));
    mp.poll_stream(StreamEvent::End);
    assert!(matches!(mp.poll_next(), NextPart::End));

    let mut failing = MultipartRelated::from_boundary(b"xyz");
    failing.poll_stream(StreamEvent::Data(b"--xyz\r\n".to_vec()));
    failing.poll_stream(StreamEvent::Failed(PayloadError::UnknownLength));
    assert!(matches!(failing.poll_next(), NextPart::Failed(MultipartError::TransportError)));
    assert!(matches!(failing.source_error(), Some(PayloadError::UnknownLength)));
}

#[test]
fn a_second_failure_of_the_source_changes_nothing() {
    let mut mp = MultipartRelated::from_boundary(b"xyz");
    mp.fail(PayloadError::Overflow);
    mp.fail(PayloadError::EncodingCorrupted);
    assert!(matches!(mp.source_error(), Some(PayloadError::Overflow)));
}

#[test]
fn a_failed_session_keeps_its_failure_when_the_source_fails() {
    let mut refused = MultipartRelated::from_error(MultipartError::ParseContentType);
    refused.fail(PayloadError::Overflow);
    assert!(matches!(refused.poll_next(), NextPart::Failed(MultipartError::ParseContentType)));
    assert!(refused.source_error().is_none());
}

#[test]
fn a_part_left_unread_answers_not_consumed_even_when_the_source_fails() {
    let mut mp = MultipartRelated::from_boundary(b"xyz");
    mp.feed(b"--xyz\r\nA: b\r\n\r\none\r\n--xyz\r\nA: c\r\n\r\ntwo\r\n--xyz--");
    let mut first_part = match mp.poll_next() {
        NextPart::Part(p) => p,
        _ => panic!("no part"),
    };
    assert!(matches!(mp.poll_next(), NextPart::Failed(MultipartError::NotConsumed)));
    mp.fail(PayloadError::Overflow);
    assert!(matches!(mp.poll_next(), NextPart::Failed(MultipartError::NotConsumed)));
    mp.feed(b"more");
    mp.end_of_stream();
    mp.fail(PayloadError::EncodingCorrupted);
    assert!(matches!(mp.poll_next(), NextPart::Failed(MultipartError::NotConsumed)));
    assert!(matches!(
        first_part.poll_next(&mut mp),
        NextChunk::Failed(MultipartError::NotConsumed)
    ));
    assert!(!mp.is_clean());
    assert_eq!(mp.failure(), None);
    assert!(mp.source_error().is_none());
}

#[test]
fn every_error_has_its_text() {
    let all = [
        (MultipartError::MissingContentType, "no Content-Type header found"),
        (MultipartError::ParseContentType, "can not parse Content-Type header"),
        (MultipartError::MissingBoundaryParameter, "multipart boundary is not found"),
        (MultipartError::MalformedBoundaryLine, "malformed multipart boundary line"),
        (MultipartError::Incomplete, "multipart stream is incomplete"),
        (MultipartError::NestedMultipartUnsupported, "nested multipart is not supported"),
        (MultipartError::NotConsumed, "multipart part was not read to its end"),
        (MultipartError::TransportError, "error while reading the multipart payload"),
        (MultipartError::Parse(ParseError::Header), "invalid header provided"),
        (MultipartError::Parse(ParseError::TooLarge), "message head is too large"),
        (MultipartError::Parse(ParseError::Status), "invalid status provided"),
        (MultipartError::Parse(ParseError::Version), "invalid HTTP version specified"),
    ];
    for (e, text) in all {
        assert_eq!(e.message(), text);
    }
}

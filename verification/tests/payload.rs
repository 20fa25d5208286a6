use actix_web::error::PayloadError;
use dicomweb_server::error::MultipartError;
use dicomweb_server::payload::{PayloadBuffer, StreamEvent};

#[test]
fn read_until_takes_the_delimiter_too() {
    let mut w = PayloadBuffer::new();
    w.extend(b"abc\r\ndef");
    let got = w.read_until(b"\r\n").unwrap();
    assert_eq!(got, Some(b"abc\r\n".to_vec()));
    assert_eq!(w.buffered(), b"def");
}

#[test]
fn read_until_finds_the_first_occurrence() {
    let mut w = PayloadBuffer::new();
    w.extend(b"a--b--c");
    assert_eq!(w.read_until(b"--"), Ok(Some(b"a--".to_vec())));
    assert_eq!(w.read_until(b"--"), Ok(Some(b"b--".to_vec())));
    assert_eq!(w.read_until(b"--"), Ok(None));
    assert_eq!(w.buffered(), b"c");
}

#[test]
fn read_until_waits_before_the_end_and_fails_after() {
    let mut w = PayloadBuffer::new();
    w.extend(b"no newline");
    assert_eq!(w.read_until(b"\n"), Ok(None));
    assert_eq!(w.buffered(), b"no newline");
    assert_eq!(w.poll_stream(&StreamEvent::End), Ok(()));
    assert!(w.is_eof());
    assert_eq!(w.read_until(b"\n"), Err(MultipartError::Incomplete));
    assert_eq!(w.buffered(), b"no newline");
}

#[test]
fn read_max_hands_out_what_is_there() {
    let mut w = PayloadBuffer::new();
    assert_eq!(w.read_max(4), Ok(None));
    w.extend(b"abcdef");
    assert_eq!(w.read_max(4), Ok(Some(b"abcd".to_vec())));
    assert_eq!(w.read_max(4), Ok(Some(b"ef".to_vec())));
    assert_eq!(w.read_max(4), Ok(None));
    w.poll_stream(&StreamEvent::End).unwrap();
    assert_eq!(w.read_max(4), Err(MultipartError::Incomplete));
}

#[test]
fn read_max_of_nothing_is_empty() {
    let mut w = PayloadBuffer::new();
    w.extend(b"abc");
    assert_eq!(w.read_max(0), Ok(Some(Vec::new())));
    assert_eq!(w.buffered(), b"abc");
}

#[test]
fn readline_takes_one_line() {
    let mut w = PayloadBuffer::new();
    w.extend(b"one\r\ntwo\nthree");
    assert_eq!(w.readline(), Ok(Some(b"one\r\n".to_vec())));
    assert_eq!(w.readline(), Ok(Some(b"two\n".to_vec())));
    assert_eq!(w.readline(), Ok(None));
    assert_eq!(w.buffered(), b"three");
}

#[test]
fn readline_or_eof_takes_the_rest_at_the_end() {
    let mut w = PayloadBuffer::new();
    w.extend(b"one\nrest");
    assert_eq!(w.readline_or_eof(), Some(b"one\n".to_vec()));
    assert_eq!(w.readline_or_eof(), None);
    w.poll_stream(&StreamEvent::End).unwrap();
    assert_eq!(w.readline_or_eof(), Some(b"rest".to_vec()));
    assert_eq!(w.buffered(), b"");
    assert_eq!(w.readline_or_eof(), Some(Vec::new()));
}

#[test]
fn unprocessed_puts_bytes_back_in_front() {
    let mut w = PayloadBuffer::new();
    w.extend(b"cdef");
    w.unprocessed(b"ab".to_vec());
    assert_eq!(w.buffered(), b"abcdef");
    assert!(!w.is_eof());
}

#[test]
fn poll_stream_takes_in_what_the_source_did() {
    let mut w = PayloadBuffer::new();
    assert_eq!(w.poll_stream(&StreamEvent::Data(b"ab".to_vec())), Ok(()));
    assert_eq!(w.poll_stream(&StreamEvent::Data(b"cd".to_vec())), Ok(()));
    assert_eq!(w.buffered(), b"abcd");
    assert_eq!(w.poll_stream(&StreamEvent::Failed(PayloadError::Overflow)), Err(MultipartError::TransportError));
    assert_eq!(w.buffered(), b"abcd");
    assert!(!w.is_eof());
    assert_eq!(w.poll_stream(&StreamEvent::End), Ok(()));
    assert!(w.is_eof());
}

#[test]
fn nothing_is_taken_in_after_the_end() {
    let mut w = PayloadBuffer::new();
    w.extend(b"ab");
    w.poll_stream(&StreamEvent::End).unwrap();
    w.extend(b"cd");
    assert_eq!(w.poll_stream(&StreamEvent::Data(b"ef".to_vec())), Ok(()));
    assert_eq!(w.buffered(), b"ab");
}

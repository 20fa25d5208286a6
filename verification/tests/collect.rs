use dicomweb_server::builder::MultipartWriter;
use dicomweb_server::collect::{decode_chunks, Collected, Collector};
use dicomweb_server::error::{MultipartError, ParseError};

fn bodies(c: &Collected) -> Vec<Vec<u8>> {
    c.parts.iter().map(|p| p.body.clone()).collect()
}

fn split_every(data: &[u8], n: usize) -> Vec<Vec<u8>> {
    data.chunks(n).map(|c| c.to_vec()).collect()
}

fn sample() -> (Vec<u8>, Vec<Vec<u8>>) {
    let first: Vec<u8> = vec![2, 0, 0, 0, 13, 10, 45, 45, 1, 13, 10, 45, 45, 120, 121, 13];
    let second = b"ABC".to_vec();
    let third: Vec<u8> = Vec::new();
    let mut w = MultipartWriter::new_with_boundary("xyz");
    w.add(&first, "Content-Type: application/dicom").unwrap();
    w.add(&second, "Content-Type: application/dicom\r\nContent-Length: 3").unwrap();
    w.add(&third, "Content-Type: application/octet-stream").unwrap();
    w.finish();
    (w.data, vec![first, second, third])
}

#[test]
fn whole_message_in_one_chunk() {
    let (data, expected) = sample();
    let got = decode_chunks(b"xyz", &vec![data]);
    assert_eq!(got.error, None);
    assert_eq!(bodies(&got), expected);
    assert_eq!(got.parts[1].part.content_length(), Some(3));
    assert_eq!(got.parts[0].part.content_length(), None);
    assert_eq!(
        got.parts[2].part.content_type().unwrap().text,
        b"application/octet-stream".to_vec()
    );
}

#[test]
fn every_chunk_size_gives_the_same_parts() {
    let (data, expected) = sample();
    for n in 1..=data.len() {
        let got = decode_chunks(b"xyz", &split_every(&data, n));
        assert_eq!(got.error, None, "chunks of {}", n);
        assert_eq!(bodies(&got), expected, "chunks of {}", n);
    }
}

#[test]
fn every_cut_in_two_gives_the_same_parts() {
    let (data, expected) = sample();
    for cut in 0..=data.len() {
        let chunks = vec![data[..cut].to_vec(), data[cut..].to_vec()];
        let got = decode_chunks(b"xyz", &chunks);
        assert_eq!(got.error, None, "cut at {}", cut);
        assert_eq!(bodies(&got), expected, "cut at {}", cut);
    }
}

#[test]
fn collector_reads_as_bytes_arrive() {
    let (data, expected) = sample();
    let mut c = Collector::new(b"xyz");
    for b in &data {
        c.feed(&[*b]);
    }
    let got = c.finish();
    assert_eq!(got.error, None);
    assert_eq!(bodies(&got), expected);
}

#[test]
fn no_parts() {
    let mut w = MultipartWriter::new_with_boundary("xyz");
    w.finish();
    assert_eq!(w.data, b"--xyz--".to_vec());
    let got = decode_chunks(b"xyz", &vec![w.data]);
    assert_eq!(got.error, None);
    assert_eq!(got.parts.len(), 0);
}

#[test]
fn preamble_is_dropped_and_epilogue_is_not_read() {
    let data = b"hello\r\nworld\r\n--xyz\r\nA: b\r\n\r\nbody\r\n--xyz--\r\nepilogue".to_vec();
    let got = decode_chunks(b"xyz", &vec![data]);
    assert_eq!(got.error, None);
    assert_eq!(bodies(&got), vec![b"body".to_vec()]);
    assert_eq!(got.parts[0].part.headers().get(b"a"), Some(&b"b"[..]));
}

#[test]
fn dashes_in_a_body_are_body() {
    let body = b"one\r\n--\r\n--xy\r\n--xz\r\n-\r\n".to_vec();
    let mut w = MultipartWriter::new_with_boundary("xyz");
    w.add(&body, "Content-Type: application/dicom").unwrap();
    w.finish();
    for n in 1..=w.data.len() {
        let got = decode_chunks(b"xyz", &split_every(&w.data, n));
        assert_eq!(got.error, None);
        assert_eq!(bodies(&got), vec![body.clone()]);
    }
}

#[test]
fn message_without_closing_mark_is_incomplete() {
    let data = b"--xyz\r\nA: b\r\n\r\nbody\r\n--xyz".to_vec();
    let got = decode_chunks(b"xyz", &vec![data]);
    assert_eq!(got.error, Some(MultipartError::Incomplete));
    assert_eq!(bodies(&got), vec![b"body".to_vec()]);
    let data = b"--xyz\r\nA: b\r\n\r\nbody\r\n--xyz\r\n".to_vec();
    let got = decode_chunks(b"xyz", &vec![data]);
    assert_eq!(got.error, Some(MultipartError::Incomplete));
    assert_eq!(bodies(&got), vec![b"body".to_vec()]);
}

#[test]
fn message_without_first_boundary_is_incomplete() {
    let got = decode_chunks(b"xyz", &vec![b"nothing\r\nhere".to_vec()]);
    assert_eq!(got.error, Some(MultipartError::Incomplete));
    assert_eq!(got.parts.len(), 0);
    let got = decode_chunks(b"xyz", &vec![]);
    assert_eq!(got.error, Some(MultipartError::Incomplete));
}

#[test]
fn wrong_line_after_a_body_is_malformed() {
    let data = b"--xyz\r\nA: b\r\n\r\nbody\r\n--xyzzy\r\n".to_vec();
    let got = decode_chunks(b"xyz", &vec![data]);
    assert_eq!(got.error, Some(MultipartError::MalformedBoundaryLine));
    assert_eq!(bodies(&got), vec![b"body".to_vec()]);
    let data = b"--xyz\r\nA: b\r\n\r\nbody\r\n--xyz-x".to_vec();
    let got = decode_chunks(b"xyz", &vec![data]);
    assert_eq!(got.error, Some(MultipartError::MalformedBoundaryLine));
}

#[test]
fn nested_multipart_is_refused() {
    let data =
        b"--xyz\r\nContent-Type: multipart/mixed; boundary=abc\r\n\r\nbody\r\n--xyz--".to_vec();
    let got = decode_chunks(b"xyz", &vec![data]);
    assert_eq!(got.error, Some(MultipartError::NestedMultipartUnsupported));
    assert_eq!(got.parts.len(), 0);
}

#[test]
fn unreadable_length_is_refused() {
    let data = b"--xyz\r\nContent-Length: abc\r\n\r\nbody\r\n--xyz--".to_vec();
    let got = decode_chunks(b"xyz", &vec![data]);
    assert_eq!(got.error, Some(MultipartError::TransportError));
}

#[test]
fn short_body_of_declared_length_is_incomplete() {
    let data = b"--xyz\r\nContent-Length: 10\r\n\r\nbody".to_vec();
    let got = decode_chunks(b"xyz", &vec![data]);
    assert_eq!(got.error, Some(MultipartError::Incomplete));
    assert_eq!(got.parts.len(), 0);
}

#[test]
fn declared_length_may_hold_the_delimiter() {
    let body = b"a\r\n--xyz\r\nb".to_vec();
    let mut w = MultipartWriter::new_with_boundary("xyz");
    w.add(&body, "Content-Length: 11").unwrap();
    w.finish();
    for n in 1..=w.data.len() {
        let got = decode_chunks(b"xyz", &split_every(&w.data, n));
        assert_eq!(got.error, None);
        assert_eq!(bodies(&got), vec![body.clone()]);
    }
}

#[test]
fn bad_header_line_is_refused() {
    let data = b"--xyz\r\nno colon here\r\n\r\nbody\r\n--xyz--".to_vec();
    let got = decode_chunks(b"xyz", &vec![data]);
    assert_eq!(got.error, Some(MultipartError::Parse(ParseError::Header)));
}

#[test]
fn too_many_headers_are_refused() {
    let mut data = b"--xyz\r\n".to_vec();
    for i in 0..33 {
        data.extend_from_slice(format!("H{}: v\r\n", i).as_bytes());
    }
    data.extend_from_slice(b"\r\nbody\r\n--xyz--");
    let got = decode_chunks(b"xyz", &vec![data]);
    assert_eq!(got.error, Some(MultipartError::Parse(ParseError::TooLarge)));
}

#[test]
fn thirty_two_headers_are_read() {
    let mut data = b"--xyz\r\n".to_vec();
    for i in 0..32 {
        data.extend_from_slice(format!("H{}: v\r\n", i).as_bytes());
    }
    data.extend_from_slice(b"\r\nbody\r\n--xyz--");
    let got = decode_chunks(b"xyz", &vec![data]);
    assert_eq!(got.error, None);
    assert_eq!(got.parts[0].part.headers().len(), 32);
    assert_eq!(got.parts[0].part.headers().name_at(31), b"h31");
}

#[test]
fn declared_length_and_delimiter_give_the_same_body() {
    let body = b"some bytes\r\n-- and \r\n--xy more".to_vec();
    let mut with_length = MultipartWriter::new_with_boundary("xyz");
    with_length
        .add(&body, &format!("Content-Type: application/dicom\r\nContent-Length: {}", body.len()))
        .unwrap();
    with_length.finish();
    let mut without = MultipartWriter::new_with_boundary("xyz");
    without.add(&body, "Content-Type: application/dicom").unwrap();
    without.finish();
    let a = decode_chunks(b"xyz", &vec![with_length.data]);
    let b = decode_chunks(b"xyz", &vec![without.data]);
    assert_eq!(a.error, None);
    assert_eq!(b.error, None);
    assert_eq!(bodies(&a), vec![body.clone()]);
    assert_eq!(bodies(&a), bodies(&b));
}

#[test]
fn many_parts_in_one_chunk_and_in_many() {
    let mut w = MultipartWriter::new_with_boundary("frontier");
    let mut expected = Vec::new();
    for i in 0..400u32 {
        let body: Vec<u8> = (0..4096u32).map(|j| ((i * 31 + j * 7) % 251) as u8).collect();
        w.add(&body, "Content-Type: application/dicom").unwrap();
        expected.push(body);
    }
    w.finish();
    let whole = decode_chunks(b"frontier", &vec![w.data.clone()]);
    assert_eq!(whole.error, None);
    assert_eq!(bodies(&whole), expected);
    let cut = decode_chunks(b"frontier", &split_every(&w.data, 65536));
    assert_eq!(cut.error, None);
    assert_eq!(bodies(&cut), expected);
}

#[test]
fn the_part_that_a_failure_cut_is_handed_out() {
    let data = b"--xyz\r\nContent-Type: a/b\r\n\r\none\r\n--xyz\r\nContent-Type: c/d\r\n\r\ntw".to_vec();
    let got = decode_chunks(b"xyz", &vec![data]);
    assert_eq!(got.error, Some(MultipartError::Incomplete));
    assert_eq!(bodies(&got), vec![b"one".to_vec()]);
    let cut = got.unfinished.unwrap();
    assert_eq!(cut.content_type().unwrap().text, b"c/d".to_vec());
    let data = b"--xyz\r\nContent-Type: a/b\r\n\r\none\r\n--xyz\r\nContent-Type".to_vec();
    let got = decode_chunks(b"xyz", &vec![data]);
    assert_eq!(got.error, Some(MultipartError::Incomplete));
    assert!(got.unfinished.is_none());
}

#[test]
fn a_body_may_end_with_the_beginning_of_a_delimiter() {
    for tail in [&b"\r"[..], b"\r\n", b"\r\n-", b"\r\n--", b"\r\n--x", b"\r\n--xy", b"\r\n--xy\r"] {
        let mut body = b"body".to_vec();
        body.extend_from_slice(tail);
        let mut w = MultipartWriter::new_with_boundary("xyz");
        w.add(&body, "A: b").unwrap();
        w.finish();
        for n in 1..=w.data.len() {
            let got = decode_chunks(b"xyz", &split_every(&w.data, n));
            assert_eq!(got.error, None);
            assert_eq!(bodies(&got), vec![body.clone()]);
        }
    }
}

#[test]
fn a_body_that_holds_the_delimiter_ends_there() {
    let mut w = MultipartWriter::new_with_boundary("xyz");
    w.add(b"one\r\n--xyz\r\nA: b\r\n\r\ntwo", "A: b").unwrap();
    w.finish();
    let got = decode_chunks(b"xyz", &vec![w.data]);
    assert_eq!(got.error, None);
    assert_eq!(bodies(&got), vec![b"one".to_vec(), b"two".to_vec()]);
}

use dicomweb_server::builder::MultipartWriter;
use dicomweb_server::error::MultipartError;
use dicomweb_server::server::{MultipartRelated, NextChunk, NextPart, Object};

fn drain(part: &mut Object, source: &mut MultipartRelated) -> Result<Vec<u8>, MultipartError> {
    let mut body = Vec::new();
    loop {
        match part.poll_next(source) {
            NextChunk::Data(d) => body.extend_from_slice(&d),
            NextChunk::End => return Ok(body),
            NextChunk::Failed(e) => return Err(e),
            NextChunk::Pending => panic!("pending after the end of the source"),
        }
    }
}

fn next(source: &mut MultipartRelated) -> Object {
    match source.poll_next() {
        NextPart::Part(p) => p,
        NextPart::Pending => panic!("pending"),
        NextPart::End => panic!("end"),
        NextPart::Failed(e) => panic!("failed: {}", e.message()),
    }
}

#[test]
fn two_parts_are_written_and_read_back() {
    let first: Vec<u8> = vec![2, 0, 0, 0, 13, 10, 45, 45, 1];
    let mut w = MultipartWriter::new_with_boundary("xyz");
    assert_eq!(w.add(&first, "Content-Type: application/dicom"), Ok(9));
    assert_eq!(w.add(b"ABC", "Content-Type: application/dicom"), Ok(3));
    w.finish();
    let mut expected = b"--xyz\r\nContent-Type: application/dicom\r\n\r\n".to_vec();
    expected.extend_from_slice(&first);
    expected.extend_from_slice(b"\r\n--xyz\r\nContent-Type: application/dicom\r\n\r\nABC\r\n--xyz--");
    assert_eq!(w.data, expected);

    let mut mp = MultipartRelated::from_boundary(b"xyz");
    mp.feed(&w.data);
    mp.end_of_stream();
    let mut first_part = next(&mut mp);
    assert_eq!(first_part.content_type().unwrap().text, b"application/dicom".to_vec());
    assert_eq!(first_part.headers().len(), 1);
    assert_eq!(first_part.headers().get(b"Content-Type"), Some(&b"application/dicom"[..]));
    assert_eq!(drain(&mut first_part, &mut mp), Ok(first));
    let mut second_part = next(&mut mp);
    assert_eq!(drain(&mut second_part, &mut mp), Ok(b"ABC".to_vec()));
    assert!(matches!(mp.poll_next(), NextPart::End));
    assert!(matches!(mp.poll_next(), NextPart::End));
}

#[test]
fn a_part_left_unread_makes_the_session_fail() {
    let mut w = MultipartWriter::new_with_boundary("xyz");
    w.add(b"one", "Content-Type: application/dicom").unwrap();
    w.add(b"two", "Content-Type: application/dicom").unwrap();
    w.finish();
    let mut mp = MultipartRelated::from_boundary(b"xyz");
    mp.feed(&w.data);
    mp.end_of_stream();
    let mut first_part = next(&mut mp);
    assert!(matches!(mp.poll_next(), NextPart::Failed(MultipartError::NotConsumed)));
    assert!(!mp.is_clean());
    assert!(matches!(mp.poll_next(), NextPart::Failed(MultipartError::NotConsumed)));
    assert!(matches!(first_part.poll_next(&mut mp), NextChunk::Failed(MultipartError::NotConsumed)));
}

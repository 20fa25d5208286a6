use actix_web::http::header::DispositionType;
use dicomweb_server::error::{MultipartError, ParseError};
use dicomweb_server::header::{
    content_disposition, content_length, content_type, headers_of, is_valid_boundary, name_eq,
    parse_decimal, parse_error, value_is_text, HeaderMap, HeaderSyntax,
};
use dicomweb_server::server::{MultipartRelated, NextPart};

fn map(lines: &[(&str, &[u8])]) -> HeaderMap {
    let mut h = HeaderMap::new();
    for (n, v) in lines {
        h.append(n.as_bytes().to_vec(), v.to_vec());
    }
    h
}

#[test]
fn get_finds_the_first_line_whatever_the_case() {
    let h = map(&[("a", b"1"), ("content-type", b"x/y"), ("A", b"2")]);
    assert_eq!(h.len(), 3);
    assert_eq!(h.get(b"A"), Some(&b"1"[..]));
    assert_eq!(h.get(b"Content-Type"), Some(&b"x/y"[..]));
    assert_eq!(h.get(b"content-typ"), None);
    assert_eq!(h.name_at(2), b"A");
    assert_eq!(h.value_at(2), b"2");
}

#[test]
fn names_compare_without_case() {
    assert!(name_eq(b"Content-Type", b"content-type"));
    assert!(name_eq(b"", b""));
    assert!(!name_eq(b"a", b"ab"));
    assert!(!name_eq(b"@", b"`"));
    assert!(!name_eq(b"[", b"{"));
    assert!(name_eq(b"Z", b"z"));
}

#[test]
fn decimal_numbers() {
    assert_eq!(parse_decimal(b"0"), Some(0));
    assert_eq!(parse_decimal(b"42"), Some(42));
    assert_eq!(parse_decimal(b"+42"), Some(42));
    assert_eq!(parse_decimal(b"007"), Some(7));
    assert_eq!(parse_decimal(b"18446744073709551615"), Some(u64::MAX));
    assert_eq!(parse_decimal(b"18446744073709551616"), None);
    assert_eq!(parse_decimal(b"99999999999999999999999"), None);
    assert_eq!(parse_decimal(b""), None);
    assert_eq!(parse_decimal(b"+"), None);
    assert_eq!(parse_decimal(b"-1"), None);
    assert_eq!(parse_decimal(b"++1"), None);
    assert_eq!(parse_decimal(b" 1"), None);
    assert_eq!(parse_decimal(b"1 "), None);
    assert_eq!(parse_decimal(b"1a"), None);
}

#[test]
fn decimal_agrees_with_the_standard_parser() {
    for s in ["0", "+0", "10", "+", "", "-0", "1_0", "0x10", "18446744073709551615", "18446744073709551616", "٣"] {
        assert_eq!(parse_decimal(s.as_bytes()), s.parse::<u64>().ok(), "{:?}", s);
    }
}

#[test]
fn text_values() {
    assert!(value_is_text(b"application/dicom; a=\"b\"\t"));
    assert!(value_is_text(b""));
    assert!(!value_is_text(b"a\x7f"));
    assert!(!value_is_text(b"a\x80"));
    assert!(!value_is_text(b"a\n"));
}

#[test]
fn boundary_tokens() {
    assert!(is_valid_boundary(b"xyz"));
    assert!(!is_valid_boundary(b""));
    assert!(!is_valid_boundary(b"a\rb"));
    assert!(!is_valid_boundary(b"ab\n"));
}

#[test]
fn media_type_of_headers() {
    let h = map(&[("content-type", b"Application/DICOM; Boundary=\"a b\"; x=y")]);
    let m = content_type(&h).unwrap();
    assert_eq!(m.kind, b"application".to_vec());
    assert_eq!(m.subtype, b"dicom".to_vec());
    assert_eq!(m.boundary, Some(b"a b".to_vec()));
    assert_eq!(m.text, b"application/dicom; boundary=\"a b\"; x=y".to_vec());
    assert!(content_type(&map(&[("content-type", b"nonsense")])).is_none());
    assert!(content_type(&map(&[("content-type", b"a/b\x80")])).is_none());
    assert!(content_type(&map(&[("x", b"a/b")])).is_none());
}

#[test]
fn content_disposition_of_headers() {
    let h = map(&[("content-disposition", b"form-data; name=\"file\"; filename=\"a.dcm\"")]);
    let cd = content_disposition(&h).unwrap();
    assert_eq!(cd.disposition, DispositionType::FormData);
    assert_eq!(cd.get_name(), Some("file"));
    assert_eq!(cd.get_filename(), Some("a.dcm"));
    assert!(content_disposition(&map(&[("content-disposition", b"")])).is_none());
    assert!(content_disposition(&map(&[("content-disposition", b"inline\x01")])).is_none());
    assert!(content_disposition(&map(&[("content-type", b"inline")])).is_none());
    let inline = content_disposition(&map(&[("Content-Disposition", b"inline")])).unwrap();
    assert_eq!(inline.disposition, DispositionType::Inline);
}

#[test]
fn content_length_of_headers() {
    assert_eq!(content_length(&map(&[("content-length", b"12")])), Ok(Some(12)));
    assert_eq!(content_length(&map(&[("a", b"12")])), Ok(None));
    assert_eq!(
        content_length(&map(&[("content-length", b"twelve")])),
        Err(MultipartError::TransportError)
    );
    assert_eq!(
        content_length(&map(&[("content-length", b"1"), ("content-length", b"x")])),
        Ok(Some(1))
    );
}

#[test]
fn headers_are_kept_with_names_in_normal_form() {
    let raw = vec![
        (b"Content-Type".to_vec(), b"a/b".to_vec()),
        (b"X-Thing".to_vec(), b"\xfa".to_vec()),
    ];
    let h = headers_of(Ok(Some(raw))).unwrap();
    assert_eq!(h.len(), 2);
    assert_eq!(h.name_at(0), b"content-type");
    assert_eq!(h.value_at(0), b"a/b");
    assert_eq!(h.name_at(1), b"x-thing");
    assert_eq!(h.value_at(1), b"\xfa");
}

#[test]
fn a_bad_name_or_value_spoils_the_block() {
    let bad_name = vec![(b"a b".to_vec(), b"v".to_vec())];
    assert_eq!(
        headers_of(Ok(Some(bad_name))).err(),
        Some(MultipartError::Parse(ParseError::Header))
    );
    let empty_name = vec![(Vec::new(), b"v".to_vec())];
    assert_eq!(
        headers_of(Ok(Some(empty_name))).err(),
        Some(MultipartError::Parse(ParseError::Header))
    );
    let bad_value = vec![(b"a".to_vec(), b"v\x7f".to_vec())];
    assert_eq!(
        headers_of(Ok(Some(bad_value))).err(),
        Some(MultipartError::Parse(ParseError::Header))
    );
    assert_eq!(headers_of(Ok(None)).err(), Some(MultipartError::Parse(ParseError::Header)));
}

#[test]
fn every_refusal_of_the_grammar_has_its_error() {
    assert_eq!(parse_error(HeaderSyntax::HeaderName), ParseError::Header);
    assert_eq!(parse_error(HeaderSyntax::HeaderValue), ParseError::Header);
    assert_eq!(parse_error(HeaderSyntax::NewLine), ParseError::Header);
    assert_eq!(parse_error(HeaderSyntax::Token), ParseError::Header);
    assert_eq!(parse_error(HeaderSyntax::Status), ParseError::Status);
    assert_eq!(parse_error(HeaderSyntax::TooManyHeaders), ParseError::TooLarge);
    assert_eq!(parse_error(HeaderSyntax::Version), ParseError::Version);
    assert_eq!(
        headers_of(Err(HeaderSyntax::Version)).err(),
        Some(MultipartError::Parse(ParseError::Version))
    );
    assert_eq!(
        headers_of(Err(HeaderSyntax::Status)).err(),
        Some(MultipartError::Parse(ParseError::Status))
    );
}

#[test]
fn boundary_of_a_request() {
    let h = map(&[(
        "content-type",
        b"multipart/related; type=\"application/dicom\"; boundary=xyz",
    )]);
    assert_eq!(MultipartRelated::boundary(&h), Ok(b"xyz".to_vec()));
    let bare = map(&[("content-type", b"multipart/related; type=application/dicom; boundary=xyz")]);
    assert_eq!(MultipartRelated::boundary(&bare), Err(MultipartError::ParseContentType));
    let quoted = map(&[("Content-Type", b"multipart/related; boundary=\"a b\"")]);
    assert_eq!(MultipartRelated::boundary(&quoted), Ok(b"a b".to_vec()));
    assert_eq!(
        MultipartRelated::boundary(&map(&[("accept", b"a/b")])),
        Err(MultipartError::MissingContentType)
    );
    assert_eq!(
        MultipartRelated::boundary(&map(&[("content-type", b"nonsense")])),
        Err(MultipartError::ParseContentType)
    );
    assert_eq!(
        MultipartRelated::boundary(&map(&[("content-type", b"a/b\xff")])),
        Err(MultipartError::ParseContentType)
    );
    assert_eq!(
        MultipartRelated::boundary(&map(&[("content-type", b"multipart/related")])),
        Err(MultipartError::MissingBoundaryParameter)
    );
}

#[test]
fn a_request_without_boundary_fails_at_every_request() {
    let mut mp = MultipartRelated::new(&map(&[("content-type", b"multipart/related")]));
    assert!(matches!(
        mp.poll_next(),
        NextPart::Failed(MultipartError::MissingBoundaryParameter)
    ));
    mp.feed(b"--xyz--");
    assert!(matches!(
        mp.poll_next(),
        NextPart::Failed(MultipartError::MissingBoundaryParameter)
    ));
    assert_eq!(mp.failure(), Some(MultipartError::MissingBoundaryParameter));
}

#[test]
fn a_request_with_boundary_is_read() {
    let h = map(&[("content-type", b"multipart/related; boundary=xyz")]);
    let mut mp = MultipartRelated::new(&h);
    mp.feed(b"--xyz--");
    mp.end_of_stream();
    assert!(matches!(mp.poll_next(), NextPart::End));
    assert_eq!(mp.failure(), None);
}

#[test]
fn an_empty_boundary_is_no_boundary() {
    let h = map(&[("content-type", b"multipart/related; boundary=\"\"")]);
    assert!(MultipartRelated::boundary(&h).is_err());
    assert!(!is_valid_boundary(b""));
}

fn kept_name(raw: Vec<u8>) -> Option<Vec<u8>> {
    match headers_of(Ok(Some(vec![(raw, b"v".to_vec())]))) {
        Ok(h) => Some(h.name_at(0).to_vec()),
        Err(_) => None,
    }
}

#[test]
fn header_names_in_normal_form() {
    assert_eq!(kept_name(b"Content-Type".to_vec()), Some(b"content-type".to_vec()));
    assert_eq!(kept_name(b"X-Custom_1".to_vec()), Some(b"x-custom_1".to_vec()));
    let marks = b"!\"#$%&'*+-.^_`|~".to_vec();
    assert_eq!(kept_name(marks.clone()), Some(marks));
    assert_eq!(kept_name(b"AZaz09".to_vec()), Some(b"azaz09".to_vec()));
    for bad in [&b""[..], b"a b", b"a:b", b"a(b", b"a)b", b"a,b", b"a/b", b"a;b", b"a<b", b"a=b", b"a>b", b"a?b", b"a@b", b"a[b", b"a\\b", b"a]b", b"a{b", b"a}b", b"a\x7fb", b"a\x80b", b"a\x00b", b"a\tb"] {
        assert_eq!(kept_name(bad.to_vec()), None, "{:?}", bad);
    }
}

#[test]
fn header_names_of_every_length() {
    for n in [1usize, 63, 64, 65, 66, 1000, 65535] {
        let name = vec![b'A'; n];
        assert_eq!(kept_name(name), Some(vec![b'a'; n]), "{}", n);
    }
    assert_eq!(kept_name(vec![b'a'; 65536]), None);
    let mut long = vec![b'a'; 100];
    long[99] = b' ';
    assert_eq!(kept_name(long), None);
}

#[test]
fn every_byte_of_a_header_name() {
    for b in 0u8..=255 {
        let allowed = matches!(b, 33..=39 | 42 | 43 | 45 | 46 | 48..=57 | 65..=90 | 94..=122 | 124 | 126);
        let short = kept_name(vec![b'x', b]);
        let mut long = vec![b'x'; 70];
        long[69] = b;
        let long_kept = kept_name(long);
        if allowed {
            let low = if (65..=90).contains(&b) { b + 32 } else { b };
            assert_eq!(short, Some(vec![b'x', low]), "{}", b);
            assert_eq!(long_kept.unwrap()[69], low, "{}", b);
        } else {
            assert_eq!(short, None, "{}", b);
            assert_eq!(long_kept, None, "{}", b);
        }
    }
}

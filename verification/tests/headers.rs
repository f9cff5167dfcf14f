use icaparse::parse_headers;
use icaparse::EncapsulationSection;
use icaparse::Error;
use icaparse::Header;
use icaparse::InvalidChunkSize;
use icaparse::Request;
use icaparse::SectionType;
use icaparse::Status;

#[test]
fn test_parse_headers_simple() {
    let buf = b"Host: foo.bar\nAccept: */*\n\nblah blah";
    let mut dst = vec![Header::default(); 4];
    let status = parse_headers(buf, &mut dst);
    assert_eq!(status, Ok(Status::Complete(27)));
    assert_eq!(dst.len(), 2);
    assert_eq!(dst[0].name, b"Host".to_vec());
    assert_eq!(dst[0].value, b"foo.bar".to_vec());
    assert_eq!(dst[1].name, b"Accept".to_vec());
    assert_eq!(dst[1].value, b"*/*".to_vec());
}

#[test]
fn test_parse_headers_shrinks_to_count() {
    let buf = b"A: 1\r\nB: 2\r\n\r\n";
    let mut dst = vec![Header::default(); 8];
    let status = parse_headers(buf, &mut dst);
    assert_eq!(status, Ok(Status::Complete(buf.len())));
    assert_eq!(dst.len(), 2);
}

#[test]
fn test_parse_headers_whitespace_before_value() {
    let buf = b"Name: \t  value here\r\n\r\n";
    let mut dst = vec![Header::default(); 4];
    let status = parse_headers(buf, &mut dst);
    assert_eq!(status, Ok(Status::Complete(buf.len())));
    assert_eq!(dst.len(), 1);
    assert_eq!(dst[0].name, b"Name".to_vec());
    assert_eq!(dst[0].value, b"value here".to_vec());
}

#[test]
fn test_parse_headers_long_value_eight_at_a_time() {
    let buf = b"Name: a value considerably longer than eight bytes, to cross the unrolled path\r\n\r\n";
    let mut dst = vec![Header::default(); 4];
    let status = parse_headers(buf, &mut dst);
    assert_eq!(status, Ok(Status::Complete(buf.len())));
    assert_eq!(
        dst[0].value,
        b"a value considerably longer than eight bytes, to cross the unrolled path".to_vec()
    );
}

#[test]
fn test_parse_headers_partial_leaves_dst() {
    let buf = b"Host: foo";
    let mut dst = vec![Header::default(); 4];
    let status = parse_headers(buf, &mut dst);
    assert_eq!(status, Ok(Status::Partial));
    assert_eq!(dst.len(), 4);
}

#[test]
fn test_parse_headers_too_many() {
    let buf = b"A: 1\r\nB: 2\r\n\r\n";
    let mut dst = vec![Header::default(); 1];
    let status = parse_headers(buf, &mut dst);
    assert_eq!(status, Err(Error::TooManyHeaders));
}

#[test]
fn test_parse_headers_empty_block() {
    let buf = b"\r\nrest";
    let mut dst = vec![Header::default(); 4];
    let status = parse_headers(buf, &mut dst);
    assert_eq!(status, Ok(Status::Complete(2)));
    assert_eq!(dst.len(), 0);
}

#[test]
fn test_encapsulated_partition_three_sections() {
    let head: &[u8] = b"RESPMOD / ICAP/1.0\r\nEncapsulated: req-hdr=0, res-hdr=10, res-body=20\r\n\r\n";
    let trailing: &[u8] = b"0123456789abcdefghijKLMNO";
    let buf = [head, trailing].concat();
    let mut req = Request::new(vec![Header::default(); 4]);
    let status = req.parse(&buf);
    assert_eq!(status, Ok(Status::Complete(head.len())));
    let sections = req.encapsulated_sections.unwrap();
    assert_eq!(sections.len(), 3);
    assert_eq!(sections[0], (SectionType::RequestHeader, b"0123456789".to_vec()));
    assert_eq!(sections[1], (SectionType::ResponseHeader, b"abcdefghij".to_vec()));
    assert_eq!(sections[2], (SectionType::ResponseBody, b"KLMNO".to_vec()));
}

#[test]
fn test_encapsulated_entries_sorted_by_offset() {
    let head: &[u8] = b"RESPMOD / ICAP/1.0\r\nEncapsulated: res-body=4, req-hdr=0\r\n\r\n";
    let trailing: &[u8] = b"headBODY";
    let buf = [head, trailing].concat();
    let mut req = Request::new(vec![Header::default(); 4]);
    let status = req.parse(&buf);
    assert_eq!(status, Ok(Status::Complete(head.len())));
    let sections = req.encapsulated_sections.unwrap();
    assert_eq!(sections.len(), 2);
    assert_eq!(sections[0], (SectionType::RequestHeader, b"head".to_vec()));
    assert_eq!(sections[1], (SectionType::ResponseBody, b"BODY".to_vec()));
}

#[test]
fn test_encapsulated_offset_past_end_gives_empty_section() {
    let head: &[u8] = b"RESPMOD / ICAP/1.0\r\nEncapsulated: null-body=99\r\n\r\n";
    let buf = head.to_vec();
    let mut req = Request::new(vec![Header::default(); 4]);
    let status = req.parse(&buf);
    assert_eq!(status, Ok(Status::Complete(head.len())));
    let sections = req.encapsulated_sections.unwrap();
    assert_eq!(sections.len(), 1);
    assert_eq!(sections[0], (SectionType::NullBody, Vec::<u8>::new()));
}

#[test]
fn test_encapsulated_unreadable_offset_is_skipped() {
    let head: &[u8] = b"RESPMOD / ICAP/1.0\r\nEncapsulated: req-hdr=x, null-body=0\r\n\r\n";
    let buf = head.to_vec();
    let mut req = Request::new(vec![Header::default(); 4]);
    let status = req.parse(&buf);
    assert_eq!(status, Ok(Status::Complete(head.len())));
    let sections = req.encapsulated_sections.unwrap();
    assert_eq!(sections.len(), 1);
    assert_eq!(sections[0].0, SectionType::NullBody);
}

#[test]
fn test_status_helpers() {
    let complete: Status<usize> = Status::Complete(7);
    assert!(complete.is_complete());
    assert!(!complete.is_partial());
    assert_eq!(complete.unwrap(), 7);
    let partial: Status<usize> = Status::Partial;
    assert!(partial.is_partial());
    assert!(!partial.is_complete());
}

#[test]
fn test_std_error() {
    let err = Error::HeaderName;
    assert_eq!(err.description_str(), "invalid header name");
}

#[test]
fn test_error_descriptions() {
    assert_eq!(Error::HeaderValue.description_str(), "invalid header value");
    assert_eq!(Error::NewLine.description_str(), "invalid new line");
    assert_eq!(Error::Status.description_str(), "invalid response status");
    assert_eq!(Error::Token.description_str(), "invalid token");
    assert_eq!(Error::TooManyHeaders.description_str(), "too many headers");
    assert_eq!(Error::Version.description_str(), "invalid ICAP version");
    assert_eq!(
        Error::MissingEncapsulated.description_str(),
        "missing encapsulated ICAP header"
    );
    assert_eq!(InvalidChunkSize.description_str(), "invalid chunk size");
}

#[test]
fn test_encapsulation_section_new() {
    let a = EncapsulationSection::new(SectionType::NullBody, 5);
    let b = EncapsulationSection::new(SectionType::NullBody, 5);
    let c = EncapsulationSection::new(SectionType::RequestBody, 6);
    assert_eq!(a, b);
    assert_ne!(a, c);
}

#[test]
fn test_encapsulated_equal_offsets_keep_token_order() {
    let head: &[u8] = b"RESPMOD / ICAP/1.0\r\nEncapsulated: null-body=0, req-hdr=0\r\n\r\n";
    let trailing: &[u8] = b"rest";
    let buf = [head, trailing].concat();
    let mut req = Request::new(vec![Header::default(); 4]);
    let status = req.parse(&buf);
    assert_eq!(status, Ok(Status::Complete(head.len())));
    let sections = req.encapsulated_sections.unwrap();
    assert_eq!(sections.len(), 2);
    assert_eq!(sections[0], (SectionType::RequestHeader, Vec::<u8>::new()));
    assert_eq!(sections[1], (SectionType::NullBody, b"rest".to_vec()));
}

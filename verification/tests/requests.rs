use icaparse::Error;
use icaparse::Header;
use icaparse::Request;
use icaparse::SectionType;
use icaparse::Status;

const NUM_OF_HEADERS: usize = 4;

fn slots() -> Vec<Header> {
    vec![Header::default(); NUM_OF_HEADERS]
}

fn section(req: &Request, kind: SectionType) -> Option<Vec<u8>> {
    let sections = req.encapsulated_sections.as_ref().unwrap();
    for (k, bytes) in sections.iter() {
        if *k == kind {
            return Some(bytes.clone());
        }
    }
    None
}

#[test]
fn test_request_simple() {
    let buf = b"OPTIONS / ICAP/1.0\r\nEncapsulated:null-body=0\r\n\r\n";
    let mut req = Request::new(slots());
    let status = req.parse(buf);
    assert_eq!(status, Ok(Status::Complete(buf.len())));
    assert_eq!(req.method.unwrap(), b"OPTIONS".to_vec());
    assert_eq!(req.path.unwrap(), b"/".to_vec());
    assert_eq!(req.version.unwrap(), 0);
    assert_eq!(req.headers.len(), 1);
    assert_eq!(req.headers[0].name, b"Encapsulated".to_vec());
    assert_eq!(req.headers[0].value, b"null-body=0".to_vec());
    let sections = req.encapsulated_sections.as_ref().unwrap();
    assert_eq!(sections.len(), 1);
    assert_eq!(sections[0].0, SectionType::NullBody);
    assert_eq!(sections[0].1, Vec::<u8>::new());
}

#[test]
fn test_icap_options() {
    let buf = b"OPTIONS icap://example.local/service ICAP/1.0\r\nHost: example.local\r\nUser-Agent: Example-ICAP-Client-Library/2.0\r\nEncapsulated:null-body=0\r\n\r\n";
    let mut req = Request::new(slots());
    let status = req.parse(buf);
    assert_eq!(status, Ok(Status::Complete(buf.len())));
    assert_eq!(req.method.unwrap(), b"OPTIONS".to_vec());
    assert_eq!(req.path.unwrap(), b"icap://example.local/service".to_vec());
    assert_eq!(req.headers.len(), 3);
    assert_eq!(req.headers[0].name, b"Host".to_vec());
    assert_eq!(req.headers[0].value, b"example.local".to_vec());
    assert_eq!(req.headers[1].name, b"User-Agent".to_vec());
    assert_eq!(req.headers[1].value, b"Example-ICAP-Client-Library/2.0".to_vec());
}

#[test]
fn test_reqmod_basic() {
    let head: &[u8] = b"REQMOD icap://icap-server.net/server?arg=87 ICAP/1.0\r\nHost: icap-server.net\r\nEncapsulated: req-hdr=0, null-body=170\r\n\r\n";
    let payload: &[u8] = b"GET / HTTP/1.1\r\nHost: www.origin-server.com\r\nAccept: text/html, text/plain\r\nAccept-Encoding: compress\r\nCookie: ff39fk3jur@4ii0e02i\r\nIf-None-Match: \"xyzzy\", \"r2d2xxxx\"\r\n\r\n";
    assert_eq!(payload.len(), 170);
    let buf = [head, payload].concat();
    let mut req = Request::new(slots());
    let status = req.parse(&buf);
    assert_eq!(status, Ok(Status::Complete(head.len())));
    assert_eq!(req.method.clone().unwrap(), b"REQMOD".to_vec());
    let sections = req.encapsulated_sections.as_ref().unwrap();
    assert_eq!(sections.len(), 2);
    assert_eq!(section(&req, SectionType::RequestHeader).unwrap(), payload.to_vec());
    assert_eq!(section(&req, SectionType::NullBody).unwrap(), Vec::<u8>::new());
}

#[test]
fn test_basic_respmod() {
    let buf = b"RESPMOD / ICAP/1.0\r\nEncapsulated: null-body=0\r\n\r\n";
    let mut req = Request::new(slots());
    let status = req.parse(buf);
    assert_eq!(status, Ok(Status::Complete(buf.len())));
    assert_eq!(req.method.unwrap(), b"RESPMOD".to_vec());
}

#[test]
fn test_full_respmod() {
    let head: &[u8] = b"RESPMOD icap://icap.example.org/satisf ICAP/1.0\r\nHost: icap.example.org\r\nEncapsulated: req-hdr=0, res-hdr=137, res-body=296\r\n\r\n";
    let req_hdr: &[u8] = b"GET /origin-resource HTTP/1.1\r\nHost: www.origin-server.com\r\nAccept: text/html, text/plain, image/gif\r\nAccept-Encoding: gzip, compress\r\n\r\n";
    let res_hdr: &[u8] = b"HTTP/1.1 200 OK\r\nDate: Mon, 10 Jan 2000 09:52:22 GMT\r\nServer: Apache/1.3.6 (Unix)\r\nETag: \"63840-1ab7-378d415b\"\r\nContent-Type: text/html\r\nContent-Length: 51\r\n\r\n";
    let res_body: &[u8] = b"33\r\nThis is data that was returned by an origin server.\r\n0\r\n\r\n";
    assert_eq!(req_hdr.len(), 137);
    assert_eq!(req_hdr.len() + res_hdr.len(), 296);
    let buf = [head, req_hdr, res_hdr, res_body].concat();
    let mut req = Request::new(slots());
    let status = req.parse(&buf);
    assert_eq!(status, Ok(Status::Complete(head.len())));
    assert_eq!(req.method.clone().unwrap(), b"RESPMOD".to_vec());
    let sections = req.encapsulated_sections.as_ref().unwrap();
    assert_eq!(sections.len(), 3);
    assert_eq!(section(&req, SectionType::RequestHeader).unwrap(), req_hdr.to_vec());
    assert_eq!(section(&req, SectionType::ResponseHeader).unwrap(), res_hdr.to_vec());
    assert_eq!(section(&req, SectionType::ResponseBody).unwrap(), res_body.to_vec());
}

#[test]
fn test_request_headers_max() {
    let buf = b"RESPMOD / ICAP/1.0\r\nA: A\r\nB: B\r\nC: C\r\nEncapsulated:null-body=0\r\n\r\n";
    let mut req = Request::new(slots());
    let status = req.parse(buf);
    assert_eq!(status, Ok(Status::Complete(buf.len())));
    assert_eq!(req.headers.len(), NUM_OF_HEADERS);
}

#[test]
fn test_request_multibyte() {
    let buf = b"RESPMOD / ICAP/1.0\r\nHost: foo.com\r\nUser-Agent: \xe3\x81\xb2\xe3/1.0\r\nEncapsulated:null-body=0\r\n\r\n";
    let mut req = Request::new(slots());
    let status = req.parse(buf);
    assert_eq!(status, Ok(Status::Complete(buf.len())));
    assert_eq!(req.method.unwrap(), b"RESPMOD".to_vec());
    assert_eq!(req.path.unwrap(), b"/".to_vec());
    assert_eq!(req.version.unwrap(), 0);
    assert_eq!(req.headers[0].name, b"Host".to_vec());
    assert_eq!(req.headers[0].value, b"foo.com".to_vec());
    assert_eq!(req.headers[1].name, b"User-Agent".to_vec());
    assert_eq!(req.headers[1].value, b"\xe3\x81\xb2\xe3/1.0".to_vec());
}

#[test]
fn test_request_partial() {
    let buf = b"RESPMOD / ICAP/1.0\r\n\r";
    let mut req = Request::new(slots());
    let status = req.parse(buf);
    assert_eq!(status, Ok(Status::Partial));
    assert_eq!(req.method.unwrap(), b"RESPMOD".to_vec());
    assert_eq!(req.path.unwrap(), b"/".to_vec());
    assert_eq!(req.version.unwrap(), 0);
}

#[test]
fn test_request_partial_exposes_fields_in_order() {
    let buf = b"RESPMOD /40";
    let mut req = Request::new(slots());
    let status = req.parse(buf);
    assert_eq!(status, Ok(Status::Partial));
    assert_eq!(req.method.unwrap(), b"RESPMOD".to_vec());
    assert_eq!(req.path, None);
    assert_eq!(req.version, None);
}

#[test]
fn test_request_newlines() {
    let buf = b"RESPMOD / ICAP/1.0\nHost: foo.bar\nEncapsulated:null-body=0\n\n";
    let mut req = Request::new(slots());
    let status = req.parse(buf);
    assert_eq!(status, Ok(Status::Complete(buf.len())));
}

#[test]
fn test_request_empty_lines_prefix() {
    let buf = b"\r\n\r\nRESPMOD / ICAP/1.0\r\nEncapsulated:null-body=0\r\n\r\n";
    let mut req = Request::new(slots());
    let status = req.parse(buf);
    assert_eq!(status, Ok(Status::Complete(buf.len())));
    assert_eq!(req.method.unwrap(), b"RESPMOD".to_vec());
    assert_eq!(req.path.unwrap(), b"/".to_vec());
    assert_eq!(req.version.unwrap(), 0);
    assert_eq!(req.headers.len(), 1);
}

#[test]
fn test_request_with_invalid_token_delimiter() {
    let buf = b"RESPMOD\n/ ICAP/1.0\r\nHost: foo.bar\r\n\r\n";
    let mut req = Request::new(slots());
    let status = req.parse(buf);
    assert_eq!(status, Err(Error::Token));
}

#[test]
fn test_request_missing_encapsulated() {
    let buf = b"RESPMOD / ICAP/1.0\r\nHost: foo.bar\r\n\r\n";
    let mut req = Request::new(slots());
    let status = req.parse(buf);
    assert_eq!(status, Err(Error::MissingEncapsulated));
}

#[test]
fn test_request_options_without_encapsulated() {
    let buf = b"OPTIONS / ICAP/1.0\r\nHost: foo.bar\r\n\r\n";
    let mut req = Request::new(slots());
    let status = req.parse(buf);
    assert_eq!(status, Ok(Status::Complete(buf.len())));
    assert_eq!(req.encapsulated_sections, None);
}

#[test]
fn test_request_too_many_headers() {
    let buf = b"RESPMOD / ICAP/1.0\r\nA: A\r\nB: B\r\n\r\n";
    let mut req = Request::new(vec![Header::default(); 1]);
    let status = req.parse(buf);
    assert_eq!(status, Err(Error::TooManyHeaders));
}

#[test]
fn test_request_bad_version() {
    let buf = b"OPTIONS / HTTP/1.0\r\n\r\n";
    let mut req = Request::new(slots());
    let status = req.parse(buf);
    assert_eq!(status, Err(Error::Version));
}

#[test]
fn test_request_bad_newline() {
    let buf = b"OPTIONS / ICAP/1.0\rX\r\n\r\n";
    let mut req = Request::new(slots());
    let status = req.parse(buf);
    assert_eq!(status, Err(Error::NewLine));
}

#[test]
fn test_request_bad_header_name() {
    let buf = b"OPTIONS / ICAP/1.0\r\n@: v\r\n\r\n";
    let mut req = Request::new(slots());
    let status = req.parse(buf);
    assert_eq!(status, Err(Error::HeaderName));
}

#[test]
fn test_request_bad_header_value() {
    let buf = b"OPTIONS / ICAP/1.0\r\nH: a\x00b\r\n\r\n";
    let mut req = Request::new(slots());
    let status = req.parse(buf);
    assert_eq!(status, Err(Error::HeaderValue));
}

#[test]
fn test_request_reparse_agrees() {
    let buf = b"OPTIONS / ICAP/1.0\r\nEncapsulated:null-body=0\r\n\r\n";
    let mut first = Request::new(slots());
    let first_status = first.parse(buf);
    // A second run over the same buffer, even with the shrunk header
    // vector the first run produced, gives a structurally equal result.
    let second_status = first.parse(buf);
    assert_eq!(first_status, second_status);
    let mut fresh = Request::new(slots());
    let fresh_status = fresh.parse(buf);
    assert_eq!(first_status, fresh_status);
    assert_eq!(first, fresh);
}

#[test]
fn test_request_empty_method_token() {
    let buf = b" / ICAP/1.0\r\nEncapsulated:null-body=0\r\n\r\n";
    let mut req = Request::new(slots());
    let status = req.parse(buf);
    assert_eq!(status, Err(Error::Token));
}

#[test]
fn test_request_version_one() {
    let buf = b"OPTIONS / ICAP/1.1\r\nEncapsulated:null-body=0\r\n\r\n";
    let mut req = Request::new(slots());
    let status = req.parse(buf);
    assert_eq!(status, Ok(Status::Complete(buf.len())));
    assert_eq!(req.version.unwrap(), 1);
}

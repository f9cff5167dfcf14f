use icaparse::Error;
use icaparse::Header;
use icaparse::Response;
use icaparse::Status;

const NUM_OF_HEADERS: usize = 4;

fn slots() -> Vec<Header> {
    vec![Header::default(); NUM_OF_HEADERS]
}

#[test]
fn test_response_simple() {
    let buf = b"ICAP/1.0 200 OK\r\n\r\n";
    let mut res = Response::new(slots());
    let status = res.parse(buf);
    assert_eq!(status, Ok(Status::Complete(buf.len())));
    assert_eq!(res.version.unwrap(), 0);
    assert_eq!(res.code.unwrap(), 200);
    assert_eq!(res.reason.unwrap(), b"OK".to_vec());
}

#[test]
fn test_response_newlines() {
    let buf = b"ICAP/1.0 403 Forbidden\nServer: foo.bar\n\n";
    let mut res = Response::new(slots());
    let status = res.parse(buf);
    assert_eq!(status, Ok(Status::Complete(buf.len())));
}

#[test]
fn test_response_reason_missing() {
    let buf = b"ICAP/1.0 200 \r\n\r\n";
    let mut res = Response::new(slots());
    let status = res.parse(buf);
    assert_eq!(status, Ok(Status::Complete(buf.len())));
    assert_eq!(res.version.unwrap(), 0);
    assert_eq!(res.code.unwrap(), 200);
    assert_eq!(res.reason.unwrap(), Vec::<u8>::new());
}

#[test]
fn test_response_reason_missing_no_space() {
    let buf = b"ICAP/1.0 200\r\n\r\n";
    let mut res = Response::new(slots());
    let status = res.parse(buf);
    assert_eq!(status, Ok(Status::Complete(buf.len())));
    assert_eq!(res.version.unwrap(), 0);
    assert_eq!(res.code.unwrap(), 200);
    assert_eq!(res.reason.unwrap(), Vec::<u8>::new());
}

#[test]
fn test_response_reason_with_space_and_tab() {
    let buf = b"ICAP/1.0 101 Switching Protocols\t\r\n\r\n";
    let mut res = Response::new(slots());
    let status = res.parse(buf);
    assert_eq!(status, Ok(Status::Complete(buf.len())));
    assert_eq!(res.version.unwrap(), 0);
    assert_eq!(res.code.unwrap(), 101);
    assert_eq!(res.reason.unwrap(), b"Switching Protocols\t".to_vec());
}

#[test]
fn test_response_reason_with_obsolete_text_byte() {
    let buf = b"ICAP/1.0 200 X\xffZ\r\n\r\n";
    let mut res = Response::new(slots());
    let status = res.parse(buf);
    assert_eq!(status, Err(Error::Status));
}

#[test]
fn test_response_reason_with_nul_byte() {
    let buf = b"ICAP/1.0 200 \x00\r\n\r\n";
    let mut res = Response::new(slots());
    let status = res.parse(buf);
    assert_eq!(status, Err(Error::Status));
}

#[test]
fn test_response_version_missing_space() {
    let buf = b"ICAP/1.0";
    let mut res = Response::new(slots());
    let status = res.parse(buf);
    assert_eq!(status, Ok(Status::Partial));
}

#[test]
fn test_response_code_missing_space() {
    let buf = b"ICAP/1.0 200";
    let mut res = Response::new(slots());
    let status = res.parse(buf);
    assert_eq!(status, Ok(Status::Partial));
}

#[test]
fn test_response_empty_lines_prefix_lf_only() {
    let buf = b"\n\nICAP/1.0 200 OK\n\n";
    let mut res = Response::new(slots());
    let status = res.parse(buf);
    assert_eq!(status, Ok(Status::Complete(buf.len())));
}

#[test]
fn test_response_bad_code() {
    let buf = b"ICAP/1.0 2x0 OK\r\n\r\n";
    let mut res = Response::new(slots());
    let status = res.parse(buf);
    assert_eq!(status, Err(Error::Status));
}

#[test]
fn test_response_missing_version_space() {
    let buf = b"ICAP/1.0X200 OK\r\n\r\n";
    let mut res = Response::new(slots());
    let status = res.parse(buf);
    assert_eq!(status, Err(Error::Version));
}

#[test]
fn test_response_junk_after_code() {
    let buf = b"ICAP/1.0 200X\r\n\r\n";
    let mut res = Response::new(slots());
    let status = res.parse(buf);
    assert_eq!(status, Err(Error::Status));
}

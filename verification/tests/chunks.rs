use icaparse::parse_chunk_size;
use icaparse::InvalidChunkSize;
use icaparse::Status;

#[test]
fn test_chunk_size() {
    assert_eq!(parse_chunk_size(b"0\r\n"), Ok(Status::Complete((3, 0))));
    assert_eq!(parse_chunk_size(b"12\r\nchunk"), Ok(Status::Complete((4, 18))));
    assert_eq!(parse_chunk_size(b"3086d\r\n"), Ok(Status::Complete((7, 198765))));
    assert_eq!(parse_chunk_size(b"3735AB1;foo bar*\r\n"), Ok(Status::Complete((18, 57891505))));
    assert_eq!(parse_chunk_size(b"3735ab1 ; baz \r\n"), Ok(Status::Complete((16, 57891505))));
    assert_eq!(parse_chunk_size(b"77a65\r"), Ok(Status::Partial));
    assert_eq!(parse_chunk_size(b"ab"), Ok(Status::Partial));
    assert_eq!(parse_chunk_size(b"567f8a\rfoo"), Err(InvalidChunkSize));
    assert_eq!(parse_chunk_size(b"567f8a\rfoo"), Err(InvalidChunkSize));
    assert_eq!(parse_chunk_size(b"567xf8a\r\n"), Err(InvalidChunkSize));
    assert_eq!(parse_chunk_size(b"ffffffffffffffff\r\n"), Ok(Status::Complete((18, u64::MAX))));
    assert_eq!(parse_chunk_size(b"1ffffffffffffffff\r\n"), Err(InvalidChunkSize));
    assert_eq!(parse_chunk_size(b"Affffffffffffffff\r\n"), Err(InvalidChunkSize));
    assert_eq!(parse_chunk_size(b"fffffffffffffffff\r\n"), Err(InvalidChunkSize));
}

#[test]
fn test_chunk_size_round_trip() {
    for v in [0u64, 1, 9, 10, 15, 16, 255, 0x12, 0x3735ab1, 0xdeadbeef, u64::MAX - 1, u64::MAX] {
        let line = format!("{:x}\r\n", v);
        let expected_len = line.len();
        assert_eq!(parse_chunk_size(line.as_bytes()), Ok(Status::Complete((expected_len, v))));
    }
}

#[test]
fn test_chunk_size_extension_ignores_any_octet() {
    assert_eq!(parse_chunk_size(b"a;\x01\x02 anything \xff\r\n"), Ok(Status::Complete((17, 10))));
}

#[test]
fn test_chunk_size_space_ends_digits() {
    assert_eq!(parse_chunk_size(b"a 5\r\n"), Err(InvalidChunkSize));
}

#[test]
fn test_chunk_size_requires_a_digit() {
    assert_eq!(parse_chunk_size(b"\r\n"), Err(InvalidChunkSize));
    assert_eq!(parse_chunk_size(b";ext\r\n"), Err(InvalidChunkSize));
    assert_eq!(parse_chunk_size(b" \r\n"), Err(InvalidChunkSize));
}

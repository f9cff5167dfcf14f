//! An incremental, push-style parser for the ICAP/1.0 wire protocol
//! (RFC 3507).
//!
//! ICAP reuses HTTP/1.x-style framing: a start line, a header block
//! terminated by a blank line, and a trailing octet stream whose layout is
//! described by the mandatory `Encapsulated` header.  This crate parses
//! ICAP requests and responses, interprets the `Encapsulated` header, and
//! parses chunked-transfer chunk-size lines.
//!
//! Incomplete input is a first-class outcome: a buffer that is a valid
//! prefix of a message yields [`Status::Partial`] rather than an error, so
//! a caller can read more bytes and retry.
//!
//! Every parser is specified against a mathematical model of the grammar
//! (see the `model` module) and verified to return exactly the outcome the
//! model prescribes.

pub mod chunk;
pub mod classify;
pub mod encapsulated;
pub mod error;
pub mod header;
pub mod laws;
pub mod model;
pub mod primitives;
pub mod request;
pub mod response;
pub mod status;

pub use chunk::parse_chunk_size;
pub use encapsulated::EncapsulationSection;
pub use encapsulated::SectionType;
pub use error::Error;
pub use error::InvalidChunkSize;
pub use header::parse_headers;
pub use header::Header;
pub use request::Request;
pub use response::Response;
pub use status::Status;

//! The closed error taxonomy of the parser.

use vstd::prelude::*;

verus! {

/// An error in parsing.
///
/// Every error is terminal for the current parse call; the parser does
/// not attempt recovery.  Incomplete input is not an error: it is
/// reported as [`crate::status::Status::Partial`].
#[derive(Copy, Clone, PartialEq, Eq, Debug)]
pub enum Error {
    /// Invalid byte in a header name.
    HeaderName,
    /// Invalid byte in a header value.
    HeaderValue,
    /// Invalid byte where a new line was required.
    NewLine,
    /// Malformed response status line.
    Status,
    /// Invalid byte where a method or path token was required.
    Token,
    /// More headers than the caller-provided capacity can hold.
    TooManyHeaders,
    /// Start-line version other than `ICAP/1.0` or `ICAP/1.1`.
    Version,
    /// Request other than `OPTIONS` without an `Encapsulated` header.
    MissingEncapsulated,
}

impl Error {
    /// The message that [`Error::description_str`] returns for this error.
    pub open spec fn spec_description(self) -> Seq<char> {
        match self {
            Error::HeaderName => "invalid header name"@,
            Error::HeaderValue => "invalid header value"@,
            Error::NewLine => "invalid new line"@,
            Error::Status => "invalid response status"@,
            Error::Token => "invalid token"@,
            Error::TooManyHeaders => "too many headers"@,
            Error::Version => "invalid ICAP version"@,
            Error::MissingEncapsulated => "missing encapsulated ICAP header"@,
        }
    }

    /// A short human-readable description of the error.
    pub fn description_str(&self) -> (r: &'static str)
        ensures
            r@ == self.spec_description(),
    {
        match *self {
            Error::HeaderName => "invalid header name",
            Error::HeaderValue => "invalid header value",
            Error::NewLine => "invalid new line",
            Error::Status => "invalid response status",
            Error::Token => "invalid token",
            Error::TooManyHeaders => "too many headers",
            Error::Version => "invalid ICAP version",
            Error::MissingEncapsulated => "missing encapsulated ICAP header",
        }
    }
}

/// An error in parsing a chunk size.
#[derive(Copy, Clone, PartialEq, Eq, Debug)]
pub struct InvalidChunkSize;

impl InvalidChunkSize {
    /// A short human-readable description of the error.
    pub fn description_str(&self) -> (r: &'static str)
        ensures
            r@ == "invalid chunk size"@,
    {
        "invalid chunk size"
    }
}

} // verus!

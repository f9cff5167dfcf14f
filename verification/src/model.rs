//! The mathematical model of the ICAP grammar.
//!
//! Every executable parser in this crate is proved to return exactly the
//! outcome that the spec functions here prescribe.  The model works on a
//! `Seq<u8>` and a position, and an outcome is a [`Step`]: the production
//! either recognised a prefix (`Done`, with the position of the first
//! byte after it and the parsed payload), ran out of input in the middle
//! of a valid prefix (`More`), or met a byte the grammar refuses
//! (`Fail`).

use vstd::prelude::*;

use crate::classify::digit_byte;
use crate::classify::digit_value;
use crate::classify::header_name_byte;
use crate::classify::header_value_byte;
use crate::classify::hex_digit_byte;
use crate::classify::hex_digit_value;
use crate::classify::reason_byte;
use crate::classify::token_byte;
use crate::error::Error;

verus! {

/// Carriage return.
pub const CR: u8 = 13;

/// Line feed.
pub const LF: u8 = 10;

/// Space.
pub const SP: u8 = 32;

/// Horizontal tab.
pub const HTAB: u8 = 9;

/// Colon, the header name terminator.
pub const COLON: u8 = 58;

/// Semicolon, the chunk extension introducer.
pub const SEMI: u8 = 59;

/// The outcome of running one production against a buffer.
///
/// `Done { next, val }`: the production recognised the bytes up to (not
/// including) position `next` and produced `val`.  `More`: the input
/// ended inside a valid prefix of the production.  `Fail`: a byte that
/// the production refuses was met.
pub enum Step<T> {
    /// A complete parse: `next` is the first position after the consumed
    /// bytes and `val` the parsed payload.
    Done {
        /// First position after the consumed bytes.
        next: int,
        /// The parsed payload.
        val: T,
    },
    /// The input ended inside a valid prefix.
    More,
    /// A byte that the production refuses.
    Fail(Error),
}

/// The model of one parsed header: a name and a value.
pub struct HeaderModel {
    /// The header name, bytes from the `tchar` class.
    pub name: Seq<u8>,
    /// The header value, bytes from the header-value class.
    pub value: Seq<u8>,
}

/// Leading empty lines: any run of `\r\n` or `\n` pairs.  `Done` at the
/// first byte that does not open a newline; that byte is not consumed.
pub open spec fn sp_empty_lines(s: Seq<u8>, i: int) -> Step<int>
    decreases s.len() - i,
{
    if i >= s.len() {
        Step::More
    } else if s[i] == CR {
        if i + 1 >= s.len() {
            Step::More
        } else if s[i + 1] == LF {
            sp_empty_lines(s, i + 2)
        } else {
            Step::Fail(Error::NewLine)
        }
    } else if s[i] == LF {
        sp_empty_lines(s, i + 1)
    } else {
        Step::Done { next: i, val: i }
    }
}

/// A method or path token: one or more token bytes terminated by a
/// single space.  The space is consumed; the payload excludes it.
/// An empty token is refused.
pub open spec fn sp_token_from(s: Seq<u8>, start: int, j: int) -> Step<Seq<u8>>
    decreases s.len() - j,
{
    if j >= s.len() {
        Step::More
    } else if s[j] == SP {
        if j == start {
            Step::Fail(Error::Token)
        } else {
            Step::Done { next: j + 1, val: s.subrange(start, j) }
        }
    } else if token_byte(s[j]) {
        sp_token_from(s, start, j + 1)
    } else {
        Step::Fail(Error::Token)
    }
}

/// A token beginning at `i`.
pub open spec fn sp_token(s: Seq<u8>, i: int) -> Step<Seq<u8>> {
    sp_token_from(s, i, i)
}

/// The version field: exactly the eight bytes `ICAP/1.0` or `ICAP/1.1`,
/// producing 0 or 1.  Fewer than eight remaining bytes are `More`.
pub open spec fn sp_version(s: Seq<u8>, i: int) -> Step<u8> {
    if i + 8 > s.len() {
        Step::More
    } else if s[i] == 73 && s[i + 1] == 67 && s[i + 2] == 65 && s[i + 3] == 80 && s[i + 4] == 47
        && s[i + 5] == 49 && s[i + 6] == 46 {
        if s[i + 7] == 48 {
            Step::Done { next: i + 8, val: 0u8 }
        } else if s[i + 7] == 49 {
            Step::Done { next: i + 8, val: 1u8 }
        } else {
            Step::Fail(Error::Version)
        }
    } else {
        Step::Fail(Error::Version)
    }
}

/// A newline: `\r\n` or a bare `\n`.
pub open spec fn sp_newline(s: Seq<u8>, i: int) -> Step<int> {
    if i >= s.len() {
        Step::More
    } else if s[i] == CR {
        if i + 1 >= s.len() {
            Step::More
        } else if s[i + 1] == LF {
            Step::Done { next: i + 2, val: i + 2 }
        } else {
            Step::Fail(Error::NewLine)
        }
    } else if s[i] == LF {
        Step::Done { next: i + 1, val: i + 1 }
    } else {
        Step::Fail(Error::NewLine)
    }
}

/// A response status code: exactly three ASCII digits.
pub open spec fn sp_code(s: Seq<u8>, i: int) -> Step<u16> {
    if i >= s.len() {
        Step::More
    } else if !digit_byte(s[i]) {
        Step::Fail(Error::Status)
    } else if i + 1 >= s.len() {
        Step::More
    } else if !digit_byte(s[i + 1]) {
        Step::Fail(Error::Status)
    } else if i + 2 >= s.len() {
        Step::More
    } else if !digit_byte(s[i + 2]) {
        Step::Fail(Error::Status)
    } else {
        Step::Done {
            next: i + 3,
            val: (100 * digit_value(s[i]) + 10 * digit_value(s[i + 1]) + digit_value(
                s[i + 2],
            )) as u16,
        }
    }
}

/// A reason phrase: tab or printable ASCII bytes up to a newline.  The
/// payload excludes the newline.  Control bytes and obs-text are
/// refused; a bare `\r` must be followed by `\n`.
pub open spec fn sp_reason_from(s: Seq<u8>, start: int, j: int) -> Step<Seq<u8>>
    decreases s.len() - j,
{
    if j >= s.len() {
        Step::More
    } else if s[j] == CR {
        if j + 1 >= s.len() {
            Step::More
        } else if s[j + 1] == LF {
            Step::Done { next: j + 2, val: s.subrange(start, j) }
        } else {
            Step::Fail(Error::Status)
        }
    } else if s[j] == LF {
        Step::Done { next: j + 1, val: s.subrange(start, j) }
    } else if reason_byte(s[j]) {
        sp_reason_from(s, start, j + 1)
    } else {
        Step::Fail(Error::Status)
    }
}

/// A reason phrase beginning at `i`.
pub open spec fn sp_reason(s: Seq<u8>, i: int) -> Step<Seq<u8>> {
    sp_reason_from(s, i, i)
}

/// The header block from position `i`: header lines until an empty line,
/// with at most `cap` headers.  `Done.next` is the first position after
/// the empty line; the payload lists the headers in input order.
///
/// At the start of each line: an empty line ends the block; otherwise
/// the first byte must be a header-name byte, and a free header slot
/// must remain.
pub open spec fn sp_headers_at(s: Seq<u8>, i: int, cap: int, acc: Seq<HeaderModel>) -> Step<
    Seq<HeaderModel>,
>
    decreases s.len() - i, 3int,
{
    if i >= s.len() {
        Step::More
    } else if s[i] == CR {
        if i + 1 >= s.len() {
            Step::More
        } else if s[i + 1] == LF {
            Step::Done { next: i + 2, val: acc }
        } else {
            Step::Fail(Error::NewLine)
        }
    } else if s[i] == LF {
        Step::Done { next: i + 1, val: acc }
    } else if !header_name_byte(s[i]) {
        Step::Fail(Error::HeaderName)
    } else if acc.len() >= cap {
        Step::Fail(Error::TooManyHeaders)
    } else {
        sp_header_name(s, i, i + 1, cap, acc)
    }
}

/// A header name that began at `start`: name bytes up to the colon.
pub open spec fn sp_header_name(s: Seq<u8>, start: int, j: int, cap: int, acc: Seq<HeaderModel>) -> Step<
    Seq<HeaderModel>,
>
    decreases s.len() - j, 3int,
{
    if j >= s.len() {
        Step::More
    } else if s[j] == COLON {
        sp_header_ows(s, s.subrange(start, j), j + 1, cap, acc)
    } else if header_name_byte(s[j]) {
        sp_header_name(s, start, j + 1, cap, acc)
    } else {
        Step::Fail(Error::HeaderName)
    }
}

/// Optional whitespace between the colon and the value: a run of spaces
/// and tabs, excluded from the value.
pub open spec fn sp_header_ows(s: Seq<u8>, name: Seq<u8>, k: int, cap: int, acc: Seq<HeaderModel>) -> Step<
    Seq<HeaderModel>,
>
    decreases s.len() - k, 1int,
{
    if k >= s.len() {
        Step::More
    } else if s[k] == SP || s[k] == HTAB {
        sp_header_ows(s, name, k + 1, cap, acc)
    } else {
        sp_header_value(s, name, k, k, cap, acc)
    }
}

/// A header value that began at `vstart`: value bytes up to a newline,
/// which is excluded.  The first byte outside the value class must open
/// a newline.
pub open spec fn sp_header_value(
    s: Seq<u8>,
    name: Seq<u8>,
    vstart: int,
    m: int,
    cap: int,
    acc: Seq<HeaderModel>,
) -> Step<Seq<HeaderModel>>
    decreases s.len() - m, 0int,
{
    if m >= s.len() {
        Step::More
    } else if header_value_byte(s[m]) {
        sp_header_value(s, name, vstart, m + 1, cap, acc)
    } else if s[m] == CR {
        if m + 1 >= s.len() {
            Step::More
        } else if s[m + 1] == LF {
            sp_headers_at(
                s,
                m + 2,
                cap,
                acc.push(HeaderModel { name, value: s.subrange(vstart, m) }),
            )
        } else {
            Step::Fail(Error::HeaderValue)
        }
    } else if s[m] == LF {
        sp_headers_at(s, m + 1, cap, acc.push(HeaderModel { name, value: s.subrange(vstart, m) }))
    } else {
        Step::Fail(Error::HeaderValue)
    }
}

/// The header block beginning at `i` with capacity `cap`.
pub open spec fn sp_headers(s: Seq<u8>, i: int, cap: int) -> Step<Seq<HeaderModel>> {
    sp_headers_at(s, i, cap, Seq::empty())
}

} // verus!

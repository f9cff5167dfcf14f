//! Byte classifiers for the ICAP grammar.
//!
//! Each executable classifier decides membership of a byte in one of the
//! character classes of the grammar with a few comparisons, and is proved
//! to agree with the spec-level predicate of the same class.

use vstd::prelude::*;

verus! {

/// ICAP method and path tokens accept every visible character:
/// any byte strictly between `0x1F` and `0x7F`.
pub open spec fn token_byte(b: u8) -> bool {
    0x1f < b < 0x7f
}

/// The RFC 7230 `tchar` class, used for header names:
/// `! # $ % & ' * + - . ^ _ ` | ~`, digits and ASCII letters.
pub open spec fn header_name_byte(b: u8) -> bool {
    ||| b == 0x21
    ||| 0x23 <= b <= 0x27
    ||| b == 0x2a
    ||| b == 0x2b
    ||| b == 0x2d
    ||| b == 0x2e
    ||| 0x30 <= b <= 0x39
    ||| 0x41 <= b <= 0x5a
    ||| 0x5e <= b <= 0x7a
    ||| b == 0x7c
    ||| b == 0x7e
}

/// Header values accept horizontal tab, every printable ASCII byte
/// except DEL, and the RFC 7230 obs-text range `0x80..=0xFF`.
pub open spec fn header_value_byte(b: u8) -> bool {
    b == 0x09 || (0x20 <= b && b != 0x7f)
}

/// A reason phrase accepts horizontal tab and printable ASCII; it
/// deliberately rejects obs-text and control bytes.
pub open spec fn reason_byte(b: u8) -> bool {
    b == 0x09 || 0x20 <= b <= 0x7e
}

/// An ASCII decimal digit.
pub open spec fn digit_byte(b: u8) -> bool {
    0x30 <= b <= 0x39
}

/// The decimal value of a digit byte.
pub open spec fn digit_value(b: u8) -> int {
    b - 0x30
}

/// An ASCII hexadecimal digit, either case.
pub open spec fn hex_digit_byte(b: u8) -> bool {
    digit_byte(b) || 0x61 <= b <= 0x66 || 0x41 <= b <= 0x46
}

/// The value of a hexadecimal digit byte.
pub open spec fn hex_digit_value(b: u8) -> int {
    if digit_byte(b) {
        b - 0x30
    } else if 0x61 <= b <= 0x66 {
        b - 0x61 + 10
    } else {
        b - 0x41 + 10
    }
}

/// Decides whether a byte may appear in an ICAP method or path token.
#[verifier::when_used_as_spec(token_byte)]
#[inline]
pub fn is_token(b: u8) -> (r: bool)
    ensures
        r == token_byte(b),
{
    b > 0x1f && b < 0x7f
}

/// Decides whether a byte may appear in a header name.
#[verifier::when_used_as_spec(header_name_byte)]
#[inline]
pub fn is_header_name_token(b: u8) -> (r: bool)
    ensures
        r == header_name_byte(b),
{
    b == 0x21 || (0x23 <= b && b <= 0x27) || b == 0x2a || b == 0x2b || b == 0x2d || b == 0x2e
        || (0x30 <= b && b <= 0x39) || (0x41 <= b && b <= 0x5a) || (0x5e <= b && b <= 0x7a)
        || b == 0x7c || b == 0x7e
}

/// Decides whether a byte may appear in a header value.
#[verifier::when_used_as_spec(header_value_byte)]
#[inline]
pub fn is_header_value_token(b: u8) -> (r: bool)
    ensures
        r == header_value_byte(b),
{
    b == 0x09 || (0x20 <= b && b != 0x7f)
}

/// Whether two byte strings hold the same bytes.
pub(crate) fn bytes_eq(a: &[u8], b: &[u8]) -> (r: bool)
    ensures
        r == (a@ == b@),
{
    if a.len() != b.len() {
        return false;
    }
    let n = a.len();
    let mut q: usize = 0;
    while q < n
        invariant
            q <= n,
            n == a@.len() == b@.len(),
            forall|x: int| 0 <= x < q ==> a@[x] == b@[x],
        decreases n - q,
    {
        if a[q] != b[q] {
            return false;
        }
        q = q + 1;
    }
    proof {
        assert(a@ =~= b@);
    }
    true
}

} // verus!

//! Executable primitive parsers.
//!
//! Each function scans `buf` from a position and returns exactly the
//! outcome of the corresponding production of the model: positions for
//! `Complete`, [`Status::Partial`] for exhausted input, the model's
//! error otherwise.

use vstd::prelude::*;

use crate::classify::is_token;
use crate::error::Error;
use crate::model::sp_code;
use crate::model::sp_empty_lines;
use crate::model::sp_newline;
use crate::model::sp_reason;
use crate::model::sp_reason_from;
use crate::model::sp_token;
use crate::model::sp_token_from;
use crate::model::sp_version;
use crate::model::Step;
use crate::model::CR;
use crate::model::LF;
use crate::model::SP;
use crate::status::Status;

verus! {

/// Consumes any leading `\r\n` / `\n` pairs starting at `i`; on
/// `Complete(n)`, `n` is the position of the first byte of the line
/// that follows.
pub(crate) fn skip_empty_lines(buf: &[u8], i: usize) -> (r: Result<Status<usize>, Error>)
    requires
        i <= buf@.len(),
    ensures
        ({
            let st = sp_empty_lines(buf@, i as int);
            &&& (st matches Step::Done { next, .. } ==> r == Ok::<Status<usize>, Error>(
                Status::Complete(next as usize),
            ) && i <= next < buf@.len())
            &&& (st is More ==> r == Ok::<Status<usize>, Error>(Status::Partial))
            &&& (st matches Step::Fail(e) ==> r == Err::<Status<usize>, Error>(e))
        }),
{
    let mut pos = i;
    loop
        invariant
            i <= pos <= buf@.len(),
            sp_empty_lines(buf@, i as int) == sp_empty_lines(buf@, pos as int),
        decreases buf@.len() - pos,
    {
        if pos >= buf.len() {
            return Ok(Status::Partial);
        }
        let b = buf[pos];
        if b == CR {
            if pos + 1 >= buf.len() {
                return Ok(Status::Partial);
            }
            if buf[pos + 1] != LF {
                return Err(Error::NewLine);
            }
            pos = pos + 2;
        } else if b == LF {
            pos = pos + 1;
        } else {
            return Ok(Status::Complete(pos));
        }
    }
}

/// Reads a token starting at `i`.  On `Complete(j)`, the token is
/// `buf[i..j]` and the terminating space occupies position `j`.
pub(crate) fn parse_token_at(buf: &[u8], i: usize) -> (r: Result<Status<usize>, Error>)
    requires
        i <= buf@.len(),
    ensures
        ({
            let st = sp_token(buf@, i as int);
            &&& (st matches Step::Done { next, val } ==> {
                &&& r == Ok::<Status<usize>, Error>(Status::Complete((next - 1) as usize))
                &&& i < next - 1 < buf@.len()
                &&& val == buf@.subrange(i as int, next - 1)
            })
            &&& (st is More ==> r == Ok::<Status<usize>, Error>(Status::Partial))
            &&& (st matches Step::Fail(e) ==> r == Err::<Status<usize>, Error>(e))
        }),
{
    let mut j = i;
    loop
        invariant
            i <= j <= buf@.len(),
            sp_token(buf@, i as int) == sp_token_from(buf@, i as int, j as int),
        decreases buf@.len() - j,
    {
        if j >= buf.len() {
            return Ok(Status::Partial);
        }
        let b = buf[j];
        if b == SP {
            if j == i {
                return Err(Error::Token);
            }
            return Ok(Status::Complete(j));
        }
        if !is_token(b) {
            return Err(Error::Token);
        }
        j = j + 1;
    }
}

/// Reads the eight-byte version field starting at `i`, returning 0 for
/// `ICAP/1.0` and 1 for `ICAP/1.1`.
pub(crate) fn parse_version_at(buf: &[u8], i: usize) -> (r: Result<Status<u8>, Error>)
    requires
        i <= buf@.len(),
    ensures
        ({
            let st = sp_version(buf@, i as int);
            &&& (st matches Step::Done { next, val } ==> r == Ok::<Status<u8>, Error>(
                Status::Complete(val),
            ) && next == i + 8 && i + 8 <= buf@.len())
            &&& (st is More ==> r == Ok::<Status<u8>, Error>(Status::Partial))
            &&& (st matches Step::Fail(e) ==> r == Err::<Status<u8>, Error>(e))
        }),
{
    if buf.len() - i < 8 {
        return Ok(Status::Partial);
    }
    if buf[i] == 73 && buf[i + 1] == 67 && buf[i + 2] == 65 && buf[i + 3] == 80 && buf[i + 4] == 47
        && buf[i + 5] == 49 && buf[i + 6] == 46 {
        if buf[i + 7] == 48 {
            Ok(Status::Complete(0))
        } else if buf[i + 7] == 49 {
            Ok(Status::Complete(1))
        } else {
            Err(Error::Version)
        }
    } else {
        Err(Error::Version)
    }
}

/// Reads a newline (`\r\n` or `\n`) at `i`; on `Complete(n)`, `n` is
/// the first position after it.
pub(crate) fn parse_newline_at(buf: &[u8], i: usize) -> (r: Result<Status<usize>, Error>)
    requires
        i <= buf@.len(),
    ensures
        ({
            let st = sp_newline(buf@, i as int);
            &&& (st matches Step::Done { next, .. } ==> r == Ok::<Status<usize>, Error>(
                Status::Complete(next as usize),
            ) && i < next <= buf@.len())
            &&& (st is More ==> r == Ok::<Status<usize>, Error>(Status::Partial))
            &&& (st matches Step::Fail(e) ==> r == Err::<Status<usize>, Error>(e))
        }),
{
    if i >= buf.len() {
        return Ok(Status::Partial);
    }
    let b = buf[i];
    if b == CR {
        if i + 1 >= buf.len() {
            return Ok(Status::Partial);
        }
        if buf[i + 1] == LF {
            Ok(Status::Complete(i + 2))
        } else {
            Err(Error::NewLine)
        }
    } else if b == LF {
        Ok(Status::Complete(i + 1))
    } else {
        Err(Error::NewLine)
    }
}

/// Reads a three-digit status code starting at `i`.
pub(crate) fn parse_code_at(buf: &[u8], i: usize) -> (r: Result<Status<u16>, Error>)
    requires
        i <= buf@.len(),
    ensures
        ({
            let st = sp_code(buf@, i as int);
            &&& (st matches Step::Done { next, val } ==> r == Ok::<Status<u16>, Error>(
                Status::Complete(val),
            ) && next == i + 3 && i + 3 <= buf@.len())
            &&& (st is More ==> r == Ok::<Status<u16>, Error>(Status::Partial))
            &&& (st matches Step::Fail(e) ==> r == Err::<Status<u16>, Error>(e))
        }),
{
    if i >= buf.len() {
        return Ok(Status::Partial);
    }
    let d1 = buf[i];
    if !(48 <= d1 && d1 <= 57) {
        return Err(Error::Status);
    }
    if i + 1 >= buf.len() {
        return Ok(Status::Partial);
    }
    let d2 = buf[i + 1];
    if !(48 <= d2 && d2 <= 57) {
        return Err(Error::Status);
    }
    if i + 2 >= buf.len() {
        return Ok(Status::Partial);
    }
    let d3 = buf[i + 2];
    if !(48 <= d3 && d3 <= 57) {
        return Err(Error::Status);
    }
    let code: u16 = 100 * ((d1 - 48) as u16) + 10 * ((d2 - 48) as u16) + ((d3 - 48) as u16);
    Ok(Status::Complete(code))
}

/// Reads a reason phrase starting at `i`.  On `Complete((e, n))`, the
/// phrase is `buf[i..e]` and `n` is the first position after its
/// newline.
pub(crate) fn parse_reason_at(buf: &[u8], i: usize) -> (r: Result<Status<(usize, usize)>, Error>)
    requires
        i <= buf@.len(),
    ensures
        ({
            let st = sp_reason(buf@, i as int);
            &&& (st matches Step::Done { next, val } ==> {
                &&& r == Ok::<Status<(usize, usize)>, Error>(
                    Status::Complete(((i + val.len()) as usize, next as usize)),
                )
                &&& i + val.len() < next <= buf@.len()
                &&& val == buf@.subrange(i as int, i + val.len())
            })
            &&& (st is More ==> r == Ok::<Status<(usize, usize)>, Error>(Status::Partial))
            &&& (st matches Step::Fail(e) ==> r == Err::<Status<(usize, usize)>, Error>(e))
        }),
{
    let mut j = i;
    loop
        invariant
            i <= j <= buf@.len(),
            sp_reason(buf@, i as int) == sp_reason_from(buf@, i as int, j as int),
        decreases buf@.len() - j,
    {
        if j >= buf.len() {
            return Ok(Status::Partial);
        }
        let b = buf[j];
        if b == CR {
            if j + 1 >= buf.len() {
                return Ok(Status::Partial);
            }
            if buf[j + 1] == LF {
                return Ok(Status::Complete((j, j + 2)));
            }
            return Err(Error::Status);
        }
        if b == LF {
            return Ok(Status::Complete((j, j + 1)));
        }
        if !(b == 9 || (32 <= b && b <= 126)) {
            return Err(Error::Status);
        }
        j = j + 1;
    }
}

} // verus!

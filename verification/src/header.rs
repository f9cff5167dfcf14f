//! Parsed headers and the header block parser.

use vstd::prelude::*;
use vstd::slice::slice_subrange;
use vstd::slice::slice_to_vec;

use crate::classify::is_header_name_token;
use crate::classify::is_header_value_token;
use crate::error::Error;
use crate::model::sp_header_name;
use crate::model::sp_header_ows;
use crate::model::sp_header_value;
use crate::model::sp_headers;
use crate::model::sp_headers_at;
use crate::model::HeaderModel;
use crate::model::Step;
use crate::model::COLON;
use crate::model::CR;
use crate::model::HTAB;
use crate::model::LF;
use crate::model::SP;
use crate::status::Status;

verus! {

/// Represents a parsed header.
///
/// The name holds only bytes of the header-name token class, so it is
/// plain US-ASCII; the value may hold any byte of the header-value
/// class, obs-text included.
#[derive(Clone, PartialEq, Eq, Debug)]
pub struct Header {
    /// The name portion of the header.
    pub name: Vec<u8>,
    /// The value portion of the header.
    pub value: Vec<u8>,
}

impl View for Header {
    type V = HeaderModel;

    open spec fn view(&self) -> HeaderModel {
        HeaderModel { name: self.name@, value: self.value@ }
    }
}

impl Default for Header {
    /// An empty header, useful for building a header array to pass in
    /// for parsing.
    fn default() -> (h: Header)
        ensures
            h@.name.len() == 0,
            h@.value.len() == 0,
    {
        Header { name: Vec::new(), value: Vec::new() }
    }
}

/// The models of a sequence of parsed headers, in the same order.
pub open spec fn views_of(hs: Seq<Header>) -> Seq<HeaderModel> {
    hs.map_values(|h: Header| h@)
}

/// Runs the header block grammar from `start` with capacity `cap`,
/// pushing each parsed header into `out`.
///
/// On `Complete(n)`, `n` is the first position after the blank line and
/// `out` holds exactly the block's headers in input order; on any other
/// outcome `out` is left in an unspecified intermediate state.
#[verifier::loop_isolation(false)]
pub(crate) fn parse_headers_core(buf: &[u8], start: usize, cap: usize, out: &mut Vec<Header>) -> (r:
    Result<Status<usize>, Error>)
    requires
        start <= buf@.len(),
        old(out)@.len() == 0,
    ensures
        ({
            let st = sp_headers(buf@, start as int, cap as int);
            &&& (st matches Step::Done { next, val } ==> {
                &&& r == Ok::<Status<usize>, Error>(Status::Complete(next as usize))
                &&& start < next <= buf@.len()
                &&& views_of(final(out)@) == val
            })
            &&& (st is More ==> r == Ok::<Status<usize>, Error>(Status::Partial))
            &&& (st matches Step::Fail(e) ==> r == Err::<Status<usize>, Error>(e))
        }),
{
    let ghost s = buf@;
    let ghost cap_i = cap as int;
    proof {
        assert(views_of(old(out)@) =~= Seq::<HeaderModel>::empty());
    }
    let mut pos = start;
    loop
        invariant
            start <= pos <= s.len(),
            sp_headers(s, start as int, cap_i) == sp_headers_at(s, pos as int, cap_i, views_of(out@)),
        decreases s.len() - pos,
    {
        if pos >= buf.len() {
            return Ok(Status::Partial);
        }
        let b = buf[pos];
        if b == CR {
            if pos + 1 >= buf.len() {
                return Ok(Status::Partial);
            }
            if buf[pos + 1] != LF {
                return Err(Error::NewLine);
            }
            return Ok(Status::Complete(pos + 2));
        }
        if b == LF {
            return Ok(Status::Complete(pos + 1));
        }
        if !is_header_name_token(b) {
            return Err(Error::HeaderName);
        }
        if out.len() >= cap {
            return Err(Error::TooManyHeaders);
        }
        let ghost accv = views_of(out@);
        let name_start = pos;
        let mut j = pos + 1;
        while j < buf.len() && buf[j] != COLON
            invariant
                name_start < j <= s.len(),
                sp_headers(s, start as int, cap_i) == sp_header_name(
                    s,
                    name_start as int,
                    j as int,
                    cap_i,
                    accv,
                ),
            decreases s.len() - j,
        {
            if !is_header_name_token(buf[j]) {
                return Err(Error::HeaderName);
            }
            j = j + 1;
        }
        if j >= buf.len() {
            return Ok(Status::Partial);
        }
        let name_vec = slice_to_vec(slice_subrange(buf, name_start, j));
        let ghost name_seq = s.subrange(name_start as int, j as int);
        let mut k = j + 1;
        while k < buf.len() && (buf[k] == SP || buf[k] == HTAB)
            invariant
                name_start < k <= s.len(),
                sp_headers(s, start as int, cap_i) == sp_header_ows(s, name_seq, k as int, cap_i, accv),
            decreases s.len() - k,
        {
            k = k + 1;
        }
        if k >= buf.len() {
            return Ok(Status::Partial);
        }
        let vstart = k;
        let mut m = k;
        while m < buf.len() && is_header_value_token(buf[m])
            invariant
                vstart <= m <= s.len(),
                sp_headers(s, start as int, cap_i) == sp_header_value(
                    s,
                    name_seq,
                    vstart as int,
                    m as int,
                    cap_i,
                    accv,
                ),
            decreases s.len() - m,
        {
            // An unrolled eight-byte step keeps the scan of long header
            // values cheap; the tail falls back to single bytes.
            if buf.len() - m >= 8 && is_header_value_token(buf[m]) && is_header_value_token(
                buf[m + 1],
            ) && is_header_value_token(buf[m + 2]) && is_header_value_token(buf[m + 3])
                && is_header_value_token(buf[m + 4]) && is_header_value_token(buf[m + 5])
                && is_header_value_token(buf[m + 6]) && is_header_value_token(buf[m + 7]) {
                proof {
                    assert forall|d: int| m <= d < m + 8 implies crate::classify::header_value_byte(
                        s[d],
                    ) by {}
                    assert(sp_header_value(s, name_seq, vstart as int, m as int, cap_i, accv)
                        == sp_header_value(s, name_seq, vstart as int, m + 8, cap_i, accv)) by {
                        assert(sp_header_value(s, name_seq, vstart as int, m + 1, cap_i, accv)
                            == sp_header_value(s, name_seq, vstart as int, m + 2, cap_i, accv));
                        assert(sp_header_value(s, name_seq, vstart as int, m + 2, cap_i, accv)
                            == sp_header_value(s, name_seq, vstart as int, m + 3, cap_i, accv));
                        assert(sp_header_value(s, name_seq, vstart as int, m + 3, cap_i, accv)
                            == sp_header_value(s, name_seq, vstart as int, m + 4, cap_i, accv));
                        assert(sp_header_value(s, name_seq, vstart as int, m + 4, cap_i, accv)
                            == sp_header_value(s, name_seq, vstart as int, m + 5, cap_i, accv));
                        assert(sp_header_value(s, name_seq, vstart as int, m + 5, cap_i, accv)
                            == sp_header_value(s, name_seq, vstart as int, m + 6, cap_i, accv));
                        assert(sp_header_value(s, name_seq, vstart as int, m + 6, cap_i, accv)
                            == sp_header_value(s, name_seq, vstart as int, m + 7, cap_i, accv));
                        assert(sp_header_value(s, name_seq, vstart as int, m + 7, cap_i, accv)
                            == sp_header_value(s, name_seq, vstart as int, m + 8, cap_i, accv));
                    }
                }
                m = m + 8;
            } else {
                m = m + 1;
            }
        }
        if m >= buf.len() {
            return Ok(Status::Partial);
        }
        let term = buf[m];
        let next_pos: usize;
        if term == CR {
            if m + 1 >= buf.len() {
                return Ok(Status::Partial);
            }
            if buf[m + 1] != LF {
                return Err(Error::HeaderValue);
            }
            next_pos = m + 2;
        } else if term == LF {
            next_pos = m + 1;
        } else {
            return Err(Error::HeaderValue);
        }
        let value_vec = slice_to_vec(slice_subrange(buf, vstart, m));
        let ghost hm = HeaderModel { name: name_seq, value: s.subrange(vstart as int, m as int) };
        out.push(Header { name: name_vec, value: value_vec });
        proof {
            assert(views_of(out@) =~= accv.push(hm));
        }
        pos = next_pos;
    }
}

/// Parse a buffer of bytes as a header block.
///
/// The length of `dst` on entry is the header capacity.  On
/// `Complete(n)`, `n` is the first position after the block's
/// terminating blank line and `dst` holds exactly the parsed headers in
/// input order; on `Partial` or an error, `dst` is unchanged.
pub fn parse_headers(src: &[u8], dst: &mut Vec<Header>) -> (r: Result<Status<usize>, Error>)
    ensures
        ({
            let st = sp_headers(src@, 0, old(dst)@.len() as int);
            &&& (st matches Step::Done { next, val } ==> {
                &&& r == Ok::<Status<usize>, Error>(Status::Complete(next as usize))
                &&& 0 < next <= src@.len()
                &&& views_of(final(dst)@) == val
                &&& final(dst)@.len() <= old(dst)@.len()
            })
            &&& (st is More ==> r == Ok::<Status<usize>, Error>(Status::Partial) && *final(dst)
                == *old(dst))
            &&& (st matches Step::Fail(e) ==> r == Err::<Status<usize>, Error>(e) && *final(dst)
                == *old(dst))
        }),
{
    let cap = dst.len();
    let mut parsed: Vec<Header> = Vec::new();
    let r = parse_headers_core(src, 0, cap, &mut parsed);
    match r {
        Ok(Status::Complete(n)) => {
            proof {
                crate::laws::lemma_headers_within_capacity(src@, 0, cap as int);
            }
            *dst = parsed;
            Ok(Status::Complete(n))
        },
        Ok(Status::Partial) => Ok(Status::Partial),
        Err(e) => Err(e),
    }
}

} // verus!

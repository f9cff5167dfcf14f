//! The ICAP response parser.

use vstd::prelude::*;
use vstd::slice::slice_subrange;
use vstd::slice::slice_to_vec;

use crate::error::Error;
use crate::header::parse_headers_core;
use crate::header::views_of;
use crate::header::Header;
use crate::model::sp_code;
use crate::model::sp_empty_lines;
use crate::model::sp_headers;
use crate::model::sp_reason;
use crate::model::sp_version;
use crate::model::HeaderModel;
use crate::model::Step;
use crate::model::CR;
use crate::model::LF;
use crate::model::SP;
use crate::primitives::parse_code_at;
use crate::primitives::parse_reason_at;
use crate::primitives::parse_version_at;
use crate::primitives::skip_empty_lines;
use crate::request::opt_bytes_view;
use crate::status::Status;

verus! {

/// Everything one run of the response parser determines: the outcome,
/// and for each output field the value this run assigns (`None` leaves
/// the field as it was).
///
/// In `outcome`, `Done.next` is the first position after the blank line
/// that ends the header block.
pub struct ResponseModel {
    /// The outcome of the parse.
    pub outcome: Step<int>,
    /// The version, once fully scanned.
    pub version: Option<u8>,
    /// The status code, once fully scanned.
    pub code: Option<u16>,
    /// The reason phrase, once fully scanned; empty when the status
    /// line ends right after the code.
    pub reason: Option<Seq<u8>>,
    /// The headers, once the whole block has been scanned.
    pub headers: Option<Seq<HeaderModel>>,
}

/// The header block from `p` and everything after it, with the fields
/// scanned so far.
pub open spec fn sp_response_tail(
    s: Seq<u8>,
    p: int,
    cap: int,
    ver: u8,
    code: u16,
    reas: Seq<u8>,
) -> ResponseModel {
    match sp_headers(s, p, cap) {
        Step::More => ResponseModel {
            outcome: Step::More,
            version: Option::Some(ver),
            code: Option::Some(code),
            reason: Option::Some(reas),
            headers: Option::None,
        },
        Step::Fail(e) => ResponseModel {
            outcome: Step::Fail(e),
            version: Option::Some(ver),
            code: Option::Some(code),
            reason: Option::Some(reas),
            headers: Option::None,
        },
        Step::Done { next: hend, val: hs } => ResponseModel {
            outcome: Step::Done { next: hend, val: hend },
            version: Option::Some(ver),
            code: Option::Some(code),
            reason: Option::Some(reas),
            headers: Option::Some(hs),
        },
    }
}

/// The model of one run of the response parser over `s` with header
/// capacity `cap`.
///
/// The grammar, in order: an optional empty-line prefix, the version, a
/// space, the three-digit code, then either a space and a reason phrase
/// ended by a newline, or a newline directly (the reason is then
/// empty), then the header block.  Any other byte after the code is a
/// malformed status line.
pub open spec fn sp_response(s: Seq<u8>, cap: int) -> ResponseModel {
    match sp_empty_lines(s, 0) {
        Step::More => ResponseModel {
            outcome: Step::More,
            version: Option::None,
            code: Option::None,
            reason: Option::None,
            headers: Option::None,
        },
        Step::Fail(e) => ResponseModel {
            outcome: Step::Fail(e),
            version: Option::None,
            code: Option::None,
            reason: Option::None,
            headers: Option::None,
        },
        Step::Done { next: i0, .. } => match sp_version(s, i0) {
            Step::More => ResponseModel {
                outcome: Step::More,
                version: Option::None,
                code: Option::None,
                reason: Option::None,
                headers: Option::None,
            },
            Step::Fail(e) => ResponseModel {
                outcome: Step::Fail(e),
                version: Option::None,
                code: Option::None,
                reason: Option::None,
                headers: Option::None,
            },
            Step::Done { next: i1, val: ver } => if i1 >= s.len() {
                ResponseModel {
                    outcome: Step::More,
                    version: Option::Some(ver),
                    code: Option::None,
                    reason: Option::None,
                    headers: Option::None,
                }
            } else if s[i1] != SP {
                ResponseModel {
                    outcome: Step::Fail(Error::Version),
                    version: Option::Some(ver),
                    code: Option::None,
                    reason: Option::None,
                    headers: Option::None,
                }
            } else {
                match sp_code(s, i1 + 1) {
                    Step::More => ResponseModel {
                        outcome: Step::More,
                        version: Option::Some(ver),
                        code: Option::None,
                        reason: Option::None,
                        headers: Option::None,
                    },
                    Step::Fail(e) => ResponseModel {
                        outcome: Step::Fail(e),
                        version: Option::Some(ver),
                        code: Option::None,
                        reason: Option::None,
                        headers: Option::None,
                    },
                    Step::Done { next: i2, val: code } => if i2 >= s.len() {
                        ResponseModel {
                            outcome: Step::More,
                            version: Option::Some(ver),
                            code: Option::Some(code),
                            reason: Option::None,
                            headers: Option::None,
                        }
                    } else if s[i2] == SP {
                        match sp_reason(s, i2 + 1) {
                            Step::More => ResponseModel {
                                outcome: Step::More,
                                version: Option::Some(ver),
                                code: Option::Some(code),
                                reason: Option::None,
                                headers: Option::None,
                            },
                            Step::Fail(e) => ResponseModel {
                                outcome: Step::Fail(e),
                                version: Option::Some(ver),
                                code: Option::Some(code),
                                reason: Option::None,
                                headers: Option::None,
                            },
                            Step::Done { next: i3, val: reas } => sp_response_tail(
                                s,
                                i3,
                                cap,
                                ver,
                                code,
                                reas,
                            ),
                        }
                    } else if s[i2] == CR {
                        if i2 + 1 >= s.len() {
                            ResponseModel {
                                outcome: Step::More,
                                version: Option::Some(ver),
                                code: Option::Some(code),
                                reason: Option::None,
                                headers: Option::None,
                            }
                        } else if s[i2 + 1] == LF {
                            sp_response_tail(s, i2 + 2, cap, ver, code, Seq::empty())
                        } else {
                            ResponseModel {
                                outcome: Step::Fail(Error::Status),
                                version: Option::Some(ver),
                                code: Option::Some(code),
                                reason: Option::None,
                                headers: Option::None,
                            }
                        }
                    } else if s[i2] == LF {
                        sp_response_tail(s, i2 + 1, cap, ver, code, Seq::empty())
                    } else {
                        ResponseModel {
                            outcome: Step::Fail(Error::Status),
                            version: Option::Some(ver),
                            code: Option::Some(code),
                            reason: Option::None,
                            headers: Option::None,
                        }
                    },
                }
            },
        },
    }
}

/// A parsed ICAP response.
///
/// The optional fields are filled in grammar order as parsing
/// progresses; see [`crate::request::Request`].
#[derive(Debug, PartialEq, Eq)]
pub struct Response {
    /// The response version: 0 for `ICAP/1.0`, 1 for `ICAP/1.1`.
    pub version: Option<u8>,
    /// The response code, such as `200`.
    pub code: Option<u16>,
    /// The response reason phrase, such as `OK`.
    pub reason: Option<Vec<u8>>,
    /// The response headers.
    pub headers: Vec<Header>,
}

impl Response {
    /// Creates a new response, using a vector of headers you allocate;
    /// its length is the header capacity for the parse.
    pub fn new(headers: Vec<Header>) -> (r: Response)
        ensures
            r.version is None,
            r.code is None,
            r.reason is None,
            r.headers == headers,
    {
        Response { version: Option::None, code: Option::None, reason: Option::None, headers }
    }

    /// Try to parse a buffer of bytes into the response.
    ///
    /// Returns `Complete(n)` with `n` the byte count up through the
    /// blank line that ends the header block, `Partial` when the buffer
    /// ends inside a valid prefix, and the grammar's error otherwise,
    /// exactly as [`sp_response`] prescribes; the fields are assigned
    /// the values the model gives and are otherwise left unchanged.
    pub fn parse(&mut self, buf: &[u8]) -> (r: Result<Status<usize>, Error>)
        ensures
            ({
                let m = sp_response(buf@, old(self).headers@.len() as int);
                &&& (m.outcome matches Step::Done { next, .. } ==> r == Ok::<
                    Status<usize>,
                    Error,
                >(Status::Complete(next as usize)))
                &&& (m.outcome is More ==> r == Ok::<Status<usize>, Error>(Status::Partial))
                &&& (m.outcome matches Step::Fail(e) ==> r == Err::<Status<usize>, Error>(e))
                &&& final(self).version == (if m.version is Some {
                    m.version
                } else {
                    old(self).version
                })
                &&& final(self).code == (if m.code is Some {
                    m.code
                } else {
                    old(self).code
                })
                &&& (m.reason is Some ==> opt_bytes_view(final(self).reason) == m.reason)
                &&& (m.reason is None ==> final(self).reason == old(self).reason)
                &&& (m.headers matches Option::Some(hs) ==> views_of(final(self).headers@) == hs)
                &&& (m.headers is None ==> final(self).headers == old(self).headers)
            }),
    {
        let cap = self.headers.len();
        let blen = buf.len();
        let i0 = match skip_empty_lines(buf, 0) {
            Ok(Status::Complete(p)) => p,
            Ok(Status::Partial) => {
                return Ok(Status::Partial);
            },
            Err(e) => {
                return Err(e);
            },
        };
        let ver = match parse_version_at(buf, i0) {
            Ok(Status::Complete(v)) => v,
            Ok(Status::Partial) => {
                return Ok(Status::Partial);
            },
            Err(e) => {
                return Err(e);
            },
        };
        self.version = Option::Some(ver);
        let i1 = i0 + 8;
        if i1 >= blen {
            return Ok(Status::Partial);
        }
        if buf[i1] != SP {
            return Err(Error::Version);
        }
        let code = match parse_code_at(buf, i1 + 1) {
            Ok(Status::Complete(c)) => c,
            Ok(Status::Partial) => {
                return Ok(Status::Partial);
            },
            Err(e) => {
                return Err(e);
            },
        };
        self.code = Option::Some(code);
        let i2 = i1 + 4;
        if i2 >= blen {
            return Ok(Status::Partial);
        }
        let b = buf[i2];
        let tail_start: usize;
        if b == SP {
            let (reas_end, nxt) = match parse_reason_at(buf, i2 + 1) {
                Ok(Status::Complete(p)) => p,
                Ok(Status::Partial) => {
                    return Ok(Status::Partial);
                },
                Err(e) => {
                    return Err(e);
                },
            };
            self.reason = Option::Some(slice_to_vec(slice_subrange(buf, i2 + 1, reas_end)));
            tail_start = nxt;
        } else if b == CR {
            if i2 + 1 >= blen {
                return Ok(Status::Partial);
            }
            if buf[i2 + 1] != LF {
                return Err(Error::Status);
            }
            self.reason = Option::Some(Vec::new());
            tail_start = i2 + 2;
        } else if b == LF {
            self.reason = Option::Some(Vec::new());
            tail_start = i2 + 1;
        } else {
            return Err(Error::Status);
        }
        let mut hs: Vec<Header> = Vec::new();
        let hend = match parse_headers_core(buf, tail_start, cap, &mut hs) {
            Ok(Status::Complete(p)) => p,
            Ok(Status::Partial) => {
                return Ok(Status::Partial);
            },
            Err(e) => {
                return Err(e);
            },
        };
        self.headers = hs;
        Ok(Status::Complete(hend))
    }
}

} // verus!

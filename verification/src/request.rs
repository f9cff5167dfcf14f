//! The ICAP request parser.

use vstd::prelude::*;
use vstd::slice::slice_subrange;
use vstd::slice::slice_to_vec;

use crate::classify::bytes_eq;
use crate::encapsulated::parse_encapsulated;
use crate::encapsulated::sections_view;
use crate::encapsulated::sp_encapsulated;
use crate::encapsulated::SectionType;
use crate::error::Error;
use crate::header::parse_headers_core;
use crate::header::views_of;
use crate::header::Header;
use crate::model::sp_empty_lines;
use crate::model::sp_headers;
use crate::model::sp_newline;
use crate::model::sp_token;
use crate::model::sp_version;
use crate::model::HeaderModel;
use crate::model::Step;
use crate::primitives::parse_newline_at;
use crate::primitives::parse_token_at;
use crate::primitives::parse_version_at;
use crate::primitives::skip_empty_lines;
use crate::status::Status;

verus! {

/// The spelling of the `Encapsulated` header name.
pub open spec fn enc_header_name() -> Seq<u8> {
    seq![69u8, 110, 99, 97, 112, 115, 117, 108, 97, 116, 101, 100]
}

/// The spelling of the `OPTIONS` method.
pub open spec fn options_method() -> Seq<u8> {
    seq![79u8, 80, 84, 73, 79, 78, 83]
}

/// The index of the first header named `Encapsulated` at or after `k`.
pub open spec fn sp_find_encapsulated(hs: Seq<HeaderModel>, k: int) -> Option<int>
    decreases hs.len() - k,
{
    if k >= hs.len() {
        Option::None
    } else if hs[k].name == enc_header_name() {
        Option::Some(k)
    } else {
        sp_find_encapsulated(hs, k + 1)
    }
}

/// Everything one run of the request parser determines: the outcome,
/// and for each output field the value this run assigns (`None` leaves
/// the field as it was).
///
/// In `outcome`, `Done.next` is the first position after the blank line
/// that ends the header block.
pub struct RequestModel {
    /// The outcome of the parse.
    pub outcome: Step<int>,
    /// The method token, once fully scanned.
    pub method: Option<Seq<u8>>,
    /// The path token, once fully scanned.
    pub path: Option<Seq<u8>>,
    /// The version, once fully scanned.
    pub version: Option<u8>,
    /// The headers, once the whole block has been scanned.
    pub headers: Option<Seq<HeaderModel>>,
    /// The encapsulated sections, on success with an `Encapsulated`
    /// header present.
    pub sections: Option<Seq<(SectionType, Seq<u8>)>>,
}

/// The model of one run of the request parser over `s` with header
/// capacity `cap`.
///
/// The grammar, in order: an optional empty-line prefix, the method
/// token, the path token, the version, a newline, the header block.
/// After the block, the first header named `Encapsulated` (if any) is
/// interpreted against the bytes that follow the block; without one,
/// only an `OPTIONS` request succeeds.  Fields are filled in grammar
/// order, so a partial parse still exposes what was fully scanned.
pub open spec fn sp_request(s: Seq<u8>, cap: int) -> RequestModel {
    match sp_empty_lines(s, 0) {
        Step::More => RequestModel {
            outcome: Step::More,
            method: Option::None,
            path: Option::None,
            version: Option::None,
            headers: Option::None,
            sections: Option::None,
        },
        Step::Fail(e) => RequestModel {
            outcome: Step::Fail(e),
            method: Option::None,
            path: Option::None,
            version: Option::None,
            headers: Option::None,
            sections: Option::None,
        },
        Step::Done { next: i0, .. } => match sp_token(s, i0) {
            Step::More => RequestModel {
                outcome: Step::More,
                method: Option::None,
                path: Option::None,
                version: Option::None,
                headers: Option::None,
                sections: Option::None,
            },
            Step::Fail(e) => RequestModel {
                outcome: Step::Fail(e),
                method: Option::None,
                path: Option::None,
                version: Option::None,
                headers: Option::None,
                sections: Option::None,
            },
            Step::Done { next: i1, val: meth } => match sp_token(s, i1) {
                Step::More => RequestModel {
                    outcome: Step::More,
                    method: Option::Some(meth),
                    path: Option::None,
                    version: Option::None,
                    headers: Option::None,
                    sections: Option::None,
                },
                Step::Fail(e) => RequestModel {
                    outcome: Step::Fail(e),
                    method: Option::Some(meth),
                    path: Option::None,
                    version: Option::None,
                    headers: Option::None,
                    sections: Option::None,
                },
                Step::Done { next: i2, val: pth } => match sp_version(s, i2) {
                    Step::More => RequestModel {
                        outcome: Step::More,
                        method: Option::Some(meth),
                        path: Option::Some(pth),
                        version: Option::None,
                        headers: Option::None,
                        sections: Option::None,
                    },
                    Step::Fail(e) => RequestModel {
                        outcome: Step::Fail(e),
                        method: Option::Some(meth),
                        path: Option::Some(pth),
                        version: Option::None,
                        headers: Option::None,
                        sections: Option::None,
                    },
                    Step::Done { next: i3, val: ver } => match sp_newline(s, i3) {
                        Step::More => RequestModel {
                            outcome: Step::More,
                            method: Option::Some(meth),
                            path: Option::Some(pth),
                            version: Option::Some(ver),
                            headers: Option::None,
                            sections: Option::None,
                        },
                        Step::Fail(e) => RequestModel {
                            outcome: Step::Fail(e),
                            method: Option::Some(meth),
                            path: Option::Some(pth),
                            version: Option::Some(ver),
                            headers: Option::None,
                            sections: Option::None,
                        },
                        Step::Done { next: i4, .. } => match sp_headers(s, i4, cap) {
                            Step::More => RequestModel {
                                outcome: Step::More,
                                method: Option::Some(meth),
                                path: Option::Some(pth),
                                version: Option::Some(ver),
                                headers: Option::None,
                                sections: Option::None,
                            },
                            Step::Fail(e) => RequestModel {
                                outcome: Step::Fail(e),
                                method: Option::Some(meth),
                                path: Option::Some(pth),
                                version: Option::Some(ver),
                                headers: Option::None,
                                sections: Option::None,
                            },
                            Step::Done { next: hend, val: hs } => match sp_find_encapsulated(
                                hs,
                                0,
                            ) {
                                Option::Some(hi) => RequestModel {
                                    outcome: Step::Done { next: hend, val: hend },
                                    method: Option::Some(meth),
                                    path: Option::Some(pth),
                                    version: Option::Some(ver),
                                    headers: Option::Some(hs),
                                    sections: Option::Some(
                                        sp_encapsulated(
                                            hs[hi].value,
                                            s.subrange(hend, s.len() as int),
                                        ),
                                    ),
                                },
                                Option::None => if meth == options_method() {
                                    RequestModel {
                                        outcome: Step::Done { next: hend, val: hend },
                                        method: Option::Some(meth),
                                        path: Option::Some(pth),
                                        version: Option::Some(ver),
                                        headers: Option::Some(hs),
                                        sections: Option::None,
                                    }
                                } else {
                                    RequestModel {
                                        outcome: Step::Fail(Error::MissingEncapsulated),
                                        method: Option::Some(meth),
                                        path: Option::Some(pth),
                                        version: Option::Some(ver),
                                        headers: Option::Some(hs),
                                        sections: Option::None,
                                    }
                                },
                            },
                        },
                    },
                },
            },
        },
    }
}

/// The view of an optional byte vector.
pub open spec fn opt_bytes_view(o: Option<Vec<u8>>) -> Option<Seq<u8>> {
    match o {
        Option::Some(v) => Option::Some(v@),
        Option::None => Option::None,
    }
}

/// A parsed ICAP request.
///
/// The optional fields are filled in grammar order as parsing
/// progresses, so after a partial parse the fields that were fully
/// scanned are already exposed and a caller may act on them (to reject
/// a method early, say) before reading more bytes.
#[derive(Debug, PartialEq, Eq)]
pub struct Request {
    /// The request method, such as `RESPMOD`.
    pub method: Option<Vec<u8>>,
    /// The request path, such as `/about-us`.
    pub path: Option<Vec<u8>>,
    /// The request version: 0 for `ICAP/1.0`, 1 for `ICAP/1.1`.
    pub version: Option<u8>,
    /// The request headers.
    pub headers: Vec<Header>,
    /// The sections of the encapsulated body listed in the
    /// `Encapsulated` header, ordered by ascending offset.
    pub encapsulated_sections: Option<Vec<(SectionType, Vec<u8>)>>,
}

impl Request {
    /// Creates a new request, using a vector of headers you allocate;
    /// its length is the header capacity for the parse.
    pub fn new(headers: Vec<Header>) -> (r: Request)
        ensures
            r.method is None,
            r.path is None,
            r.version is None,
            r.headers == headers,
            r.encapsulated_sections is None,
    {
        Request {
            method: Option::None,
            path: Option::None,
            version: Option::None,
            headers,
            encapsulated_sections: Option::None,
        }
    }

    /// Try to parse a buffer of bytes into the request.
    ///
    /// Returns `Complete(n)` with `n` the byte count up through the
    /// blank line that ends the header block, `Partial` when the buffer
    /// ends inside a valid prefix, and the grammar's error otherwise,
    /// exactly as [`sp_request`] prescribes; the fields are assigned
    /// the values the model gives and are otherwise left unchanged.
    #[verifier::loop_isolation(false)]
    pub fn parse(&mut self, buf: &[u8]) -> (r: Result<Status<usize>, Error>)
        ensures
            ({
                let m = sp_request(buf@, old(self).headers@.len() as int);
                &&& (m.outcome matches Step::Done { next, .. } ==> r == Ok::<
                    Status<usize>,
                    Error,
                >(Status::Complete(next as usize)))
                &&& (m.outcome is More ==> r == Ok::<Status<usize>, Error>(Status::Partial))
                &&& (m.outcome matches Step::Fail(e) ==> r == Err::<Status<usize>, Error>(e))
                &&& (m.method is Some ==> opt_bytes_view(final(self).method) == m.method)
                &&& (m.method is None ==> final(self).method == old(self).method)
                &&& (m.path is Some ==> opt_bytes_view(final(self).path) == m.path)
                &&& (m.path is None ==> final(self).path == old(self).path)
                &&& final(self).version == (if m.version is Some {
                    m.version
                } else {
                    old(self).version
                })
                &&& (m.headers matches Option::Some(hs) ==> views_of(final(self).headers@) == hs)
                &&& (m.headers is None ==> final(self).headers == old(self).headers)
                &&& (m.sections matches Option::Some(sv)
                    ==> final(self).encapsulated_sections matches Option::Some(ss)
                    && sections_view(ss@) == sv)
                &&& (m.sections is None ==> final(self).encapsulated_sections == old(
                    self,
                ).encapsulated_sections)
            }),
    {
        let cap = self.headers.len();
        let blen = buf.len();
        let i0 = match skip_empty_lines(buf, 0) {
            Ok(Status::Complete(p)) => p,
            Ok(Status::Partial) => {
                return Ok(Status::Partial);
            },
            Err(e) => {
                return Err(e);
            },
        };
        let meth_end = match parse_token_at(buf, i0) {
            Ok(Status::Complete(p)) => p,
            Ok(Status::Partial) => {
                return Ok(Status::Partial);
            },
            Err(e) => {
                return Err(e);
            },
        };
        let opt_arr: [u8; 7] = [79u8, 80, 84, 73, 79, 78, 83];  // "OPTIONS"
        let is_options = bytes_eq(slice_subrange(buf, i0, meth_end), opt_arr.as_slice());
        self.method = Option::Some(slice_to_vec(slice_subrange(buf, i0, meth_end)));
        let i1 = meth_end + 1;
        let path_end = match parse_token_at(buf, i1) {
            Ok(Status::Complete(p)) => p,
            Ok(Status::Partial) => {
                return Ok(Status::Partial);
            },
            Err(e) => {
                return Err(e);
            },
        };
        self.path = Option::Some(slice_to_vec(slice_subrange(buf, i1, path_end)));
        let i2 = path_end + 1;
        let ver = match parse_version_at(buf, i2) {
            Ok(Status::Complete(v)) => v,
            Ok(Status::Partial) => {
                return Ok(Status::Partial);
            },
            Err(e) => {
                return Err(e);
            },
        };
        self.version = Option::Some(ver);
        let i3 = i2 + 8;
        let i4 = match parse_newline_at(buf, i3) {
            Ok(Status::Complete(p)) => p,
            Ok(Status::Partial) => {
                return Ok(Status::Partial);
            },
            Err(e) => {
                return Err(e);
            },
        };
        let mut hs: Vec<Header> = Vec::new();
        let hend = match parse_headers_core(buf, i4, cap, &mut hs) {
            Ok(Status::Complete(p)) => p,
            Ok(Status::Partial) => {
                return Ok(Status::Partial);
            },
            Err(e) => {
                return Err(e);
            },
        };
        self.headers = hs;
        let ghost hsv = views_of(self.headers@);
        let enc_arr: [u8; 12] = [69u8, 110, 99, 97, 112, 115, 117, 108, 97, 116, 101, 100];  // "Encapsulated"
        let n = self.headers.len();
        let mut k: usize = 0;
        let mut found = false;
        while !found && k < n
            invariant
                k <= n,
                n == self.headers@.len(),
                hsv == views_of(self.headers@),
                sp_find_encapsulated(hsv, 0) == sp_find_encapsulated(hsv, k as int),
                forall|q: int| 0 <= q < k ==> hsv[q].name != enc_header_name(),
                found ==> k < n && hsv[k as int].name == enc_header_name(),
            decreases n - k + (if found {
                0int
            } else {
                1int
            }),
        {
            proof {
                assert(hsv[k as int] == self.headers@[k as int]@);
                assert(enc_arr@ =~= enc_header_name());
            }
            if bytes_eq(self.headers[k].name.as_slice(), enc_arr.as_slice()) {
                found = true;
            } else {
                k = k + 1;
            }
        }
        if found {
            proof {
                assert(sp_find_encapsulated(hsv, 0) == Option::Some(k as int));
            }
            let trailing = slice_subrange(buf, hend, blen);
            let secs = parse_encapsulated(self.headers[k].value.as_slice(), trailing);
            self.encapsulated_sections = Option::Some(secs);
            return Ok(Status::Complete(hend));
        }
        proof {
            assert(sp_find_encapsulated(hsv, 0) is None);
        }
        if is_options {
            proof {
                assert(opt_arr@ =~= options_method());
            }
            Ok(Status::Complete(hend))
        } else {
            proof {
                assert(opt_arr@ =~= options_method());
            }
            Err(Error::MissingEncapsulated)
        }
    }
}

} // verus!

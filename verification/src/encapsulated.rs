//! The `Encapsulated` header interpreter.
//!
//! The value of the mandatory `Encapsulated` header lists, as
//! comma-separated `token=offset` pairs, the offsets at which the named
//! sections of the trailing octet stream begin.  The interpreter finds
//! each of the six defined tokens, reads its decimal offset, orders the
//! entries by ascending offset, and slices the trailing stream so that
//! each section runs to the start of the next (the last one to the end
//! of the stream).

use vstd::prelude::*;
use vstd::slice::slice_subrange;
use vstd::slice::slice_to_vec;

use crate::classify::digit_byte;
use crate::classify::digit_value;

verus! {

/// Comma, the separator between `Encapsulated` entries.
pub const COMMA: u8 = 44;

/// Possible sections of the encapsulated ICAP data.
#[derive(Copy, Clone, Debug, Hash, PartialEq, Eq, Structural)]
pub enum SectionType {
    /// Null body section.
    NullBody,
    /// Request header section.
    RequestHeader,
    /// Request body section.
    RequestBody,
    /// Response header section.
    ResponseHeader,
    /// Response body section.
    ResponseBody,
    /// Options body section.
    OptionsBody,
}

/// Describes a section of the encapsulated data as listed in the
/// `Encapsulated` header.
#[derive(Copy, Clone, Debug, Hash, PartialEq, Eq)]
pub struct EncapsulationSection {
    /// The type of data in the section.
    name: SectionType,
    /// The start of the section, an offset into the trailing stream.
    start: usize,
}

impl View for EncapsulationSection {
    type V = (SectionType, int);

    closed spec fn view(&self) -> (SectionType, int) {
        (self.name, self.start as int)
    }
}

impl EncapsulationSection {
    /// Constructor for the type.
    pub fn new(name: SectionType, start: usize) -> (r: EncapsulationSection)
        ensures
            r@ == (name, start as int),
    {
        EncapsulationSection { name, start }
    }
}

/// The position of the first occurrence of `t` in `h` at or after `k`.
pub open spec fn sp_find_sub_from(h: Seq<u8>, t: Seq<u8>, k: int) -> Option<int>
    decreases h.len() - k,
{
    if k + t.len() > h.len() {
        Option::None
    } else if t.len() == 0 {
        Option::Some(k)
    } else if h.subrange(k, k + t.len()) == t {
        Option::Some(k)
    } else {
        sp_find_sub_from(h, t, k + 1)
    }
}

/// The position of the first occurrence of `t` in `h`.
pub open spec fn sp_find_sub(h: Seq<u8>, t: Seq<u8>) -> Option<int> {
    sp_find_sub_from(h, t, 0)
}

/// The position of the first occurrence of byte `b` in `h` at or after
/// `k`.
pub open spec fn sp_find_byte_from(h: Seq<u8>, b: u8, k: int) -> Option<int>
    decreases h.len() - k,
{
    if k >= h.len() {
        Option::None
    } else if h[k] == b {
        Option::Some(k)
    } else {
        sp_find_byte_from(h, b, k + 1)
    }
}

/// Every byte of `ds` is a decimal digit.
pub open spec fn all_digits(ds: Seq<u8>) -> bool {
    forall|x: int| 0 <= x < ds.len() ==> digit_byte(ds[x])
}

/// The value of a string of decimal digits.
pub open spec fn sp_dec_value(ds: Seq<u8>) -> int
    decreases ds.len(),
{
    if ds.len() == 0 {
        0
    } else {
        sp_dec_value(ds.drop_last()) * 10 + digit_value(ds.last())
    }
}

/// The offset listed for `tok` (a section token including its `=`) in
/// the header value `hv`: the decimal integer that follows the first
/// occurrence of `tok`, up to the next comma or the end of the value.
/// `None` when the token is absent or what follows it is not a machine
/// representable number.
pub open spec fn sp_section_start(hv: Seq<u8>, tok: Seq<u8>) -> Option<int> {
    match sp_find_sub(hv, tok) {
        Option::None => Option::None,
        Option::Some(x) => {
            let start = x + tok.len();
            let end = match sp_find_byte_from(hv, COMMA, start) {
                Option::Some(e) => e,
                Option::None => hv.len() as int,
            };
            let ds = hv.subrange(start, end);
            if ds.len() > 0 && all_digits(ds) && sp_dec_value(ds) <= usize::MAX {
                Option::Some(sp_dec_value(ds))
            } else {
                Option::None
            }
        },
    }
}

/// The value of a digit string is not negative.
pub proof fn lemma_dec_value_nonneg(ds: Seq<u8>)
    requires
        all_digits(ds),
    ensures
        sp_dec_value(ds) >= 0,
    decreases ds.len(),
{
    if ds.len() > 0 {
        assert(all_digits(ds.drop_last()));
        lemma_dec_value_nonneg(ds.drop_last());
    }
}

/// Extending a digit string on the right can only grow its value.
pub proof fn lemma_dec_value_monotone(ds: Seq<u8>, n: int)
    requires
        all_digits(ds),
        0 <= n <= ds.len(),
    ensures
        sp_dec_value(ds.take(n)) <= sp_dec_value(ds),
    decreases ds.len() - n,
{
    if n == ds.len() {
        assert(ds.take(n) =~= ds);
    } else {
        assert(all_digits(ds.take(n)));
        lemma_dec_value_nonneg(ds.take(n));
        assert(ds.take(n + 1).drop_last() =~= ds.take(n));
        assert(sp_dec_value(ds.take(n + 1)) == sp_dec_value(ds.take(n)) * 10 + digit_value(
            ds.take(n + 1).last(),
        ));
        lemma_dec_value_monotone(ds, n + 1);
    }
}

/// Whether `t` occurs in `h` at position `k`.
fn bytes_match_at(h: &[u8], t: &[u8], k: usize) -> (r: bool)
    requires
        k + t@.len() <= h@.len(),
    ensures
        r == (h@.subrange(k as int, k + t@.len()) == t@),
{
    let hlen = h.len();
    let mut q: usize = 0;
    while q < t.len()
        invariant
            hlen == h@.len(),
            q <= t@.len(),
            k + t@.len() <= h@.len(),
            forall|x: int| 0 <= x < q ==> h@[k + x] == t@[x],
        decreases t@.len() - q,
    {
        if h[k + q] != t[q] {
            proof {
                assert(h@.subrange(k as int, k + t@.len())[q as int] != t@[q as int]);
            }
            return false;
        }
        q = q + 1;
    }
    proof {
        assert(h@.subrange(k as int, k + t@.len()) =~= t@);
    }
    true
}

/// The first occurrence of `t` in `h`, searching forward.
fn find_sub(h: &[u8], t: &[u8]) -> (r: Option<usize>)
    ensures
        ({
            let sp = sp_find_sub(h@, t@);
            &&& (sp matches Option::Some(x) ==> r == Option::Some(x as usize) && 0 <= x && x
                + t@.len() <= h@.len())
            &&& (sp is None ==> r is None)
        }),
{
    let mut k: usize = 0;
    loop
        invariant
            k <= h@.len(),
            sp_find_sub(h@, t@) == sp_find_sub_from(h@, t@, k as int),
        decreases h@.len() - k,
    {
        if t.len() > h.len() - k {
            return Option::None;
        }
        if t.len() == 0 {
            return Option::Some(k);
        }
        if bytes_match_at(h, t, k) {
            return Option::Some(k);
        }
        k = k + 1;
    }
}

/// The first occurrence of byte `b` in `h` at or after `k0`.
fn find_byte_from(h: &[u8], b: u8, k0: usize) -> (r: Option<usize>)
    requires
        k0 <= h@.len(),
    ensures
        ({
            let sp = sp_find_byte_from(h@, b, k0 as int);
            &&& (sp matches Option::Some(x) ==> r == Option::Some(x as usize) && k0 <= x
                < h@.len())
            &&& (sp is None ==> r is None)
        }),
{
    let mut k = k0;
    loop
        invariant
            k0 <= k <= h@.len(),
            sp_find_byte_from(h@, b, k0 as int) == sp_find_byte_from(h@, b, k as int),
        decreases h@.len() - k,
    {
        if k >= h.len() {
            return Option::None;
        }
        if h[k] == b {
            return Option::Some(k);
        }
        k = k + 1;
    }
}

/// The value of the digit string `h[start..end]`, or `None` when the
/// range is empty, holds a non-digit, or its value does not fit.
fn parse_decimal(h: &[u8], start: usize, end: usize) -> (r: Option<usize>)
    requires
        start <= end <= h@.len(),
    ensures
        ({
            let ds = h@.subrange(start as int, end as int);
            if ds.len() > 0 && all_digits(ds) && sp_dec_value(ds) <= usize::MAX {
                r == Option::Some(sp_dec_value(ds) as usize) && 0 <= sp_dec_value(ds)
            } else {
                r is None
            }
        }),
{
    let ghost ds = h@.subrange(start as int, end as int);
    if start == end {
        return Option::None;
    }
    let mut acc: usize = 0;
    let mut p = start;
    while p < end
        invariant
            start <= p <= end <= h@.len(),
            ds == h@.subrange(start as int, end as int),
            forall|x: int| start <= x < p ==> digit_byte(h@[x]),
            acc == sp_dec_value(h@.subrange(start as int, p as int)),
        decreases end - p,
    {
        let b = h[p];
        if !(48 <= b && b <= 57) {
            proof {
                assert(ds[p - start] == h@[p as int]);
            }
            return Option::None;
        }
        let d = (b - 48) as usize;
        if acc > (usize::MAX - d) / 10 {
            proof {
                assert(acc * 10 + d > usize::MAX) by (nonlinear_arith)
                    requires
                        acc > (usize::MAX - d) / 10,
                        0 <= d <= 9,
                ;
                assert(h@.subrange(start as int, p + 1).drop_last() =~= h@.subrange(
                    start as int,
                    p as int,
                ));
                assert(sp_dec_value(h@.subrange(start as int, p + 1)) == acc * 10 + d);
                if all_digits(ds) {
                    assert(ds.take(p + 1 - start) =~= h@.subrange(start as int, p + 1));
                    lemma_dec_value_monotone(ds, p + 1 - start);
                }
            }
            return Option::None;
        }
        proof {
            assert(h@.subrange(start as int, p + 1).drop_last() =~= h@.subrange(
                start as int,
                p as int,
            ));
        }
        acc = acc * 10 + d;
        p = p + 1;
    }
    proof {
        assert(h@.subrange(start as int, p as int) =~= ds);
        assert(forall|x: int| 0 <= x < ds.len() ==> digit_byte(ds[x]));
    }
    Option::Some(acc)
}

/// The offset listed for `token` in the header value, as
/// [`sp_section_start`] prescribes.
pub(crate) fn find_section_start(header: &[u8], token: &[u8]) -> (r: Option<usize>)
    ensures
        ({
            let sp = sp_section_start(header@, token@);
            &&& (sp matches Option::Some(x) ==> r == Option::Some(x as usize) && 0 <= x
                <= usize::MAX)
            &&& (sp is None ==> r is None)
        }),
{
    let hlen = header.len();
    match find_sub(header, token) {
        Option::None => Option::None,
        Option::Some(x) => {
            let start = x + token.len();
            let end = match find_byte_from(header, COMMA, start) {
                Option::Some(e) => e,
                Option::None => header.len(),
            };
            parse_decimal(header, start, end)
        },
    }
}

/// The token `req-hdr=`.
pub open spec fn tok_req_hdr() -> Seq<u8> {
    seq![114u8, 101, 113, 45, 104, 100, 114, 61]
}

/// The token `req-body=`.
pub open spec fn tok_req_body() -> Seq<u8> {
    seq![114u8, 101, 113, 45, 98, 111, 100, 121, 61]
}

/// The token `null-body=`.
pub open spec fn tok_null_body() -> Seq<u8> {
    seq![110u8, 117, 108, 108, 45, 98, 111, 100, 121, 61]
}

/// The token `res-hdr=`.
pub open spec fn tok_res_hdr() -> Seq<u8> {
    seq![114u8, 101, 115, 45, 104, 100, 114, 61]
}

/// The token `res-body=`.
pub open spec fn tok_res_body() -> Seq<u8> {
    seq![114u8, 101, 115, 45, 98, 111, 100, 121, 61]
}

/// The token `opt-body=`.
pub open spec fn tok_opt_body() -> Seq<u8> {
    seq![111u8, 112, 116, 45, 98, 111, 100, 121, 61]
}

/// The models of a sequence of entries, in the same order.
pub open spec fn entry_views(es: Seq<EncapsulationSection>) -> Seq<(SectionType, int)> {
    es.map_values(|e: EncapsulationSection| e@)
}

/// The entry contributed by one token: a singleton when the token is
/// listed with a readable offset, empty otherwise.
pub open spec fn sp_entry(hv: Seq<u8>, kind: SectionType, tok: Seq<u8>) -> Seq<(SectionType, int)> {
    match sp_section_start(hv, tok) {
        Option::Some(o) => seq![(kind, o)],
        Option::None => Seq::empty(),
    }
}

/// The entries listed in the header value, in token order: `req-hdr`,
/// `req-body`, `null-body`, `res-hdr`, `res-body`, `opt-body`.
pub open spec fn sp_entries(hv: Seq<u8>) -> Seq<(SectionType, int)> {
    sp_entry(hv, SectionType::RequestHeader, tok_req_hdr()) + sp_entry(
        hv,
        SectionType::RequestBody,
        tok_req_body(),
    ) + sp_entry(hv, SectionType::NullBody, tok_null_body()) + sp_entry(
        hv,
        SectionType::ResponseHeader,
        tok_res_hdr(),
    ) + sp_entry(hv, SectionType::ResponseBody, tok_res_body()) + sp_entry(
        hv,
        SectionType::OptionsBody,
        tok_opt_body(),
    )
}

/// Stable insertion of an entry into a list sorted by ascending start
/// offset: the entry lands before the first element with an equal or
/// larger offset.
pub open spec fn sp_insert_entry(
    e: (SectionType, int),
    sorted: Seq<(SectionType, int)>,
) -> Seq<(SectionType, int)>
    decreases sorted.len(),
{
    if sorted.len() == 0 {
        seq![e]
    } else if e.1 <= sorted[0].1 {
        seq![e] + sorted
    } else {
        seq![sorted[0]] + sp_insert_entry(e, sorted.drop_first())
    }
}

/// Stable insertion sort of the entries by ascending start offset.
pub open spec fn sp_sort_entries(entries: Seq<(SectionType, int)>) -> Seq<(SectionType, int)>
    decreases entries.len(),
{
    if entries.len() == 0 {
        Seq::empty()
    } else {
        sp_insert_entry(entries[0], sp_sort_entries(entries.drop_first()))
    }
}

/// The entries of the header value, sorted by ascending start offset.
pub open spec fn sp_sorted_entries(hv: Seq<u8>) -> Seq<(SectionType, int)> {
    sp_sort_entries(sp_entries(hv))
}

/// The bytes of one section: `tr[start..end]`, with both bounds clamped
/// to the stream so that an offset beyond the stream yields an empty
/// section rather than none.
pub open spec fn sp_section_slice(tr: Seq<u8>, start: int, end: int) -> Seq<u8> {
    let lo = if start > tr.len() {
        tr.len() as int
    } else {
        start
    };
    let hi = if end > tr.len() {
        tr.len() as int
    } else {
        end
    };
    if hi < lo {
        Seq::empty()
    } else {
        tr.subrange(lo, hi)
    }
}

/// The mapping from section kind to section bytes that the
/// `Encapsulated` header value `hv` induces on the trailing stream
/// `tr`: entries ordered by ascending offset, each section running to
/// the start of the next and the last to the end of the stream.
pub open spec fn sp_encapsulated(hv: Seq<u8>, tr: Seq<u8>) -> Seq<(SectionType, Seq<u8>)> {
    let sorted = sp_sorted_entries(hv);
    Seq::new(
        sorted.len(),
        |i: int|
            (
                sorted[i].0,
                sp_section_slice(
                    tr,
                    sorted[i].1,
                    if i + 1 < sorted.len() {
                        sorted[i + 1].1
                    } else {
                        tr.len() as int
                    },
                ),
            ),
    )
}

/// The models of a sequence of sections, in the same order.
pub open spec fn sections_view(ss: Seq<(SectionType, Vec<u8>)>) -> Seq<(SectionType, Seq<u8>)> {
    ss.map_values(|p: (SectionType, Vec<u8>)| (p.0, p.1@))
}

/// Where [`sp_insert_entry`] puts the new entry: before the first
/// element whose offset is equal or larger.
proof fn lemma_insert_entry_at(e: (SectionType, int), w: Seq<(SectionType, int)>, p: int)
    requires
        0 <= p <= w.len(),
        forall|q: int| 0 <= q < p ==> w[q].1 < e.1,
        p < w.len() ==> e.1 <= w[p].1,
    ensures
        sp_insert_entry(e, w) == w.take(p) + seq![e] + w.skip(p),
    decreases p,
{
    if p == 0 {
        if w.len() == 0 {
            assert(sp_insert_entry(e, w) =~= w.take(0) + seq![e] + w.skip(0));
        } else {
            assert(sp_insert_entry(e, w) =~= w.take(0) + seq![e] + w.skip(0));
        }
    } else {
        assert(w[0].1 < e.1);
        lemma_insert_entry_at(e, w.drop_first(), p - 1);
        assert(seq![w[0]] + (w.drop_first().take(p - 1) + seq![e] + w.drop_first().skip(p - 1))
            =~= w.take(p) + seq![e] + w.skip(p));
    }
}

/// Inserts `e` into `v`, kept sorted by ascending start offset, as
/// [`sp_insert_entry`] prescribes.
fn insert_entry(v: &mut Vec<EncapsulationSection>, e: EncapsulationSection)
    ensures
        entry_views(final(v)@) == sp_insert_entry(e@, entry_views(old(v)@)),
{
    let mut p: usize = 0;
    while p < v.len() && v[p].start < e.start
        invariant
            p <= v@.len(),
            forall|q: int| 0 <= q < p ==> entry_views(v@)[q].1 < e@.1,
        decreases v@.len() - p,
    {
        proof {
            assert(entry_views(v@)[p as int] == v@[p as int]@);
        }
        p = p + 1;
    }
    proof {
        assert(p < v@.len() ==> entry_views(v@)[p as int] == v@[p as int]@);
        lemma_insert_entry_at(e@, entry_views(v@), p as int);
    }
    let ghost w = entry_views(v@);
    v.insert(p, e);
    proof {
        assert(entry_views(v@) =~= w.take(p as int) + seq![e@] + w.skip(p as int));
    }
}

/// Records the entry for one section token, if the header value lists
/// it.
fn push_section(
    entries: &mut Vec<EncapsulationSection>,
    header: &[u8],
    token: &[u8],
    kind: SectionType,
)
    ensures
        entry_views(final(entries)@) == entry_views(old(entries)@) + sp_entry(
            header@,
            kind,
            token@,
        ),
{
    let ghost w = entry_views(entries@);
    match find_section_start(header, token) {
        Option::Some(o) => {
            entries.push(EncapsulationSection::new(kind, o));
            proof {
                assert(entry_views(entries@) =~= w + sp_entry(header@, kind, token@));
            }
        },
        Option::None => {
            proof {
                assert(entry_views(entries@) =~= w + sp_entry(header@, kind, token@));
            }
        },
    }
}

/// Interprets the `Encapsulated` header value `header` against the
/// trailing stream `trailing`, as [`sp_encapsulated`] prescribes: one
/// pair per listed section, ordered by ascending offset, each section's
/// bytes running to the start of the next and the last to the end of
/// the stream.
pub(crate) fn parse_encapsulated(header: &[u8], trailing: &[u8]) -> (r: Vec<(SectionType, Vec<u8>)>)
    ensures
        sections_view(r@) == sp_encapsulated(header@, trailing@),
{
    let req_hdr_tok: [u8; 8] = [114u8, 101, 113, 45, 104, 100, 114, 61];  // "req-hdr="
    let req_body_tok: [u8; 9] = [114u8, 101, 113, 45, 98, 111, 100, 121, 61];  // "req-body="
    let null_body_tok: [u8; 10] = [110u8, 117, 108, 108, 45, 98, 111, 100, 121, 61];  // "null-body="
    let res_hdr_tok: [u8; 8] = [114u8, 101, 115, 45, 104, 100, 114, 61];  // "res-hdr="
    let res_body_tok: [u8; 9] = [114u8, 101, 115, 45, 98, 111, 100, 121, 61];  // "res-body="
    let opt_body_tok: [u8; 9] = [111u8, 112, 116, 45, 98, 111, 100, 121, 61];  // "opt-body="
    let mut entries: Vec<EncapsulationSection> = Vec::new();
    push_section(&mut entries, header, req_hdr_tok.as_slice(), SectionType::RequestHeader);
    push_section(&mut entries, header, req_body_tok.as_slice(), SectionType::RequestBody);
    push_section(&mut entries, header, null_body_tok.as_slice(), SectionType::NullBody);
    push_section(&mut entries, header, res_hdr_tok.as_slice(), SectionType::ResponseHeader);
    push_section(&mut entries, header, res_body_tok.as_slice(), SectionType::ResponseBody);
    push_section(&mut entries, header, opt_body_tok.as_slice(), SectionType::OptionsBody);
    proof {
        assert(entry_views(entries@) =~= sp_entries(header@));
    }
    let mut sorted: Vec<EncapsulationSection> = Vec::new();
    let mut idx = entries.len();
    while idx > 0
        invariant
            idx <= entries@.len(),
            entry_views(entries@) == sp_entries(header@),
            entry_views(sorted@) == sp_sort_entries(entry_views(entries@).skip(idx as int)),
        decreases idx,
    {
        idx = idx - 1;
        let ghost pre = entry_views(entries@).skip(idx + 1);
        proof {
            assert(entry_views(entries@)[idx as int] == entries@[idx as int]@);
            assert(entry_views(entries@).skip(idx as int).drop_first() =~= pre);
            assert(entry_views(entries@).skip(idx as int)[0] == entries@[idx as int]@);
        }
        let e = entries[idx];
        insert_entry(&mut sorted, e);
    }
    proof {
        assert(entry_views(entries@).skip(0) =~= entry_views(entries@));
        assert(entry_views(sorted@) == sp_sorted_entries(header@));
    }
    let mut out: Vec<(SectionType, Vec<u8>)> = Vec::new();
    let tlen = trailing.len();
    let n = sorted.len();
    let mut i: usize = 0;
    while i < n
        invariant
            i <= n,
            n == sorted@.len(),
            tlen == trailing@.len(),
            entry_views(sorted@) == sp_sorted_entries(header@),
            sections_view(out@) == sp_encapsulated(header@, trailing@).take(i as int),
        decreases n - i,
    {
        proof {
            assert(entry_views(sorted@)[i as int] == sorted@[i as int]@);
            assert(i + 1 < n ==> entry_views(sorted@)[i + 1] == sorted@[i + 1]@);
        }
        let start = sorted[i].start;
        let kind = sorted[i].name;
        let end_raw = if i + 1 < n {
            sorted[i + 1].start
        } else {
            tlen
        };
        let lo = if start > tlen {
            tlen
        } else {
            start
        };
        let hi0 = if end_raw > tlen {
            tlen
        } else {
            end_raw
        };
        let hi = if hi0 < lo {
            lo
        } else {
            hi0
        };
        let bytes = slice_to_vec(slice_subrange(trailing, lo, hi));
        let ghost prev = sections_view(out@);
        out.push((kind, bytes));
        proof {
            let spe = sp_encapsulated(header@, trailing@);
            let sv = sp_sorted_entries(header@);
            let end_spec = if i + 1 < sv.len() {
                sv[i + 1].1
            } else {
                trailing@.len() as int
            };
            assert(sv[i as int] == sorted@[i as int]@);
            assert(spe[i as int] == (
                sv[i as int].0,
                sp_section_slice(trailing@, sv[i as int].1, end_spec),
            ));
            assert(sp_section_slice(trailing@, sv[i as int].1, end_spec) =~= trailing@.subrange(
                lo as int,
                hi as int,
            ));
            assert(spe[i as int] =~= (kind, trailing@.subrange(lo as int, hi as int)));
            assert(sections_view(out@) =~= prev.push(spe[i as int]));
            assert(spe.take(i + 1) =~= prev.push(spe[i as int]));
            assert(sections_view(out@) == spe.take(i + 1));
        }
        i = i + 1;
    }
    proof {
        assert(sp_encapsulated(header@, trailing@).take(n as int) =~= sp_encapsulated(
            header@,
            trailing@,
        ));
    }
    out
}

} // verus!

//! Laws of the parser, stated over the grammar model and proved once
//! and for all.

use vstd::prelude::*;

use crate::chunk::hex_bound;
use crate::chunk::sp_chunk;
use crate::chunk::sp_chunk_size;
use crate::chunk::ChunkStep;
use crate::classify::header_name_byte;
use crate::classify::header_value_byte;
use crate::classify::hex_digit_byte;
use crate::classify::hex_digit_value;
use crate::classify::reason_byte;
use crate::classify::token_byte;
use crate::encapsulated::sp_encapsulated;
use crate::encapsulated::sp_entries;
use crate::encapsulated::sp_insert_entry;
use crate::encapsulated::sp_section_slice;
use crate::encapsulated::sp_sort_entries;
use crate::encapsulated::sp_sorted_entries;
use crate::encapsulated::SectionType;
use crate::model::sp_code;
use crate::model::sp_empty_lines;
use crate::model::sp_header_name;
use crate::model::sp_header_ows;
use crate::model::sp_header_value;
use crate::model::sp_headers;
use crate::model::sp_headers_at;
use crate::model::sp_newline;
use crate::model::sp_reason;
use crate::model::sp_reason_from;
use crate::model::sp_token;
use crate::model::sp_token_from;
use crate::model::sp_version;
use crate::model::HeaderModel;
use crate::model::COLON;
use crate::model::CR;
use crate::model::HTAB;
use crate::model::LF;
use crate::model::SP;
use crate::request::sp_request;
use crate::response::sp_response;

verus! {

// ---------------------------------------------------------------------
// Header capacity
// ---------------------------------------------------------------------

proof fn lemma_headers_at_count(s: Seq<u8>, i: int, cap: int, acc: Seq<HeaderModel>)
    requires
        sp_headers_at(s, i, cap, acc) is Done,
        acc.len() <= cap,
    ensures
        acc.len() <= sp_headers_at(s, i, cap, acc)->val.len() <= cap,
    decreases s.len() - i, 3int,
{
    if i >= s.len() {
    } else if s[i] == CR {
    } else if s[i] == LF {
    } else if !header_name_byte(s[i]) {
    } else if acc.len() >= cap {
    } else {
        lemma_header_name_count(s, i, i + 1, cap, acc);
    }
}

proof fn lemma_header_name_count(s: Seq<u8>, start: int, j: int, cap: int, acc: Seq<HeaderModel>)
    requires
        sp_header_name(s, start, j, cap, acc) is Done,
        acc.len() < cap,
    ensures
        acc.len() < sp_header_name(s, start, j, cap, acc)->val.len() <= cap,
    decreases s.len() - j, 3int,
{
    if j >= s.len() {
    } else if s[j] == COLON {
        lemma_header_ows_count(s, s.subrange(start, j), j + 1, cap, acc);
    } else if header_name_byte(s[j]) {
        lemma_header_name_count(s, start, j + 1, cap, acc);
    }
}

proof fn lemma_header_ows_count(
    s: Seq<u8>,
    name: Seq<u8>,
    k: int,
    cap: int,
    acc: Seq<HeaderModel>,
)
    requires
        sp_header_ows(s, name, k, cap, acc) is Done,
        acc.len() < cap,
    ensures
        acc.len() < sp_header_ows(s, name, k, cap, acc)->val.len() <= cap,
    decreases s.len() - k, 1int,
{
    if k >= s.len() {
    } else if s[k] == SP || s[k] == HTAB {
        lemma_header_ows_count(s, name, k + 1, cap, acc);
    } else {
        lemma_header_value_count(s, name, k, k, cap, acc);
    }
}

proof fn lemma_header_value_count(
    s: Seq<u8>,
    name: Seq<u8>,
    vstart: int,
    m: int,
    cap: int,
    acc: Seq<HeaderModel>,
)
    requires
        sp_header_value(s, name, vstart, m, cap, acc) is Done,
        acc.len() < cap,
    ensures
        acc.len() < sp_header_value(s, name, vstart, m, cap, acc)->val.len() <= cap,
    decreases s.len() - m, 0int,
{
    if m >= s.len() {
    } else if header_value_byte(s[m]) {
        lemma_header_value_count(s, name, vstart, m + 1, cap, acc);
    } else if s[m] == CR {
        if m + 1 < s.len() && s[m + 1] == LF {
            lemma_headers_at_count(
                s,
                m + 2,
                cap,
                acc.push(HeaderModel { name, value: s.subrange(vstart, m) }),
            );
        }
    } else if s[m] == LF {
        lemma_headers_at_count(
            s,
            m + 1,
            cap,
            acc.push(HeaderModel { name, value: s.subrange(vstart, m) }),
        );
    }
}

/// Header-array shrinkage: a successful header-block parse yields the
/// headers in input order (that is what the parsers' contracts state
/// directly), and never more of them than the caller's capacity.
pub proof fn lemma_headers_within_capacity(s: Seq<u8>, i: int, cap: int)
    requires
        sp_headers(s, i, cap) is Done,
        cap >= 0,
    ensures
        sp_headers(s, i, cap)->val.len() <= cap,
{
    lemma_headers_at_count(s, i, cap, Seq::empty());
}

// ---------------------------------------------------------------------
// Encapsulated partition
// ---------------------------------------------------------------------

/// The entry lists are ordered by ascending start offset.
pub open spec fn entries_ascending(es: Seq<(SectionType, int)>) -> bool {
    forall|i: int| 0 <= i < es.len() - 1 ==> #[trigger] es[i].1 <= es[i + 1].1
}

proof fn lemma_insert_entry_sorted(e: (SectionType, int), w: Seq<(SectionType, int)>)
    requires
        entries_ascending(w),
    ensures
        entries_ascending(sp_insert_entry(e, w)),
    decreases w.len(),
{
    if w.len() == 0 {
    } else if e.1 <= w[0].1 {
        let out = seq![e] + w;
        assert forall|i: int| 0 <= i < out.len() - 1 implies #[trigger] out[i].1 <= out[i + 1].1 by {
            if i > 0 {
                assert(out[i] == w[i - 1]);
                assert(out[i + 1] == w[i]);
            }
        }
    } else {
        lemma_insert_entry_sorted(e, w.drop_first());
        assert forall|i: int| 0 <= i < w.drop_first().len() - 1 implies #[trigger] w.drop_first()[i].1
            <= w.drop_first()[i + 1].1 by {
            assert(w.drop_first()[i] == w[i + 1]);
            assert(w.drop_first()[i + 1] == w[i + 2]);
        }
        let rest = sp_insert_entry(e, w.drop_first());
        let out = seq![w[0]] + rest;
        assert(rest.len() > 0);
        assert(rest[0].1 >= if w.len() == 1 {
            e.1
        } else {
            if e.1 <= w[1].1 {
                e.1
            } else {
                w[1].1
            }
        });
        assert forall|i: int| 0 <= i < out.len() - 1 implies #[trigger] out[i].1 <= out[i + 1].1 by {
            if i == 0 {
                assert(out[1] == rest[0]);
                if w.len() == 1 {
                    assert(rest[0] == e);
                } else {
                    if e.1 <= w.drop_first()[0].1 {
                        assert(rest[0] == e);
                    } else {
                        assert(rest[0] == w.drop_first()[0]);
                        assert(w.drop_first()[0] == w[1]);
                    }
                }
            } else {
                assert(out[i] == rest[i - 1]);
                assert(out[i + 1] == rest[i]);
            }
        }
    }
}

/// The sorted entry list is ordered by ascending start offset.
pub proof fn lemma_sort_entries_ascending(es: Seq<(SectionType, int)>)
    ensures
        entries_ascending(sp_sort_entries(es)),
    decreases es.len(),
{
    if es.len() > 0 {
        lemma_sort_entries_ascending(es.drop_first());
        lemma_insert_entry_sorted(es[0], sp_sort_entries(es.drop_first()));
    }
}


proof fn lemma_insert_entry_distinct(e: (SectionType, int), w: Seq<(SectionType, int)>)
    requires
        forall|q1: int, q2: int| 0 <= q1 < q2 < w.len() ==> w[q1].1 < w[q2].1,
        forall|q: int| 0 <= q < w.len() ==> w[q].1 != e.1,
    ensures
        sp_insert_entry(e, w).len() == w.len() + 1,
        forall|q1: int, q2: int|
            0 <= q1 < q2 < sp_insert_entry(e, w).len() ==> sp_insert_entry(e, w)[q1].1
                < sp_insert_entry(e, w)[q2].1,
        forall|q: int|
            0 <= q < sp_insert_entry(e, w).len() ==> (#[trigger] sp_insert_entry(e, w)[q]) == e
                || exists|p: int| 0 <= p < w.len() && sp_insert_entry(e, w)[q] == w[p],
    decreases w.len(),
{
    let out = sp_insert_entry(e, w);
    if w.len() == 0 {
        assert(out[0] == e);
    } else if e.1 <= w[0].1 {
        assert(out[0] == e);
        assert forall|q: int| 0 <= q < out.len() implies (#[trigger] out[q]) == e || exists|p: int|
            0 <= p < w.len() && out[q] == w[p] by {
            if q > 0 {
                assert(out[q] == w[q - 1]);
            }
        }
        assert forall|q1: int, q2: int| 0 <= q1 < q2 < out.len() implies out[q1].1 < out[q2].1 by {
            if q1 > 0 {
                assert(out[q1] == w[q1 - 1] && out[q2] == w[q2 - 1]);
            } else {
                assert(out[q2] == w[q2 - 1]);
                assert(w[0].1 <= w[q2 - 1].1);
            }
        }
    } else {
        let wdf = w.drop_first();
        assert(forall|q1: int, q2: int|
            0 <= q1 < q2 < wdf.len() ==> (#[trigger] wdf[q1]).1 < (#[trigger] wdf[q2]).1);
        assert(forall|q: int| 0 <= q < wdf.len() ==> (#[trigger] wdf[q]).1 != e.1);
        lemma_insert_entry_distinct(e, wdf);
        let rest = sp_insert_entry(e, wdf);
        assert(out == seq![w[0]] + rest);
        assert(rest[0] == e || exists|p: int| 0 <= p < wdf.len() && rest[0] == wdf[p]);
        assert(w[0].1 < rest[0].1) by {
            if rest[0] != e {
                let p = choose|p: int| 0 <= p < wdf.len() && rest[0] == wdf[p];
                assert(wdf[p] == w[p + 1]);
            }
        }
        assert forall|q1: int, q2: int| 0 <= q1 < q2 < out.len() implies out[q1].1 < out[q2].1 by {
            if q1 > 0 {
                assert(out[q1] == rest[q1 - 1] && out[q2] == rest[q2 - 1]);
            } else {
                assert(out[q2] == rest[q2 - 1]);
                assert(rest[0].1 <= rest[q2 - 1].1);
            }
        }
        assert forall|q: int| 0 <= q < out.len() implies (#[trigger] out[q]) == e || exists|p: int|
            0 <= p < w.len() && out[q] == w[p] by {
            if q > 0 {
                assert(out[q] == rest[q - 1]);
                if rest[q - 1] != e {
                    let p = choose|p: int| 0 <= p < wdf.len() && rest[q - 1] == wdf[p];
                    assert(out[q] == w[p + 1]);
                }
            } else {
                assert(out[0] == w[0]);
            }
        }
    }
}

/// Sorting a list of entries with pairwise distinct offsets yields a
/// strictly ascending list of the same entries.
pub proof fn lemma_sort_entries_strict(es: Seq<(SectionType, int)>)
    requires
        forall|q1: int, q2: int| 0 <= q1 < q2 < es.len() ==> es[q1].1 != es[q2].1,
    ensures
        sp_sort_entries(es).len() == es.len(),
        forall|q1: int, q2: int|
            0 <= q1 < q2 < es.len() ==> sp_sort_entries(es)[q1].1 < sp_sort_entries(es)[q2].1,
        forall|q: int|
            0 <= q < es.len() ==> exists|p: int| 0 <= p < es.len() && (#[trigger] sp_sort_entries(
                es,
            )[q]) == es[p],
    decreases es.len(),
{
    if es.len() > 0 {
        let tail = es.drop_first();
        assert(forall|q1: int, q2: int|
            0 <= q1 < q2 < tail.len() ==> (#[trigger] tail[q1]).1 != (#[trigger] tail[q2]).1);
        lemma_sort_entries_strict(tail);
        let ts = sp_sort_entries(tail);
        assert forall|q: int| 0 <= q < ts.len() implies (#[trigger] ts[q]).1 != es[0].1 by {
            let p = choose|p: int| 0 <= p < tail.len() && ts[q] == tail[p];
            assert(tail[p] == es[p + 1]);
        }
        lemma_insert_entry_distinct(es[0], ts);
        let out = sp_sort_entries(es);
        assert(out == sp_insert_entry(es[0], ts));
        assert forall|q: int| 0 <= q < es.len() implies exists|p: int| 0 <= p < es.len() && (
        #[trigger] out[q]) == es[p] by {
            if out[q] == es[0] {
                assert(out[q] == es[0]);
            } else {
                let p = choose|p: int| 0 <= p < ts.len() && out[q] == ts[p];
                let p2 = choose|p2: int| 0 <= p2 < tail.len() && ts[p] == tail[p2];
                assert(out[q] == es[p2 + 1]);
            }
        }
    }
}

/// Encapsulated partition: for a header value that lists pairwise
/// distinct offsets, all within the trailing stream, the sections come
/// out in strictly ascending offset order, each section's bytes run
/// from its own offset to the next entry's offset, and the last
/// section runs to the end of the stream.  So every byte of the stream
/// from the first offset on lands in exactly one section.
pub proof fn lemma_encapsulated_partition(hv: Seq<u8>, tr: Seq<u8>)
    requires
        forall|i: int|
            0 <= i < sp_entries(hv).len() ==> 0 <= (#[trigger] sp_entries(hv)[i]).1 <= tr.len(),
        forall|q1: int, q2: int|
            0 <= q1 < q2 < sp_entries(hv).len() ==> sp_entries(hv)[q1].1 != sp_entries(hv)[q2].1,
    ensures
        sp_encapsulated(hv, tr).len() == sp_sorted_entries(hv).len(),
        forall|q1: int, q2: int|
            0 <= q1 < q2 < sp_sorted_entries(hv).len() ==> sp_sorted_entries(hv)[q1].1
                < sp_sorted_entries(hv)[q2].1,
        forall|i: int|
            0 <= i < sp_sorted_entries(hv).len() ==> (#[trigger] sp_encapsulated(hv, tr)[i]).0
                == sp_sorted_entries(hv)[i].0,
        forall|i: int|
            0 <= i < sp_sorted_entries(hv).len() - 1 ==> (#[trigger] sp_encapsulated(hv, tr)[i]).1
                == tr.subrange(sp_sorted_entries(hv)[i].1, sp_sorted_entries(hv)[i + 1].1),
        sp_sorted_entries(hv).len() > 0 ==> sp_encapsulated(hv, tr)[sp_sorted_entries(
            hv,
        ).len() - 1].1 == tr.subrange(
            sp_sorted_entries(hv)[sp_sorted_entries(hv).len() - 1].1,
            tr.len() as int,
        ),
{
    let sorted = sp_sorted_entries(hv);
    let out = sp_encapsulated(hv, tr);
    lemma_sort_entries_strict(sp_entries(hv));
    assert forall|i: int| 0 <= i < sorted.len() implies 0 <= (#[trigger] sorted[i]).1
        <= tr.len() by {
        let p = choose|p: int| 0 <= p < sp_entries(hv).len() && sorted[i] == sp_entries(hv)[p];
        assert(0 <= sp_entries(hv)[p].1 <= tr.len());
    }
    assert forall|i: int| 0 <= i < sorted.len() - 1 implies (#[trigger] out[i]).1 == tr.subrange(
        sorted[i].1,
        sorted[i + 1].1,
    ) by {
        assert(sp_section_slice(tr, sorted[i].1, sorted[i + 1].1) == tr.subrange(
            sorted[i].1,
            sorted[i + 1].1,
        ));
    }
    if sorted.len() > 0 {
        let last = sorted.len() - 1;
        assert(sp_section_slice(tr, sorted[last].1, tr.len() as int) == tr.subrange(
            sorted[last].1,
            tr.len() as int,
        ));
    }
}

// ---------------------------------------------------------------------
// Chunk-size round trip
// ---------------------------------------------------------------------

/// The value of a string of hexadecimal digits.
pub open spec fn sp_hex_value(ds: Seq<u8>) -> int
    decreases ds.len(),
{
    if ds.len() == 0 {
        0
    } else {
        sp_hex_value(ds.drop_last()) * 16 + hex_digit_value(ds.last())
    }
}

/// The lowercase hexadecimal digit with value `d`.
pub open spec fn hex_digit_of(d: int) -> u8 {
    if d < 10 {
        (48 + d) as u8
    } else {
        (87 + d) as u8
    }
}

/// The minimal lowercase hexadecimal rendering of `v >= 0`.
pub open spec fn hex_repr(v: int) -> Seq<u8>
    decreases v,
{
    if v < 16 {
        seq![hex_digit_of(v)]
    } else {
        hex_repr(v / 16).push(hex_digit_of(v % 16))
    }
}

proof fn lemma_hex_repr_digits(v: int)
    requires
        0 <= v,
    ensures
        1 <= hex_repr(v).len(),
        forall|x: int| 0 <= x < hex_repr(v).len() ==> hex_digit_byte(#[trigger] hex_repr(v)[x]),
        sp_hex_value(hex_repr(v)) == v,
    decreases v,
{
    if v < 16 {
        assert(hex_repr(v) == seq![hex_digit_of(v)]);
        assert(hex_repr(v).drop_last() =~= Seq::<u8>::empty());
        assert(sp_hex_value(Seq::<u8>::empty()) == 0);
        assert(hex_repr(v).last() == hex_digit_of(v));
        assert(sp_hex_value(hex_repr(v)) == sp_hex_value(Seq::<u8>::empty()) * 16
            + hex_digit_value(hex_digit_of(v)));
        assert(hex_digit_value(hex_digit_of(v)) == v);
    } else {
        lemma_hex_repr_digits(v / 16);
        let pre = hex_repr(v / 16);
        let out = pre.push(hex_digit_of(v % 16));
        assert(out.drop_last() =~= pre);
        assert(hex_digit_value(hex_digit_of(v % 16)) == v % 16);
        assert(sp_hex_value(out) == (v / 16) * 16 + v % 16);
        vstd::arithmetic::div_mod::lemma_fundamental_div_mod(v, 16);
    }
}

proof fn lemma_hex_repr_len(v: int, c: int)
    requires
        0 <= v < hex_bound(c),
        1 <= c,
    ensures
        hex_repr(v).len() <= c,
    decreases v,
{
    if v < 16 {
    } else {
        assert(hex_bound(c) == 16 * hex_bound(c - 1));
        if c - 1 < 1 {
            assert(hex_bound(c) == 16);
            assert(false);
        }
        lemma_hex_repr_len(v / 16, c - 1);
    }
}

proof fn lemma_chunk_digits(s: Seq<u8>, dn: int, j: int)
    requires
        0 <= j <= dn,
        dn + 2 == s.len(),
        forall|x: int| 0 <= x < dn ==> hex_digit_byte(#[trigger] s[x]),
        s[dn] == CR,
        s[dn + 1] == LF,
        1 <= dn <= 16,
    ensures
        sp_chunk(s, j, sp_hex_value(s.take(j)), j, true, false) == (ChunkStep::Done {
            next: dn + 2,
            size: sp_hex_value(s.take(dn)),
        }),
    decreases dn - j,
{
    if j == dn {
        assert(!hex_digit_byte(CR));
    } else {
        assert(hex_digit_byte(s[j]));
        assert(s.take(j + 1).drop_last() =~= s.take(j));
        assert(sp_hex_value(s.take(j + 1)) == sp_hex_value(s.take(j)) * 16 + hex_digit_value(
            s[j],
        ));
        lemma_chunk_digits(s, dn, j + 1);
    }
}

/// Chunk-size round trip: for every 64-bit value `v`, the line
/// `hex(v)` followed by `\r\n` parses completely, consuming the whole
/// line and yielding `v`.
pub proof fn lemma_chunk_size_round_trip(v: u64)
    ensures
        ({
            let line = hex_repr(v as int) + seq![CR, LF];
            sp_chunk_size(line) == (ChunkStep::Done {
                next: hex_repr(v as int).len() as int + 2,
                size: v as int,
            })
        }),
{
    let ds = hex_repr(v as int);
    let line = ds + seq![CR, LF];
    lemma_hex_repr_digits(v as int);
    assert(hex_bound(16) == 0x10000000000000000) by {
        reveal_with_fuel(hex_bound, 17);
    }
    lemma_hex_repr_len(v as int, 16);
    assert(forall|x: int| 0 <= x < ds.len() ==> line[x] == #[trigger] ds[x]);
    assert(line[ds.len() as int] == CR);
    assert(line[ds.len() as int + 1] == LF);
    assert(line.take(0) =~= Seq::<u8>::empty());
    assert(line.take(ds.len() as int) =~= ds);
    lemma_chunk_digits(line, ds.len() as int, 0);
}


// ---------------------------------------------------------------------
// Prefix invariance
// ---------------------------------------------------------------------

proof fn lemma_empty_lines_prefix(s: Seq<u8>, i: int, k: int)
    requires
        0 <= i,
        sp_empty_lines(s, i) is Done,
        0 <= k <= s.len(),
    ensures
        ({
            let st = sp_empty_lines(s, i);
            &&& i <= st->next < s.len()
            &&& (k > st->next ==> sp_empty_lines(s.take(k), i) == st)
            &&& (k <= st->next ==> sp_empty_lines(s.take(k), i) is More)
        }),
    decreases s.len() - i,
{
    let st = sp_empty_lines(s, i);
    let t = s.take(k);
    if i >= s.len() {
    } else if s[i] == CR {
        lemma_empty_lines_prefix(s, i + 2, k);
        if k > i + 1 {
            assert(t[i] == CR && t[i + 1] == LF);
        } else if k > i {
            assert(t[i] == CR);
        }
    } else if s[i] == LF {
        lemma_empty_lines_prefix(s, i + 1, k);
        if k > i {
            assert(t[i] == LF);
        }
    } else {
        if k > i {
            assert(t[i] == s[i]);
        }
    }
}

proof fn lemma_token_prefix(s: Seq<u8>, start: int, j: int, k: int)
    requires
        0 <= start <= j,
        sp_token_from(s, start, j) is Done,
        0 <= k <= s.len(),
    ensures
        ({
            let st = sp_token_from(s, start, j);
            &&& j <= st->next - 1 < s.len()
            &&& start < st->next - 1
            &&& st->val == s.subrange(start, st->next - 1)
            &&& (k >= st->next ==> sp_token_from(s.take(k), start, j) == st)
            &&& (k < st->next ==> sp_token_from(s.take(k), start, j) is More)
        }),
    decreases s.len() - j,
{
    let st = sp_token_from(s, start, j);
    let t = s.take(k);
    if j >= s.len() {
    } else if s[j] == SP {
        if k >= j + 1 {
            assert(t[j] == SP);
            assert(t.subrange(start, j) =~= s.subrange(start, j));
        }
    } else if token_byte(s[j]) {
        lemma_token_prefix(s, start, j + 1, k);
        if k > j {
            assert(t[j] == s[j]);
        }
    }
}

proof fn lemma_version_prefix(s: Seq<u8>, i: int, k: int)
    requires
        0 <= i,
        sp_version(s, i) is Done,
        0 <= k <= s.len(),
    ensures
        ({
            let st = sp_version(s, i);
            &&& st->next == i + 8
            &&& i + 8 <= s.len()
            &&& (k >= i + 8 ==> sp_version(s.take(k), i) == st)
            &&& (k < i + 8 ==> sp_version(s.take(k), i) is More)
        }),
{
    let t = s.take(k);
    if k >= i + 8 {
        assert(t[i] == s[i] && t[i + 1] == s[i + 1] && t[i + 2] == s[i + 2] && t[i + 3] == s[i
            + 3] && t[i + 4] == s[i + 4] && t[i + 5] == s[i + 5] && t[i + 6] == s[i + 6] && t[i
            + 7] == s[i + 7]);
    }
}

proof fn lemma_newline_prefix(s: Seq<u8>, i: int, k: int)
    requires
        0 <= i,
        sp_newline(s, i) is Done,
        0 <= k <= s.len(),
    ensures
        ({
            let st = sp_newline(s, i);
            &&& i < st->next <= s.len()
            &&& (k >= st->next ==> sp_newline(s.take(k), i) == st)
            &&& (k < st->next ==> sp_newline(s.take(k), i) is More)
        }),
{
    let t = s.take(k);
    if s[i] == CR {
        if k >= i + 2 {
            assert(t[i] == CR && t[i + 1] == LF);
        } else if k > i {
            assert(t[i] == CR);
        }
    } else {
        if k > i {
            assert(t[i] == LF);
        }
    }
}

proof fn lemma_code_prefix(s: Seq<u8>, i: int, k: int)
    requires
        0 <= i,
        sp_code(s, i) is Done,
        0 <= k <= s.len(),
    ensures
        ({
            let st = sp_code(s, i);
            &&& st->next == i + 3
            &&& i + 3 <= s.len()
            &&& (k >= i + 3 ==> sp_code(s.take(k), i) == st)
            &&& (k < i + 3 ==> sp_code(s.take(k), i) is More)
        }),
{
    let t = s.take(k);
    if k > i {
        assert(t[i] == s[i]);
    }
    if k > i + 1 {
        assert(t[i + 1] == s[i + 1]);
    }
    if k > i + 2 {
        assert(t[i + 2] == s[i + 2]);
    }
}

proof fn lemma_reason_prefix(s: Seq<u8>, start: int, j: int, k: int)
    requires
        0 <= start <= j,
        sp_reason_from(s, start, j) is Done,
        0 <= k <= s.len(),
    ensures
        ({
            let st = sp_reason_from(s, start, j);
            &&& j < st->next <= s.len()
            &&& (k >= st->next ==> sp_reason_from(s.take(k), start, j) == st)
            &&& (k < st->next ==> sp_reason_from(s.take(k), start, j) is More)
        }),
    decreases s.len() - j,
{
    let st = sp_reason_from(s, start, j);
    let t = s.take(k);
    if j >= s.len() {
    } else if s[j] == CR {
        if k >= j + 2 {
            assert(t[j] == CR && t[j + 1] == LF);
            assert(t.subrange(start, j) =~= s.subrange(start, j));
        } else if k > j {
            assert(t[j] == CR);
        }
    } else if s[j] == LF {
        if k >= j + 1 {
            assert(t[j] == LF);
            assert(t.subrange(start, j) =~= s.subrange(start, j));
        }
    } else if reason_byte(s[j]) {
        lemma_reason_prefix(s, start, j + 1, k);
        if k > j {
            assert(t[j] == s[j]);
        }
    }
}

proof fn lemma_headers_at_prefix(s: Seq<u8>, i: int, cap: int, acc: Seq<HeaderModel>, k: int)
    requires
        0 <= i,
        sp_headers_at(s, i, cap, acc) is Done,
        0 <= k <= s.len(),
    ensures
        ({
            let st = sp_headers_at(s, i, cap, acc);
            &&& i < st->next <= s.len()
            &&& s[st->next - 1] == LF
            &&& (k >= st->next ==> sp_headers_at(s.take(k), i, cap, acc) == st)
            &&& (k < st->next ==> sp_headers_at(s.take(k), i, cap, acc) is More)
        }),
    decreases s.len() - i, 3int,
{
    let st = sp_headers_at(s, i, cap, acc);
    let t = s.take(k);
    if i >= s.len() {
    } else if s[i] == CR {
        if k >= i + 2 {
            assert(t[i] == CR && t[i + 1] == LF);
        } else if k > i {
            assert(t[i] == CR);
        }
    } else if s[i] == LF {
        if k > i {
            assert(t[i] == LF);
        }
    } else if !header_name_byte(s[i]) {
    } else if acc.len() >= cap {
    } else {
        lemma_header_name_prefix(s, i, i + 1, cap, acc, k);
        if k > i {
            assert(t[i] == s[i]);
        }
    }
}

proof fn lemma_header_name_prefix(
    s: Seq<u8>,
    start: int,
    j: int,
    cap: int,
    acc: Seq<HeaderModel>,
    k: int,
)
    requires
        0 <= start <= j,
        sp_header_name(s, start, j, cap, acc) is Done,
        0 <= k <= s.len(),
    ensures
        ({
            let st = sp_header_name(s, start, j, cap, acc);
            &&& j < st->next <= s.len()
            &&& s[st->next - 1] == LF
            &&& (k >= st->next ==> sp_header_name(s.take(k), start, j, cap, acc) == st)
            &&& (k < st->next ==> sp_header_name(s.take(k), start, j, cap, acc) is More)
        }),
    decreases s.len() - j, 3int,
{
    let st = sp_header_name(s, start, j, cap, acc);
    let t = s.take(k);
    if j >= s.len() {
    } else if s[j] == COLON {
        lemma_header_ows_prefix(s, s.subrange(start, j), j + 1, cap, acc, k);
        if k > j {
            assert(t[j] == COLON);
            assert(t.subrange(start, j) =~= s.subrange(start, j));
        }
    } else if header_name_byte(s[j]) {
        lemma_header_name_prefix(s, start, j + 1, cap, acc, k);
        if k > j {
            assert(t[j] == s[j]);
        }
    }
}

proof fn lemma_header_ows_prefix(
    s: Seq<u8>,
    name: Seq<u8>,
    p: int,
    cap: int,
    acc: Seq<HeaderModel>,
    k: int,
)
    requires
        0 <= p,
        sp_header_ows(s, name, p, cap, acc) is Done,
        0 <= k <= s.len(),
    ensures
        ({
            let st = sp_header_ows(s, name, p, cap, acc);
            &&& p < st->next <= s.len()
            &&& s[st->next - 1] == LF
            &&& (k >= st->next ==> sp_header_ows(s.take(k), name, p, cap, acc) == st)
            &&& (k < st->next ==> sp_header_ows(s.take(k), name, p, cap, acc) is More)
        }),
    decreases s.len() - p, 1int,
{
    let st = sp_header_ows(s, name, p, cap, acc);
    let t = s.take(k);
    if p >= s.len() {
    } else if s[p] == SP || s[p] == HTAB {
        lemma_header_ows_prefix(s, name, p + 1, cap, acc, k);
        if k > p {
            assert(t[p] == s[p]);
        }
    } else {
        lemma_header_value_prefix(s, name, p, p, cap, acc, k);
        if k > p {
            assert(t[p] == s[p]);
        }
    }
}

proof fn lemma_header_value_prefix(
    s: Seq<u8>,
    name: Seq<u8>,
    vstart: int,
    m: int,
    cap: int,
    acc: Seq<HeaderModel>,
    k: int,
)
    requires
        0 <= vstart <= m,
        sp_header_value(s, name, vstart, m, cap, acc) is Done,
        0 <= k <= s.len(),
    ensures
        ({
            let st = sp_header_value(s, name, vstart, m, cap, acc);
            &&& m < st->next <= s.len()
            &&& s[st->next - 1] == LF
            &&& (k >= st->next ==> sp_header_value(s.take(k), name, vstart, m, cap, acc) == st)
            &&& (k < st->next ==> sp_header_value(s.take(k), name, vstart, m, cap, acc) is More)
        }),
    decreases s.len() - m, 0int,
{
    let st = sp_header_value(s, name, vstart, m, cap, acc);
    let t = s.take(k);
    if m >= s.len() {
    } else if header_value_byte(s[m]) {
        lemma_header_value_prefix(s, name, vstart, m + 1, cap, acc, k);
        if k > m {
            assert(t[m] == s[m]);
        }
    } else if s[m] == CR {
        if m + 1 < s.len() && s[m + 1] == LF {
            let hm = HeaderModel { name, value: s.subrange(vstart, m) };
            lemma_headers_at_prefix(s, m + 2, cap, acc.push(hm), k);
            if k >= m + 2 {
                assert(t[m] == CR && t[m + 1] == LF);
                assert(t.subrange(vstart, m) =~= s.subrange(vstart, m));
            } else if k > m {
                assert(t[m] == CR);
            }
        }
    } else if s[m] == LF {
        let hm = HeaderModel { name, value: s.subrange(vstart, m) };
        lemma_headers_at_prefix(s, m + 1, cap, acc.push(hm), k);
        if k >= m + 1 {
            assert(t[m] == LF);
            assert(t.subrange(vstart, m) =~= s.subrange(vstart, m));
        }
    }
}

/// Prefix invariance and byte accounting for the request parser: when
/// a parse completes at `n`, byte `n - 1` is the line feed of the
/// blank line that ends the header block, the first `n` bytes alone
/// complete at `n` with the same start line and headers, and every
/// shorter prefix of the input is `Partial`, never an error.
pub proof fn lemma_request_prefix_invariance(s: Seq<u8>, cap: int, k: int)
    requires
        sp_request(s, cap).outcome is Done,
        0 <= k <= s.len(),
    ensures
        ({
            let m1 = sp_request(s, cap);
            let m2 = sp_request(s.take(k), cap);
            let n = m1.outcome->next;
            &&& 2 <= n <= s.len()
            &&& s[n - 1] == LF
            &&& (k < n ==> m2.outcome is More)
            &&& (k >= n ==> m2.outcome == m1.outcome && m2.method == m1.method && m2.path
                == m1.path && m2.version == m1.version && m2.headers == m1.headers)
        }),
{
    let st0 = sp_empty_lines(s, 0);
    lemma_empty_lines_prefix(s, 0, k);
    let i0 = st0->next;
    let st1 = sp_token(s, i0);
    lemma_token_prefix(s, i0, i0, k);
    let i1 = st1->next;
    let st2 = sp_token(s, i1);
    lemma_token_prefix(s, i1, i1, k);
    let i2 = st2->next;
    let st3 = sp_version(s, i2);
    lemma_version_prefix(s, i2, k);
    let i3 = i2 + 8;
    let st4 = sp_newline(s, i3);
    lemma_newline_prefix(s, i3, k);
    let i4 = st4->next;
    let st5 = sp_headers_at(s, i4, cap, Seq::empty());
    lemma_headers_at_prefix(s, i4, cap, Seq::empty(), k);
}

/// Prefix invariance and byte accounting for the response parser,
/// stated as for the request parser.
pub proof fn lemma_response_prefix_invariance(s: Seq<u8>, cap: int, k: int)
    requires
        sp_response(s, cap).outcome is Done,
        0 <= k <= s.len(),
    ensures
        ({
            let m1 = sp_response(s, cap);
            let m2 = sp_response(s.take(k), cap);
            let n = m1.outcome->next;
            &&& 2 <= n <= s.len()
            &&& s[n - 1] == LF
            &&& (k < n ==> m2.outcome is More)
            &&& (k >= n ==> m2 == m1)
        }),
{
    let t = s.take(k);
    let st0 = sp_empty_lines(s, 0);
    lemma_empty_lines_prefix(s, 0, k);
    let i0 = st0->next;
    let st1 = sp_version(s, i0);
    lemma_version_prefix(s, i0, k);
    let i1 = i0 + 8;
    if k > i1 {
        assert(t[i1] == s[i1]);
    }
    let st2 = sp_code(s, i1 + 1);
    lemma_code_prefix(s, i1 + 1, k);
    let i2 = i1 + 4;
    if k > i2 {
        assert(t[i2] == s[i2]);
    }
    if s[i2] == SP {
        let st3 = sp_reason(s, i2 + 1);
        lemma_reason_prefix(s, i2 + 1, i2 + 1, k);
        let i3 = st3->next;
        lemma_headers_at_prefix(s, i3, cap, Seq::empty(), k);
    } else if s[i2] == CR {
        if k > i2 + 1 {
            assert(t[i2 + 1] == s[i2 + 1]);
        }
        lemma_headers_at_prefix(s, i2 + 2, cap, Seq::empty(), k);
    } else {
        lemma_headers_at_prefix(s, i2 + 1, cap, Seq::empty(), k);
    }
}



// ---------------------------------------------------------------------
// Idempotent re-parse
// ---------------------------------------------------------------------

proof fn lemma_headers_at_cap(s: Seq<u8>, i: int, cap: int, cap2: int, acc: Seq<HeaderModel>)
    requires
        sp_headers_at(s, i, cap, acc) is Done,
        sp_headers_at(s, i, cap, acc)->val.len() <= cap2,
        acc.len() <= cap,
    ensures
        sp_headers_at(s, i, cap2, acc) == sp_headers_at(s, i, cap, acc),
    decreases s.len() - i, 3int,
{
    if i >= s.len() {
    } else if s[i] == CR {
    } else if s[i] == LF {
    } else if !header_name_byte(s[i]) {
    } else if acc.len() >= cap {
    } else {
        lemma_header_name_count(s, i, i + 1, cap, acc);
        lemma_header_name_cap(s, i, i + 1, cap, cap2, acc);
    }
}

proof fn lemma_header_name_cap(
    s: Seq<u8>,
    start: int,
    j: int,
    cap: int,
    cap2: int,
    acc: Seq<HeaderModel>,
)
    requires
        sp_header_name(s, start, j, cap, acc) is Done,
        sp_header_name(s, start, j, cap, acc)->val.len() <= cap2,
        acc.len() < cap,
    ensures
        sp_header_name(s, start, j, cap2, acc) == sp_header_name(s, start, j, cap, acc),
    decreases s.len() - j, 3int,
{
    if j >= s.len() {
    } else if s[j] == COLON {
        lemma_header_ows_cap(s, s.subrange(start, j), j + 1, cap, cap2, acc);
    } else if header_name_byte(s[j]) {
        lemma_header_name_cap(s, start, j + 1, cap, cap2, acc);
    }
}

proof fn lemma_header_ows_cap(
    s: Seq<u8>,
    name: Seq<u8>,
    p: int,
    cap: int,
    cap2: int,
    acc: Seq<HeaderModel>,
)
    requires
        sp_header_ows(s, name, p, cap, acc) is Done,
        sp_header_ows(s, name, p, cap, acc)->val.len() <= cap2,
        acc.len() < cap,
    ensures
        sp_header_ows(s, name, p, cap2, acc) == sp_header_ows(s, name, p, cap, acc),
    decreases s.len() - p, 1int,
{
    if p >= s.len() {
    } else if s[p] == SP || s[p] == HTAB {
        lemma_header_ows_cap(s, name, p + 1, cap, cap2, acc);
    } else {
        lemma_header_value_cap(s, name, p, p, cap, cap2, acc);
    }
}

proof fn lemma_header_value_cap(
    s: Seq<u8>,
    name: Seq<u8>,
    vstart: int,
    m: int,
    cap: int,
    cap2: int,
    acc: Seq<HeaderModel>,
)
    requires
        sp_header_value(s, name, vstart, m, cap, acc) is Done,
        sp_header_value(s, name, vstart, m, cap, acc)->val.len() <= cap2,
        acc.len() < cap,
    ensures
        sp_header_value(s, name, vstart, m, cap2, acc) == sp_header_value(
            s,
            name,
            vstart,
            m,
            cap,
            acc,
        ),
    decreases s.len() - m, 0int,
{
    if m >= s.len() {
    } else if header_value_byte(s[m]) {
        lemma_header_value_cap(s, name, vstart, m + 1, cap, cap2, acc);
    } else if s[m] == CR {
        if m + 1 < s.len() && s[m + 1] == LF {
            lemma_headers_at_cap(
                s,
                m + 2,
                cap,
                cap2,
                acc.push(HeaderModel { name, value: s.subrange(vstart, m) }),
            );
        }
    } else if s[m] == LF {
        lemma_headers_at_cap(
            s,
            m + 1,
            cap,
            cap2,
            acc.push(HeaderModel { name, value: s.subrange(vstart, m) }),
        );
    }
}

/// Idempotent re-parse: a completed parse is a pure function of the
/// buffer, so running it again over the same buffer yields a
/// structurally equal result.  That holds not only with the same
/// header capacity but with any capacity that accommodates the headers
/// the first run found -- in particular with the header vector that
/// the first run produced.
pub proof fn lemma_reparse_idempotent(s: Seq<u8>, cap: int, cap2: int)
    requires
        sp_request(s, cap).outcome is Done,
        cap >= 0,
        sp_request(s, cap).headers matches Option::Some(hs) && hs.len() <= cap2,
    ensures
        sp_request(s, cap2) == sp_request(s, cap),
{
    let st0 = sp_empty_lines(s, 0);
    let i0 = st0->next;
    let st1 = sp_token(s, i0);
    let i1 = st1->next;
    let st2 = sp_token(s, i1);
    let i2 = st2->next;
    let st3 = sp_version(s, i2);
    let i3 = i2 + 8;
    let st4 = sp_newline(s, i3);
    let i4 = st4->next;
    lemma_headers_at_cap(s, i4, cap, cap2, Seq::empty());
}



/// Idempotent re-parse for the response parser, stated as for the
/// request parser.
pub proof fn lemma_response_reparse_idempotent(s: Seq<u8>, cap: int, cap2: int)
    requires
        sp_response(s, cap).outcome is Done,
        cap >= 0,
        sp_response(s, cap).headers matches Option::Some(hs) && hs.len() <= cap2,
    ensures
        sp_response(s, cap2) == sp_response(s, cap),
{
    let st0 = sp_empty_lines(s, 0);
    let i0 = st0->next;
    let i1 = i0 + 8;
    let i2 = i1 + 4;
    if s[i2] == SP {
        let st3 = sp_reason(s, i2 + 1);
        lemma_headers_at_cap(s, st3->next, cap, cap2, Seq::empty());
    } else if s[i2] == CR {
        lemma_headers_at_cap(s, i2 + 2, cap, cap2, Seq::empty());
    } else {
        lemma_headers_at_cap(s, i2 + 1, cap, cap2, Seq::empty());
    }
}


} // verus!

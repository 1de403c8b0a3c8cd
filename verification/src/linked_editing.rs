//! Linked editing of aozora delimiter pairs: with the cursor on (or just
//! after) one of `［］`, `《》`, `「」`, `〔〕`, report both the delimiter and
//! its partner so the editor mirrors edits between them. The partner is
//! found by a bounded scan of at most [`SCAN_WINDOW`] bytes that stops
//! at a newline: aozora delimiters never span lines.

use vstd::prelude::*;
use vstd::string::*;
use vstd::utf8::*;

use crate::line_index::{starts_u32, LineIndex};
use crate::lines::NL;
use crate::position::{offset_at, position_at, Position, Range};
use crate::utf8_bytes::{
    at_boundary, bytes_match_at, lemma_boundary_after_lead3, lemma_str_valid, matches_at,
};

verus! {

/// Most bytes the partner scan looks at in either direction.
pub const SCAN_WINDOW: usize = 1024;

/// The open and close encodings of each recognised pair, in lookup
/// order: `［］`, `《》`, `「」`, `〔〕`.
pub open spec fn pair_bytes(k: int, open: bool) -> Seq<u8> {
    if k == 0 {
        if open { seq![0xefu8, 0xbcu8, 0xbbu8] } else { seq![0xefu8, 0xbcu8, 0xbdu8] }
    } else if k == 1 {
        if open { seq![0xe3u8, 0x80u8, 0x8au8] } else { seq![0xe3u8, 0x80u8, 0x8bu8] }
    } else if k == 2 {
        if open { seq![0xe3u8, 0x80u8, 0x8cu8] } else { seq![0xe3u8, 0x80u8, 0x8du8] }
    } else {
        if open { seq![0xe3u8, 0x80u8, 0x94u8] } else { seq![0xe3u8, 0x80u8, 0x95u8] }
    }
}

/// The encoding of one delimiter of pair `k`.
fn pair_enc(k: usize, open: bool) -> (r: [u8; 3])
    requires
        k < 4,
    ensures
        r@ == pair_bytes(k as int, open),
{
    let r = if k == 0 {
        if open { [0xefu8, 0xbcu8, 0xbbu8] } else { [0xefu8, 0xbcu8, 0xbdu8] }
    } else if k == 1 {
        if open { [0xe3u8, 0x80u8, 0x8au8] } else { [0xe3u8, 0x80u8, 0x8bu8] }
    } else if k == 2 {
        if open { [0xe3u8, 0x80u8, 0x8cu8] } else { [0xe3u8, 0x80u8, 0x8du8] }
    } else {
        if open { [0xe3u8, 0x80u8, 0x94u8] } else { [0xe3u8, 0x80u8, 0x95u8] }
    };
    proof {
        assert(r@ =~= pair_bytes(k as int, open));
    }
    r
}

/// The delimiter of pair `k` occupies exactly `s..e` of `b`.
pub open spec fn delimiter_at(b: Seq<u8>, s: int, e: int, k: int, open: bool) -> bool {
    e == s + 3 && matches_at(b, s, pair_bytes(k, open))
}

/// The pair (and whether it is its opener) whose delimiter occupies
/// `s..e`, if any.
pub open spec fn match_pair(b: Seq<u8>, s: int, e: int) -> Option<(int, bool)> {
    if delimiter_at(b, s, e, 0, true) {
        Some((0, true))
    } else if delimiter_at(b, s, e, 0, false) {
        Some((0, false))
    } else if delimiter_at(b, s, e, 1, true) {
        Some((1, true))
    } else if delimiter_at(b, s, e, 1, false) {
        Some((1, false))
    } else if delimiter_at(b, s, e, 2, true) {
        Some((2, true))
    } else if delimiter_at(b, s, e, 2, false) {
        Some((2, false))
    } else if delimiter_at(b, s, e, 3, true) {
        Some((3, true))
    } else if delimiter_at(b, s, e, 3, false) {
        Some((3, false))
    } else {
        None
    }
}

/// End of the forward scan window from `start`.
pub open spec fn forward_cap(b: Seq<u8>, start: int) -> int {
    if start + SCAN_WINDOW < b.len() {
        start + SCAN_WINDOW
    } else {
        b.len() as int
    }
}

/// Start of the backward scan window ending at `end`.
pub open spec fn backward_floor(end: int) -> int {
    if end >= SCAN_WINDOW {
        end - SCAN_WINDOW
    } else {
        0
    }
}

/// First occurrence of `enc` in `p..cap`, unless a newline comes first.
pub open spec fn forward_scan(b: Seq<u8>, p: int, cap: int, enc: Seq<u8>) -> Option<int>
    decreases cap - p,
{
    if p >= cap || p < 0 {
        None
    } else if b[p] == NL {
        None
    } else if p + enc.len() <= cap && matches_at(b, p, enc) {
        Some(p)
    } else {
        forward_scan(b, p + 1, cap, enc)
    }
}

/// Last occurrence of `enc` ending by `end` at or after `floor`,
/// scanning back from `p`, unless a newline comes first.
pub open spec fn backward_scan(b: Seq<u8>, floor: int, p: int, end: int, enc: Seq<u8>) -> Option<
    int,
>
    decreases p - floor + 1,
{
    if p < floor || p < 0 {
        None
    } else if b[p] == NL {
        None
    } else if p + enc.len() <= end && matches_at(b, p, enc) {
        Some(p)
    } else {
        backward_scan(b, floor, p - 1, end, enc)
    }
}

/// The open and close spans linked through the delimiter at `s..e`.
pub open spec fn link_spec(b: Seq<u8>, s: int, e: int) -> Option<(int, int, int, int)> {
    match match_pair(b, s, e) {
        Some((k, true)) => match forward_scan(b, e, forward_cap(b, e), pair_bytes(k, false)) {
            Some(p) => Some((s, e, p, p + 3)),
            None => None,
        },
        Some((k, false)) => match backward_scan(
            b,
            backward_floor(s),
            s - 1,
            s,
            pair_bytes(k, true),
        ) {
            Some(p) => Some((p, p + 3, s, e)),
            None => None,
        },
        None => None,
    }
}

/// The last char boundary before `offset` (0 at the start).
pub open spec fn prev_boundary(b: Seq<u8>, offset: int) -> int
    decreases offset,
{
    if offset <= 1 {
        0
    } else if at_boundary(b, offset - 1) {
        offset - 1
    } else {
        prev_boundary(b, offset - 1)
    }
}

/// The delimiter span the cursor sits on: the char at the cursor.
pub open spec fn at_candidate(b: Seq<u8>, cursor: int) -> Option<(int, int)> {
    if cursor < b.len() && at_boundary(b, cursor) {
        Some((cursor, cursor + 3))
    } else {
        None
    }
}

/// The delimiter span the cursor sits just after: the char before it.
pub open spec fn before_candidate(b: Seq<u8>, cursor: int) -> Option<(int, int)> {
    if cursor == 0 {
        None
    } else {
        Some((prev_boundary(b, cursor), cursor))
    }
}

/// The link a candidate span gives, if it is a delimiter whose partner
/// is found.
pub open spec fn candidate_link(b: Seq<u8>, c: Option<(int, int)>) -> Option<(int, int, int, int)> {
    match c {
        Some((s, e)) => link_spec(b, s, e),
        None => None,
    }
}

/// The linked spans for the cursor at `position`: the char at the
/// cursor first, then the char before it.
pub open spec fn linked_spec(b: Seq<u8>, position: Position) -> Option<(int, int, int, int)> {
    match offset_at(b, position) {
        None => None,
        Some(cursor) => match candidate_link(b, at_candidate(b, cursor)) {
            Some(l) => Some(l),
            None => candidate_link(b, before_candidate(b, cursor)),
        },
    }
}

/// Spans `l` are one recognised pair: an opener and, after it, the
/// matching closer, each exactly one delimiter (three bytes) of `b`.
pub open spec fn one_pair(b: Seq<u8>, l: (int, int, int, int)) -> bool {
    &&& 0 <= l.0 && l.1 == l.0 + 3 && l.1 <= l.2 && l.3 == l.2 + 3 && l.3 <= b.len()
    &&& exists|k: int|
        0 <= k < 4 && #[trigger] pair_bytes(k, true) == b.subrange(l.0, l.1) && pair_bytes(k, false)
            == b.subrange(l.2, l.3)
}

/// Between the two linked delimiters there is no newline, and, scanning
/// from the delimiter the cursor is on, no nearer partner: from an
/// opener, no closer of the pair starts before the linked one; from a
/// closer, no opener of the pair lies after the linked one.
pub open spec fn nearest_partner(b: Seq<u8>, l: (int, int, int, int), from_opener: bool) -> bool {
    &&& forall|m: int| l.1 <= m < l.2 ==> b[m] != NL
    &&& from_opener ==> forall|m: int| l.1 <= m < l.2 ==> !matches_at(b, m, b.subrange(l.2, l.3))
    &&& !from_opener ==> forall|m: int| l.1 <= m && m + 3 <= l.2 ==> !matches_at(b, m, b.subrange(l.0, l.1))
}

proof fn lemma_forward_none_before(b: Seq<u8>, p: int, cap: int, enc: Seq<u8>)
    requires
        forward_scan(b, p, cap, enc) is Some,
        cap <= b.len(),
    ensures
        forall|m: int|
            p <= m < forward_scan(b, p, cap, enc)->0 ==> b[m] != NL && !(m + enc.len() <= cap
                && matches_at(b, m, enc)),
    decreases cap - p,
{
    if !(p + enc.len() <= cap && matches_at(b, p, enc)) && b[p] != NL {
        lemma_forward_none_before(b, p + 1, cap, enc);
    }
}

proof fn lemma_backward_none_after(b: Seq<u8>, floor: int, p: int, end: int, enc: Seq<u8>)
    requires
        backward_scan(b, floor, p, end, enc) is Some,
        0 <= floor,
        end <= b.len(),
    ensures
        forall|m: int|
            backward_scan(b, floor, p, end, enc)->0 < m <= p ==> b[m] != NL && !(m + enc.len() <= end
                && matches_at(b, m, enc)),
    decreases p - floor + 1,
{
    if !(p + enc.len() <= end && matches_at(b, p, enc)) && b[p] != NL {
        lemma_backward_none_after(b, floor, p - 1, end, enc);
    }
}

proof fn lemma_link_is_one_pair(b: Seq<u8>, s: int, e: int)
    requires
        0 <= s,
    ensures
        link_spec(b, s, e) matches Some(l) ==> one_pair(b, l) && ((l.0 == s && l.1 == e
            && nearest_partner(b, l, true)) || (l.2 == s && l.3 == e && nearest_partner(b, l, false))),
{
    match match_pair(b, s, e) {
        Some((k, true)) => {
            assert(delimiter_at(b, s, e, k, true));
            let cap = forward_cap(b, e);
            let enc = pair_bytes(k, false);
            if forward_scan(b, e, cap, enc) is Some {
                lemma_forward_found(b, e, cap, enc);
                lemma_forward_none_before(b, e, cap, enc);
                let p = forward_scan(b, e, cap, enc)->0;
                assert(pair_bytes(k, true) == b.subrange(s, e));
                assert(pair_bytes(k, false) == b.subrange(p, p + 3));
            }
        },
        Some((k, false)) => {
            assert(delimiter_at(b, s, e, k, false));
            let enc = pair_bytes(k, true);
            if backward_scan(b, backward_floor(s), s - 1, s, enc) is Some {
                lemma_backward_found(b, backward_floor(s), s - 1, s, enc);
                lemma_backward_none_after(b, backward_floor(s), s - 1, s, enc);
                let p = backward_scan(b, backward_floor(s), s - 1, s, enc)->0;
                assert(pair_bytes(k, true) == b.subrange(p, p + 3));
                assert(pair_bytes(k, false) == b.subrange(s, e));
            }
        },
        None => {},
    }
}

proof fn lemma_prev_boundary_nonneg(b: Seq<u8>, offset: int)
    ensures
        0 <= prev_boundary(b, offset),
    decreases offset,
{
    if offset > 1 && !at_boundary(b, offset - 1) {
        lemma_prev_boundary_nonneg(b, offset - 1);
    }
}

/// Linked editing always links the two delimiters of one recognised
/// pair: each range spans exactly one delimiter char (an opener, then
/// its matching closer after it, on the same line), one of them is the
/// char at or just before the cursor, and the other is the nearest
/// partner scanning from it.
pub proof fn law_linked_ranges_span_one_delimiter_pair(b: Seq<u8>, position: Position)
    ensures
        linked_spec(b, position) matches Some(l) ==> one_pair(b, l) && (offset_at(b, position) matches Some(
            cursor,
        ) && (l.0 == cursor || l.2 == cursor || l.1 == cursor || l.3 == cursor) && nearest_partner(
            b,
            l,
            l.0 == cursor || l.1 == cursor,
        )),
{
    match offset_at(b, position) {
        None => {},
        Some(cursor) => {
            if cursor < b.len() && at_boundary(b, cursor) {
                lemma_link_is_one_pair(b, cursor, cursor + 3);
            }
            if cursor != 0 {
                lemma_prev_boundary_nonneg(b, cursor);
                lemma_link_is_one_pair(b, prev_boundary(b, cursor), cursor);
            }
        },
    }
}

/// Both ranges of a linked pair, opener first.
#[derive(Debug, Clone, PartialEq, Eq)]
pub struct LinkedEditingRanges {
    pub ranges: Vec<Range>,
}

/// `r` holds the positions of the linked spans `l` of `b`.
pub open spec fn ranges_of(r: LinkedEditingRanges, b: Seq<u8>, l: (int, int, int, int)) -> bool {
    &&& r.ranges@.len() == 2
    &&& r.ranges@[0] == Range { start: position_at(b, l.0), end: position_at(b, l.1) }
    &&& r.ranges@[1] == Range { start: position_at(b, l.2), end: position_at(b, l.3) }
}

/// The pair whose delimiter occupies `s..e`, and whether it opens.
fn find_pair(bytes: &[u8], s: usize, e: usize) -> (r: Option<(usize, bool)>)
    ensures
        match match_pair(bytes@, s as int, e as int) {
            Some((k, o)) => r == Some((k as usize, o)),
            None => r is None,
        },
{
    if e < 3 || e - 3 != s {
        return None;
    }
    let mut k: usize = 0;
    while k < 4
        invariant
            e == s + 3,
            k <= 4,
            forall|j: int, o: bool| 0 <= j < k ==> !delimiter_at(bytes@, s as int, e as int, j, o),
        decreases 4 - k,
    {
        let open = pair_enc(k, true);
        if bytes_match_at(bytes, s, &open) {
            return Some((k, true));
        }
        let close = pair_enc(k, false);
        if bytes_match_at(bytes, s, &close) {
            return Some((k, false));
        }
        proof {
            assert forall|j: int, o: bool| 0 <= j < k + 1 implies !delimiter_at(
                bytes@,
                s as int,
                e as int,
                j,
                o,
            ) by {
                if j == k {
                    if o {
                    } else {
                    }
                }
            }
        }
        k += 1;
    }
    None
}

/// Walk forward from `start` for `enc`, within the window, stopping at
/// a newline.
fn find_partner_forward(bytes: &[u8], start: usize, enc: &[u8]) -> (r: Option<usize>)
    requires
        start <= bytes@.len() <= u32::MAX,
    ensures
        r == (match forward_scan(bytes@, start as int, forward_cap(bytes@, start as int), enc@) {
            Some(p) => Some(p as usize),
            None => None::<usize>,
        }),
{
    let cap = if bytes.len() - start > SCAN_WINDOW {
        start + SCAN_WINDOW
    } else {
        bytes.len()
    };
    let ghost c = cap as int;
    let mut idx = start;
    while idx < cap
        invariant
            start <= idx,
            cap <= bytes@.len(),
            c == cap,
            c == forward_cap(bytes@, start as int),
            forward_scan(bytes@, start as int, c, enc@) == forward_scan(bytes@, idx as int, c, enc@),
        decreases cap - idx,
    {
        if bytes[idx] == NL {
            return None;
        }
        if enc.len() <= cap - idx && bytes_match_at(bytes, idx, enc) {
            return Some(idx);
        }
        idx += 1;
    }
    None
}

/// Walk backward from `end` (exclusive) for `enc`, within the window,
/// stopping at a newline.
fn find_partner_backward(bytes: &[u8], end: usize, enc: &[u8]) -> (r: Option<usize>)
    requires
        end <= bytes@.len() <= u32::MAX,
    ensures
        r == (match backward_scan(bytes@, backward_floor(end as int), end - 1, end as int, enc@) {
            Some(p) => Some(p as usize),
            None => None::<usize>,
        }),
{
    let floor = if end >= SCAN_WINDOW {
        end - SCAN_WINDOW
    } else {
        0
    };
    let mut p = end;
    while p > floor
        invariant
            floor <= p <= end,
            end <= bytes@.len(),
            floor == backward_floor(end as int),
            backward_scan(bytes@, floor as int, end - 1, end as int, enc@) == backward_scan(
                bytes@,
                floor as int,
                p - 1,
                end as int,
                enc@,
            ),
        decreases p - floor,
    {
        let q = p - 1;
        if bytes[q] == NL {
            return None;
        }
        if enc.len() <= end - q && bytes_match_at(bytes, q, enc) {
            return Some(q);
        }
        p = q;
    }
    None
}

/// What the forward scan finds is a match of `enc` inside the window.
proof fn lemma_forward_found(b: Seq<u8>, p: int, cap: int, enc: Seq<u8>)
    requires
        forward_scan(b, p, cap, enc) is Some,
        cap <= b.len(),
    ensures
        p <= forward_scan(b, p, cap, enc)->0,
        forward_scan(b, p, cap, enc)->0 + enc.len() <= cap,
        matches_at(b, forward_scan(b, p, cap, enc)->0, enc),
    decreases cap - p,
{
    if !(p + enc.len() <= cap && matches_at(b, p, enc)) && b[p] != NL {
        lemma_forward_found(b, p + 1, cap, enc);
    }
}

/// What the backward scan finds is a match of `enc` inside the window.
proof fn lemma_backward_found(b: Seq<u8>, floor: int, p: int, end: int, enc: Seq<u8>)
    requires
        backward_scan(b, floor, p, end, enc) is Some,
        0 <= floor,
        end <= b.len(),
    ensures
        floor <= backward_scan(b, floor, p, end, enc)->0 <= p,
        backward_scan(b, floor, p, end, enc)->0 + enc.len() <= end,
        matches_at(b, backward_scan(b, floor, p, end, enc)->0, enc),
    decreases p - floor + 1,
{
    if !(p + enc.len() <= end && matches_at(b, p, enc)) && b[p] != NL {
        lemma_backward_found(b, floor, p - 1, end, enc);
    }
}

/// The last char boundary before `offset`, or 0.
fn prev_boundary_of(bytes: &[u8], offset: usize) -> (r: usize)
    requires
        0 < offset <= bytes@.len(),
    ensures
        r == prev_boundary(bytes@, offset as int),
        r < offset,
{
    let mut start = offset - 1;
    while start > 0 && 0x80 <= bytes[start] && bytes[start] <= 0xbf
        invariant
            start < offset <= bytes@.len(),
            prev_boundary(bytes@, offset as int) == prev_boundary(bytes@, start + 1),
        decreases start,
    {
        start -= 1;
    }
    start
}

/// Build the linked ranges of the delimiter at `s..e`, if its partner
/// is found.
fn try_link(source: &str, line_index: &LineIndex, s: usize, e: usize) -> (r: Option<LinkedEditingRanges>)
    requires
        line_index@ == starts_u32(source.spec_bytes()),
        source.spec_bytes().len() <= u32::MAX,
        s <= e <= source.spec_bytes().len(),
        at_boundary(source.spec_bytes(), s as int),
        at_boundary(source.spec_bytes(), e as int),
    ensures
        match link_spec(source.spec_bytes(), s as int, e as int) {
            Some(l) => r matches Some(x) && ranges_of(x, source.spec_bytes(), l),
            None => r is None,
        },
{
    let bytes = source.as_bytes();
    let ghost b = bytes@;
    proof {
        lemma_str_valid(source);
    }
    let (k, forward) = match find_pair(bytes, s, e) {
        Some(x) => x,
        None => return None,
    };
    let here = Range { start: line_index.position(source, s), end: line_index.position(source, e) };
    if forward {
        let target = pair_enc(k, false);
        let p = match find_partner_forward(bytes, e, &target) {
            Some(p) => p,
            None => return None,
        };
        proof {
            lemma_forward_found(b, e as int, forward_cap(b, e as int), target@);
            assert(b.subrange(p as int, p + 3)[0] == b[p as int]);
            lemma_boundary_after_lead3(b, p as int);
        }
        let there = Range {
            start: line_index.position(source, p),
            end: line_index.position(source, p + 3),
        };
        Some(LinkedEditingRanges { ranges: vec![here, there] })
    } else {
        let target = pair_enc(k, true);
        let p = match find_partner_backward(bytes, s, &target) {
            Some(p) => p,
            None => return None,
        };
        proof {
            lemma_backward_found(b, backward_floor(s as int), s - 1, s as int, target@);
            assert(b.subrange(p as int, p + 3)[0] == b[p as int]);
            lemma_boundary_after_lead3(b, p as int);
        }
        let there = Range {
            start: line_index.position(source, p),
            end: line_index.position(source, p + 3),
        };
        Some(LinkedEditingRanges { ranges: vec![there, here] })
    }
}

/// The linked open/close ranges of the delimiter the cursor at
/// `position` sits on or just after; `None` off a delimiter or when its
/// partner is not found within the scan window (a char the window's
/// edge cuts through is not looked at).
pub fn linked_editing_at(source: &str, line_index: &LineIndex, position: Position) -> (r: Option<
    LinkedEditingRanges,
>)
    requires
        line_index@ == starts_u32(source.spec_bytes()),
        source.spec_bytes().len() <= u32::MAX,
    ensures
        match linked_spec(source.spec_bytes(), position) {
            Some(l) => r matches Some(x) && ranges_of(x, source.spec_bytes(), l),
            None => r is None,
        },
        linked_spec(source.spec_bytes(), position) matches Some(l) ==> one_pair(source.spec_bytes(), l),
{
    let bytes = source.as_bytes();
    let ghost b = bytes@;
    proof {
        lemma_str_valid(source);
        law_linked_ranges_span_one_delimiter_pair(b, position);
    }
    let cursor = match line_index.byte_offset(source, position) {
        Some(c) => c,
        None => return None,
    };
    if cursor < bytes.len() && bytes.len() - cursor >= 3 {
        if let Some((k, _)) = find_pair(bytes, cursor, cursor + 3) {
            proof {
                assert(b[cursor as int] == pair_bytes(k as int, true)[0] || b[cursor as int]
                    == pair_bytes(k as int, false)[0]);
                lemma_boundary_after_lead3(b, cursor as int);
            }
            if let Some(link) = try_link(source, line_index, cursor, cursor + 3) {
                return Some(link);
            }
        }
    }
    if cursor == 0 {
        return None;
    }
    let s = prev_boundary_of(bytes, cursor);
    proof {
        lemma_prev_boundary(b, cursor as int);
    }
    try_link(source, line_index, s, cursor)
}

/// `prev_boundary` is a char boundary.
proof fn lemma_prev_boundary(b: Seq<u8>, offset: int)
    requires
        0 < offset <= b.len(),
    ensures
        at_boundary(b, prev_boundary(b, offset)) || prev_boundary(b, offset) == 0,
        0 <= prev_boundary(b, offset) < offset,
    decreases offset,
{
    if offset > 1 && !at_boundary(b, offset - 1) {
        lemma_prev_boundary(b, offset - 1);
    }
}

} // verus!

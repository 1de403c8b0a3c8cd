//! Paragraph segmentation and the byte shifts of per-paragraph data.
//!
//! A document splits into paragraphs at every `\n\n` run: the first
//! `\n` closes the left paragraph, the second opens the right one, so
//! the paragraphs concatenate back to the document. A stretch with no
//! blank line is cut at [`MAX_PARAGRAPH_BYTES`] (at the last `\n` inside
//! the window when there is one), snapped forward to a char boundary.

use vstd::prelude::*;
use vstd::utf8::*;
use core::ops::Range;

use crate::gaiji_spans::GaijiSpan;
use crate::utf8_bytes::at_boundary;

verus! {

/// Hard cap on paragraph size.
pub const MAX_PARAGRAPH_BYTES: usize = 65536;

/// `\n`
pub open spec fn nl() -> u8 {
    0x0au8
}

/// Whether byte `idx` of `bytes` starts a char (or is the end).
pub fn is_byte_char_boundary(bytes: &[u8], idx: usize) -> (r: bool)
    ensures
        r == (idx <= bytes@.len() && at_boundary(bytes@, idx as int)),
{
    if idx >= bytes.len() {
        return idx == bytes.len();
    }
    let x = bytes[idx];
    let r = x & 0xc0u8 != 0x80u8;
    assert(r == !(0x80 <= x && x <= 0xbf)) by (bit_vector)
        requires
            r == (x & 0xc0u8 != 0x80u8),
    ;
    r
}

/// The first char boundary at or after `e`.
pub open spec fn snap(b: Seq<u8>, e: int) -> int
    decreases b.len() - e,
{
    if e < b.len() && !at_boundary(b, e) {
        snap(b, e + 1)
    } else {
        e
    }
}

/// Where the paragraph starting at `start` ends, scanning on from
/// `end` with `soft` the end just past the last single `\n` seen.
pub open spec fn para_end(b: Seq<u8>, start: int, end: int, soft: Option<int>) -> int
    decreases b.len() - end,
{
    if end >= b.len() {
        end
    } else if end - start >= MAX_PARAGRAPH_BYTES {
        let cut = match soft {
            Some(s) => s,
            None => end,
        };
        snap(b, if cut > start + 1 { cut } else { start + 1 })
    } else if b[end] == nl() && end + 1 < b.len() && b[end + 1] == nl() {
        end + 1
    } else {
        para_end(b, start, end + 1, if b[end] == nl() { Some(end + 1) } else { soft })
    }
}

proof fn lemma_snap(b: Seq<u8>, e: int)
    requires
        e <= b.len(),
    ensures
        e <= snap(b, e) <= b.len(),
        at_boundary(b, snap(b, e)) || snap(b, e) < 0,
    decreases b.len() - e,
{
    if e < b.len() && !at_boundary(b, e) {
        lemma_snap(b, e + 1);
    }
}

/// A paragraph ends after it starts, within the text, at a boundary.
pub proof fn lemma_para_end(b: Seq<u8>, start: int, end: int, soft: Option<int>)
    requires
        0 <= start <= end <= b.len(),
        start < b.len(),
        soft matches Some(s) ==> start < s <= end,
    ensures
        start < para_end(b, start, end, soft) <= b.len(),
        at_boundary(b, para_end(b, start, end, soft)),
    decreases b.len() - end,
{
    if end >= b.len() {
    } else if end - start >= MAX_PARAGRAPH_BYTES {
        let cut = match soft {
            Some(s) => s,
            None => end,
        };
        lemma_snap(b, if cut > start + 1 { cut } else { start + 1 });
    } else if b[end] == nl() && end + 1 < b.len() && b[end + 1] == nl() {
    } else {
        lemma_para_end(b, start, end + 1, if b[end] == nl() { Some(end + 1) } else { soft });
    }
}

/// The paragraph ranges of `b` from `start` on.
pub open spec fn ranges_from(b: Seq<u8>, start: int) -> Seq<(int, int)>
    decreases b.len() - start,
{
    if start < 0 || start >= b.len() {
        seq![]
    } else {
        let e = para_end(b, start, start, None);
        proof {
            lemma_para_end(b, start, start, None);
        }
        seq![(start, e)] + ranges_from(b, e)
    }
}

/// The paragraph ranges of `b`: one empty range for empty text.
pub open spec fn paragraph_ranges(b: Seq<u8>) -> Seq<(int, int)> {
    if b.len() == 0 {
        seq![(0int, 0int)]
    } else {
        ranges_from(b, 0)
    }
}

/// The ranges of `v` as pairs.
pub open spec fn range_pairs(v: Seq<Range<usize>>) -> Seq<(int, int)> {
    v.map_values(|r: Range<usize>| (r.start as int, r.end as int))
}

/// The ranges tile `[from, to)`: the first starts at `from`, each
/// starts where the previous ended, each is non-empty, the last ends
/// at `to`; and every end is a char boundary.
pub open spec fn tiles(b: Seq<u8>, r: Seq<(int, int)>, from: int, to: int) -> bool {
    &&& r.len() > 0 ==> r[0].0 == from && r.last().1 == to
    &&& r.len() == 0 ==> from == to
    &&& forall|i: int| 0 <= i < r.len() - 1 ==> (#[trigger] r[i]).1 == r[i + 1].0
    &&& forall|i: int| 0 <= i < r.len() ==> (#[trigger] r[i]).0 < r[i].1 && at_boundary(b, r[i].1)
}

proof fn lemma_ranges_tile(b: Seq<u8>, start: int)
    requires
        0 <= start <= b.len(),
    ensures
        tiles(b, ranges_from(b, start), start, b.len() as int),
    decreases b.len() - start,
{
    if start < b.len() {
        let e = para_end(b, start, start, None);
        lemma_para_end(b, start, start, None);
        lemma_ranges_tile(b, e);
        let rest = ranges_from(b, e);
        let r = ranges_from(b, start);
        assert(r == seq![(start, e)] + rest);
        assert forall|i: int| 0 <= i < r.len() - 1 implies (#[trigger] r[i]).1 == r[i + 1].0 by {
            if i > 0 {
                assert(r[i] == rest[i - 1] && r[i + 1] == rest[i]);
            }
        }
        assert forall|i: int| 0 <= i < r.len() implies (#[trigger] r[i]).0 < r[i].1 && at_boundary(
            b,
            r[i].1,
        ) by {
            if i > 0 {
                assert(r[i] == rest[i - 1]);
            }
        }
    }
}

/// The paragraphs tile the whole text (one empty paragraph for empty
/// text), cut only at char boundaries.
pub proof fn law_paragraphs_tile_the_text(b: Seq<u8>)
    ensures
        b.len() == 0 ==> paragraph_ranges(b) == seq![(0int, 0int)],
        b.len() > 0 ==> tiles(b, paragraph_ranges(b), 0, b.len() as int),
{
    if b.len() > 0 {
        lemma_ranges_tile(b, 0);
    }
}

/// Split `bytes` into paragraph byte ranges.
pub fn paragraph_byte_ranges(bytes: &[u8]) -> (out: Vec<Range<usize>>)
    ensures
        range_pairs(out@) == paragraph_ranges(bytes@),
{
    let total = bytes.len();
    let ghost b = bytes@;
    let mut out: Vec<Range<usize>> = Vec::new();
    if total == 0 {
        out.push(0..0);
        proof {
            assert(range_pairs(out@) =~= seq![(0int, 0int)]);
        }
        return out;
    }
    let mut start: usize = 0;
    proof {
        assert(range_pairs(out@) + ranges_from(b, 0) =~= ranges_from(b, 0));
    }
    while start < total
        invariant
            b == bytes@,
            total == b.len(),
            total > 0,
            start <= total,
            range_pairs(out@) + ranges_from(b, start as int) == ranges_from(b, 0),
        decreases total - start,
    {
        let mut end: usize = start;
        let mut soft_end: Option<usize> = None;
        let ghost target = para_end(b, start as int, start as int, None);
        proof {
            lemma_para_end(b, start as int, start as int, None);
        }
        loop
            invariant_except_break
                target == para_end(
                    b,
                    start as int,
                    end as int,
                    match soft_end {
                        Some(s) => Some(s as int),
                        None => None,
                    },
                ),
                soft_end matches Some(s) ==> start < s <= end,
            invariant
                b == bytes@,
                total == b.len(),
                start < total,
                start <= end <= total,
            ensures
                end == target,
            decreases total - end,
        {
            if end >= total {
                break;
            }
            if end - start >= MAX_PARAGRAPH_BYTES {
                let cut = match soft_end {
                    Some(s) => s,
                    None => end,
                };
                end = if cut > start + 1 {
                    cut
                } else {
                    start + 1
                };
                proof {
                    lemma_snap(b, end as int);
                }
                while end < total && !is_byte_char_boundary(bytes, end)
                    invariant
                        b == bytes@,
                        total == b.len(),
                        end <= total,
                        target == snap(b, end as int),
                    decreases total - end,
                {
                    end += 1;
                }
                break;
            }
            if bytes[end] == 0x0au8 && end + 1 < total && bytes[end + 1] == 0x0au8 {
                end += 1;
                break;
            }
            if bytes[end] == 0x0au8 {
                soft_end = Some(end + 1);
            }
            end += 1;
        }
        proof {
            lemma_para_end(b, start as int, start as int, None);
            let r = ranges_from(b, start as int);
            assert(r == seq![(start as int, end as int)] + ranges_from(b, end as int));
        }
        let ghost before = out@;
        out.push(start..end);
        proof {
            assert(range_pairs(out@) =~= range_pairs(before).push((start as int, end as int)));
            assert(range_pairs(out@) + ranges_from(b, end as int) =~= range_pairs(before) + (seq![
                (start as int, end as int),
            ] + ranges_from(b, end as int)));
        }
        start = end;
    }
    proof {
        assert(ranges_from(b, start as int) =~= seq![]);
        assert(range_pairs(out@) + seq![] =~= range_pairs(out@));
    }
    out
}

/// `x + delta` as a `u32`, saturating at both ends.
pub open spec fn shift_u32(x: u32, delta: int) -> u32 {
    if x + delta < 0 {
        u32::MAX
    } else if x + delta > u32::MAX {
        u32::MAX
    } else {
        (x + delta) as u32
    }
}

/// `x + off` as a `u32`, saturating.
pub open spec fn add_sat_u32(x: u32, off: u32) -> u32 {
    if x + off > u32::MAX {
        u32::MAX
    } else {
        (x + off) as u32
    }
}

/// `n` as a `u32`, saturating.
pub open spec fn sat_u32(n: int) -> u32 {
    if n > u32::MAX {
        u32::MAX
    } else {
        n as u32
    }
}

/// The span `s` moved by `f` on both offsets, text shared.
pub open spec fn moved(s: GaijiSpan, t: GaijiSpan, start: u32, end: u32) -> bool {
    &&& t.start_byte == start
    &&& t.end_byte == end
    &&& t.description@ == s.description@
    &&& match (t.mencode, s.mencode) {
        (Some(a), Some(b)) => a@ == b@,
        (None, None) => true,
        _ => false,
    }
}

fn copy_span(s: &GaijiSpan, start: u32, end: u32) -> (t: GaijiSpan)
    ensures
        moved(*s, t, start, end),
{
    let mencode = match &s.mencode {
        Some(m) => Some(m.clone()),
        None => None,
    };
    GaijiSpan { start_byte: start, end_byte: end, description: s.description.clone(), mencode }
}

/// Move paragraph-local spans to document-absolute offsets by adding
/// `offset` (saturated to `u32`) to both ends, saturating.
pub fn shift_to_absolute(spans: &[GaijiSpan], offset: usize) -> (out: Vec<GaijiSpan>)
    ensures
        out@.len() == spans@.len(),
        forall|i: int|
            0 <= i < spans@.len() ==> moved(
                spans@[i],
                #[trigger] out@[i],
                add_sat_u32(spans@[i].start_byte, sat_u32(offset as int)),
                add_sat_u32(spans@[i].end_byte, sat_u32(offset as int)),
            ),
{
    let off: u32 = if offset <= 0xffff_ffffusize {
        offset as u32
    } else {
        u32::MAX
    };
    let mut out: Vec<GaijiSpan> = Vec::new();
    let mut i: usize = 0;
    while i < spans.len()
        invariant
            i <= spans@.len(),
            off == sat_u32(offset as int),
            out@.len() == i,
            forall|k: int|
                0 <= k < i ==> moved(
                    spans@[k],
                    #[trigger] out@[k],
                    add_sat_u32(spans@[k].start_byte, off),
                    add_sat_u32(spans@[k].end_byte, off),
                ),
        decreases spans@.len() - i,
    {
        let s = &spans[i];
        let a = s.start_byte.saturating_add(off);
        let e = s.end_byte.saturating_add(off);
        out.push(copy_span(s, a, e));
        i += 1;
    }
    out
}

/// Move document-absolute spans of a paragraph from `prior_start` to
/// `new_start`: each offset moves by the difference (both starts
/// saturated to `i64`), and lands saturated to `u32` (a negative result
/// saturates to `u32::MAX` as well).
pub fn shift_existing_spans(spans: &[GaijiSpan], prior_start: usize, new_start: usize) -> (out: Vec<GaijiSpan>)
    requires
        new_start as int + u32::MAX <= i64::MAX,
    ensures
        out@.len() == spans@.len(),
        forall|i: int|
            0 <= i < spans@.len() ==> moved(
                spans@[i],
                #[trigger] out@[i],
                shift_u32(spans@[i].start_byte, sat_i64(new_start as int) - sat_i64(prior_start as int)),
                shift_u32(spans@[i].end_byte, sat_i64(new_start as int) - sat_i64(prior_start as int)),
            ),
{
    let new_signed: i64 = new_start as i64;
    let prior_signed: i64 = if (prior_start as u128) <= (i64::MAX as u128) {
        prior_start as i64
    } else {
        i64::MAX
    };
    let delta: i64 = new_signed - prior_signed;
    let mut out: Vec<GaijiSpan> = Vec::new();
    let mut i: usize = 0;
    while i < spans.len()
        invariant
            i <= spans@.len(),
            delta == sat_i64(new_start as int) - sat_i64(prior_start as int),
            0 <= new_start as int + u32::MAX <= i64::MAX,
            delta <= new_start,
            delta >= -(i64::MAX as int),
            out@.len() == i,
            forall|k: int|
                0 <= k < i ==> moved(
                    spans@[k],
                    #[trigger] out@[k],
                    shift_u32(spans@[k].start_byte, delta as int),
                    shift_u32(spans@[k].end_byte, delta as int),
                ),
        decreases spans@.len() - i,
    {
        let s = &spans[i];
        let a: i64 = s.start_byte as i64 + delta;
        let e: i64 = s.end_byte as i64 + delta;
        let a32: u32 = if a < 0 || a > 0xffff_ffffi64 {
            u32::MAX
        } else {
            a as u32
        };
        let e32: u32 = if e < 0 || e > 0xffff_ffffi64 {
            u32::MAX
        } else {
            e as u32
        };
        out.push(copy_span(s, a32, e32));
        i += 1;
    }
    out
}

/// `n` as an `i64`, saturating.
pub open spec fn sat_i64(n: int) -> int {
    if n > i64::MAX {
        i64::MAX as int
    } else {
        n
    }
}

} // verus!

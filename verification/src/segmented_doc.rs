//! Per-paragraph incremental parsing: how a document is cut into
//! segments, what an edit does to the segment list — widen the one
//! segment it falls in and shift the ones after it, or, when it crosses a
//! boundary or grows a segment past the cap, re-segment the whole text —
//! and a document that keeps one syntax tree per segment.

use vstd::prelude::*;
use vstd::string::*;
use vstd::utf8::*;
use core::ops::Range;

use crate::doc_state::InputEdit;
use crate::incremental::{ts_nodes, IncrementalDoc, NodeInfo};
use crate::paragraph::is_byte_char_boundary;
use crate::utf8_bytes::{at_boundary, lemma_boundary_iff, lemma_str_valid, substr};

verus! {

/// Maximum segment size in bytes.
pub const MAX_SEGMENT_BYTES: usize = 65536;

/// Where the segment starting at `start` ends, scanning on from `end`
/// with `soft` the end just past the last single `\n` seen.
pub open spec fn seg_end(b: Seq<u8>, start: int, end: int, soft: Option<int>) -> int
    decreases b.len() - end,
{
    if end >= b.len() {
        end
    } else if end - start >= MAX_SEGMENT_BYTES {
        let cut = match soft {
            Some(s) => s,
            None => end,
        };
        if cut > start + 1 {
            cut
        } else {
            start + 1
        }
    } else if b[end] == 0x0au8 && end + 1 < b.len() && b[end + 1] == 0x0au8 {
        end + 1
    } else {
        seg_end(b, start, end + 1, if b[end] == 0x0au8 { Some(end + 1) } else { soft })
    }
}

/// A segment ends after it starts and within the text.
pub proof fn lemma_seg_end(b: Seq<u8>, start: int, end: int, soft: Option<int>)
    requires
        0 <= start <= end <= b.len(),
        start < b.len(),
        soft matches Some(s) ==> start < s <= end,
    ensures
        start < seg_end(b, start, end, soft) <= b.len(),
    decreases b.len() - end,
{
    if end < b.len() && end - start < MAX_SEGMENT_BYTES && !(b[end] == 0x0au8 && end + 1 < b.len()
        && b[end + 1] == 0x0au8) {
        lemma_seg_end(b, start, end + 1, if b[end] == 0x0au8 { Some(end + 1) } else { soft });
    }
}

/// The segment ranges of `b` from `start` on.
pub open spec fn segments_from(b: Seq<u8>, start: int) -> Seq<(int, int)>
    decreases b.len() - start,
{
    if start < 0 || start >= b.len() {
        seq![]
    } else {
        let e = seg_end(b, start, start, None);
        proof {
            lemma_seg_end(b, start, start, None);
        }
        seq![(start, e)] + segments_from(b, e)
    }
}

/// The segmentation of `b`: one empty segment for empty text.
pub open spec fn segmentation(b: Seq<u8>) -> Seq<(int, int)> {
    if b.len() == 0 {
        seq![(0int, 0int)]
    } else {
        segments_from(b, 0)
    }
}

/// The ranges of `v` as pairs.
pub open spec fn pairs(v: Seq<Range<usize>>) -> Seq<(int, int)> {
    v.map_values(|r: Range<usize>| (r.start as int, r.end as int))
}

/// Consecutive non-empty ranges covering `[from, to)`.
pub open spec fn covers(r: Seq<(int, int)>, from: int, to: int) -> bool {
    &&& r.len() > 0 ==> r[0].0 == from && r.last().1 == to
    &&& r.len() == 0 ==> from == to
    &&& forall|i: int| 0 <= i < r.len() - 1 ==> (#[trigger] r[i]).1 == r[i + 1].0
    &&& forall|i: int| 0 <= i < r.len() ==> (#[trigger] r[i]).0 < r[i].1
}

proof fn lemma_segments_cover(b: Seq<u8>, start: int)
    requires
        0 <= start <= b.len(),
    ensures
        covers(segments_from(b, start), start, b.len() as int),
    decreases b.len() - start,
{
    if start < b.len() {
        let e = seg_end(b, start, start, None);
        lemma_seg_end(b, start, start, None);
        lemma_segments_cover(b, e);
        let rest = segments_from(b, e);
        let r = segments_from(b, start);
        assert(r == seq![(start, e)] + rest);
        assert forall|i: int| 0 <= i < r.len() - 1 implies (#[trigger] r[i]).1 == r[i + 1].0 by {
            if i > 0 {
                assert(r[i] == rest[i - 1] && r[i + 1] == rest[i]);
            }
        }
        assert forall|i: int| 0 <= i < r.len() implies (#[trigger] r[i]).0 < r[i].1 by {
            if i > 0 {
                assert(r[i] == rest[i - 1]);
            }
        }
    }
}

/// The segments tile the whole text with no gap or overlap.
pub proof fn law_segments_cover_the_text(b: Seq<u8>)
    ensures
        b.len() == 0 ==> segmentation(b) == seq![(0int, 0int)],
        b.len() > 0 ==> covers(segmentation(b), 0, b.len() as int),
{
    if b.len() > 0 {
        lemma_segments_cover(b, 0);
    }
}

/// Cut `bytes` into segments.
pub fn segment_ranges(bytes: &[u8]) -> (out: Vec<Range<usize>>)
    ensures
        pairs(out@) == segmentation(bytes@),
{
    let total = bytes.len();
    let ghost b = bytes@;
    let mut out: Vec<Range<usize>> = Vec::new();
    if total == 0 {
        out.push(0..0);
        proof {
            assert(pairs(out@) =~= seq![(0int, 0int)]);
        }
        return out;
    }
    let mut start: usize = 0;
    proof {
        assert(pairs(out@) + segments_from(b, 0) =~= segments_from(b, 0));
    }
    while start < total
        invariant
            b == bytes@,
            total == b.len(),
            start <= total,
            pairs(out@) + segments_from(b, start as int) == segments_from(b, 0),
        decreases total - start,
    {
        let mut end: usize = start;
        let mut soft_end: Option<usize> = None;
        let ghost target = seg_end(b, start as int, start as int, None);
        loop
            invariant_except_break
                target == seg_end(
                    b,
                    start as int,
                    end as int,
                    match soft_end {
                        Some(s) => Some(s as int),
                        None => None,
                    },
                ),
                soft_end matches Some(s) ==> start < s <= end,
            invariant
                b == bytes@,
                total == b.len(),
                start < total,
                start <= end <= total,
            ensures
                end == target,
            decreases total - end,
        {
            if end >= total {
                break;
            }
            if end - start >= MAX_SEGMENT_BYTES {
                let candidate = match soft_end {
                    Some(s) => s,
                    None => end,
                };
                end = if candidate > start + 1 {
                    candidate
                } else {
                    start + 1
                };
                break;
            }
            if bytes[end] == 0x0au8 && end + 1 < total && bytes[end + 1] == 0x0au8 {
                end += 1;
                break;
            }
            if bytes[end] == 0x0au8 {
                soft_end = Some(end + 1);
            }
            end += 1;
        }
        proof {
            lemma_seg_end(b, start as int, start as int, None);
            assert(segments_from(b, start as int) == seq![(start as int, end as int)] + segments_from(
                b,
                end as int,
            ));
        }
        let ghost before = out@;
        out.push(start..end);
        proof {
            assert(pairs(out@) =~= pairs(before).push((start as int, end as int)));
            assert(pairs(out@) + segments_from(b, end as int) =~= pairs(before) + (seq![
                (start as int, end as int),
            ] + segments_from(b, end as int)));
        }
        start = end;
    }
    proof {
        assert(segments_from(b, start as int) =~= seq![]);
        assert(pairs(out@) + seq![] =~= pairs(out@));
    }
    out
}

/// Offsets small enough that shifting them never overflows `i64`.
pub open spec fn small(n: int) -> bool {
    0 <= n <= 0x3fff_ffff_ffff_ffff
}

/// The signed size change of an edit.
#[derive(Debug, Clone, Copy, PartialEq, Eq, Structural)]
pub struct ByteDelta(pub i64);

/// `off` moved by `d`, floored at zero (and zero when it would not fit
/// a `usize`).
pub open spec fn shifted(off: int, d: int) -> int {
    if off + d < 0 || off + d > usize::MAX {
        0
    } else {
        off + d
    }
}

impl ByteDelta {
    /// The delta of an edit that turns `old_end_byte` into
    /// `new_end_byte`.
    pub fn from_edit(old_end_byte: usize, new_end_byte: usize) -> (d: Self)
        requires
            small(old_end_byte as int),
            small(new_end_byte as int),
        ensures
            d.0 == new_end_byte - old_end_byte,
    {
        ByteDelta(new_end_byte as i64 - old_end_byte as i64)
    }

    /// `byte_offset` moved by the delta, saturating at zero.
    pub fn apply(self, byte_offset: usize) -> (r: usize)
        requires
            small(byte_offset as int),
            small(self.0 as int) || small(-(self.0 as int)),
        ensures
            r == shifted(byte_offset as int, self.0 as int),
    {
        let signed: i64 = byte_offset as i64 + self.0;
        if signed < 0 {
            0
        } else if (signed as u64) <= (usize::MAX as u64) {
            signed as usize
        } else {
            0
        }
    }

    /// Like [`Self::apply`], but never below `floor`.
    pub fn apply_clamped(self, byte_offset: usize, floor: usize) -> (r: usize)
        requires
            small(byte_offset as int),
            small(self.0 as int) || small(-(self.0 as int)),
        ensures
            r == (if shifted(byte_offset as int, self.0 as int) < floor {
                floor as int
            } else {
                shifted(byte_offset as int, self.0 as int)
            }),
    {
        let r = self.apply(byte_offset);
        if r < floor {
            floor
        } else {
            r
        }
    }
}

/// Which segments an edit touches.
#[derive(Debug, Clone, Copy, PartialEq, Eq, Structural)]
pub enum TouchedSegments {
    /// Only the segment at this index.
    Single(usize),
    /// More than one segment.
    Multiple,
}

/// Range ends never decrease.
pub open spec fn ends_ordered(r: Seq<(int, int)>) -> bool {
    forall|i: int, j: int| 0 <= i <= j < r.len() ==> r[i].1 <= r[j].1
}

/// How many leading segments end before `start`.
pub open spec fn ended_before(r: Seq<(int, int)>, start: int) -> int
    decreases r.len(),
{
    if r.len() == 0 || r[0].1 >= start {
        0
    } else {
        1 + ended_before(r.drop_first(), start)
    }
}

proof fn lemma_ended(r: Seq<(int, int)>, start: int, k: int)
    requires
        ends_ordered(r),
        0 <= k <= r.len(),
        forall|i: int| 0 <= i < k ==> (#[trigger] r[i]).1 < start,
        k == r.len() || r[k].1 >= start,
    ensures
        ended_before(r, start) == k,
    decreases k,
{
    if k > 0 {
        let t = r.drop_first();
        assert forall|i: int, j: int| 0 <= i <= j < t.len() implies t[i].1 <= t[j].1 by {
            assert(t[i] == r[i + 1] && t[j] == r[j + 1]);
        }
        assert forall|i: int| 0 <= i < k - 1 implies (#[trigger] t[i]).1 < start by {
            assert(t[i] == r[i + 1]);
        }
        lemma_ended(t, start, k - 1);
    }
}

/// The segment holding `start`: the first that does not end before it
/// (the last one when all do), so a boundary belongs to the segment on
/// its left; the edit stays in it when `old_end` does not pass its end.
pub open spec fn locate_spec(r: Seq<(int, int)>, start: int, old_end: int) -> TouchedSegments {
    let k = ended_before(r, start);
    let idx = if k < r.len() - 1 {
        k
    } else {
        r.len() - 1
    };
    if old_end <= r[idx].1 {
        TouchedSegments::Single(idx as usize)
    } else {
        TouchedSegments::Multiple
    }
}

/// Find which segment(s) the edit `[start, old_end)` falls in.
pub fn locate_segment(segments: &[Range<usize>], start: usize, old_end: usize) -> (t: TouchedSegments)
    requires
        segments@.len() > 0,
        ends_ordered(pairs(segments@)),
    ensures
        t == locate_spec(pairs(segments@), start as int, old_end as int),
        t matches TouchedSegments::Single(i) ==> i < segments@.len(),
{
    let ghost r = pairs(segments@);
    let mut lo: usize = 0;
    let mut hi: usize = segments.len();
    while lo < hi
        invariant
            r == pairs(segments@),
            ends_ordered(r),
            0 <= lo <= hi <= segments@.len(),
            forall|i: int| 0 <= i < lo ==> (#[trigger] r[i]).1 < start,
            forall|i: int| hi <= i < r.len() ==> (#[trigger] r[i]).1 >= start,
        decreases hi - lo,
    {
        let mid = lo + (hi - lo) / 2;
        proof {
            assert(r[mid as int].1 == segments@[mid as int].end);
        }
        if segments[mid].end < start {
            proof {
                assert forall|i: int| 0 <= i < mid + 1 implies (#[trigger] r[i]).1 < start by {
                    assert(r[i].1 <= r[mid as int].1);
                }
            }
            lo = mid + 1;
        } else {
            proof {
                assert forall|i: int| mid <= i < r.len() implies (#[trigger] r[i]).1 >= start by {
                    assert(r[mid as int].1 <= r[i].1);
                }
            }
            hi = mid;
        }
    }
    proof {
        lemma_ended(r, start as int, lo as int);
    }
    let last = segments.len() - 1;
    let idx = if lo < last {
        lo
    } else {
        last
    };
    proof {
        assert(r[idx as int].1 == segments@[idx as int].end);
    }
    if old_end <= segments[idx].end {
        TouchedSegments::Single(idx)
    } else {
        TouchedSegments::Multiple
    }
}

/// What to do with the segment list after an edit.
#[derive(Debug, Clone, PartialEq, Eq)]
pub enum EditPlan {
    /// Re-segment the whole new text.
    Resegment,
    /// Re-parse only segment `index`; the segments now span `ranges`.
    Reparse { index: usize, ranges: Vec<Range<usize>> },
}

/// The segment list after an edit that stays inside segment `idx`:
/// that segment's end moves by `d` (never before its start), and every
/// later segment moves by `d`.
pub open spec fn widened(r: Seq<(int, int)>, idx: int, d: int) -> Seq<(int, int)> {
    Seq::new(
        r.len(),
        |i: int|
            if i < idx {
                r[i]
            } else if i == idx {
                (r[i].0, if shifted(r[i].1, d) < r[i].0 {
                    r[i].0
                } else {
                    shifted(r[i].1, d)
                })
            } else {
                (shifted(r[i].0, d), shifted(r[i].1, d))
            },
    )
}

/// The plan for an edit replacing `[start_byte, old_end_byte)` so that
/// it ends at `new_end_byte`: re-segment when there are no segments yet,
/// when the edit crosses a segment boundary, or when the touched
/// segment would grow past the cap; otherwise re-parse the touched
/// segment in the widened list.
pub open spec fn plan_spec(
    r: Seq<(int, int)>,
    start_byte: int,
    old_end_byte: int,
    new_end_byte: int,
) -> Option<(int, Seq<(int, int)>)> {
    if r.len() == 0 {
        None
    } else {
        match locate_spec(r, start_byte, old_end_byte) {
            TouchedSegments::Multiple => None,
            TouchedSegments::Single(idx) => {
                let w = widened(r, idx as int, new_end_byte - old_end_byte);
                if w[idx as int].1 - w[idx as int].0 > MAX_SEGMENT_BYTES {
                    None
                } else {
                    Some((idx as int, w))
                }
            },
        }
    }
}

/// Plan the segment update for an edit.
pub fn plan_edit(
    segments: &[Range<usize>],
    start_byte: usize,
    old_end_byte: usize,
    new_end_byte: usize,
) -> (p: EditPlan)
    requires
        ends_ordered(pairs(segments@)),
        forall|i: int| 0 <= i < segments@.len() ==> #[trigger] small(segments@[i].end as int)
            && small(segments@[i].start as int),
        small(old_end_byte as int),
        small(new_end_byte as int),
    ensures
        match (p, plan_spec(pairs(segments@), start_byte as int, old_end_byte as int, new_end_byte as int)) {
            (EditPlan::Resegment, None) => true,
            (EditPlan::Reparse { index, ranges }, Some(x)) => index == x.0 && pairs(ranges@) == x.1,
            _ => false,
        },
{
    if segments.len() == 0 {
        return EditPlan::Resegment;
    }
    let ghost r = pairs(segments@);
    let delta = ByteDelta::from_edit(old_end_byte, new_end_byte);
    let idx = match locate_segment(segments, start_byte, old_end_byte) {
        TouchedSegments::Multiple => {
            return EditPlan::Resegment;
        },
        TouchedSegments::Single(i) => i,
    };
    let ghost w = widened(r, idx as int, delta.0 as int);
    let prev_start = segments[idx].start;
    let prev_end = segments[idx].end;
    proof {
        assert(small(segments@[idx as int].end as int));
        assert(r[idx as int] == (prev_start as int, prev_end as int));
    }
    let new_end = delta.apply_clamped(prev_end, prev_start);
    if new_end - prev_start > MAX_SEGMENT_BYTES {
        return EditPlan::Resegment;
    }
    let mut ranges: Vec<Range<usize>> = Vec::new();
    let mut i: usize = 0;
    while i < segments.len()
        invariant
            r == pairs(segments@),
            w == widened(r, idx as int, delta.0 as int),
            idx < segments@.len(),
            small(delta.0 as int) || small(-(delta.0 as int)),
            forall|k: int| 0 <= k < segments@.len() ==> #[trigger] small(segments@[k].end as int)
                && small(segments@[k].start as int),
            new_end == w[idx as int].1,
            prev_start == w[idx as int].0,
            i <= segments@.len(),
            pairs(ranges@) == w.take(i as int),
        decreases segments@.len() - i,
    {
        let ghost before = ranges@;
        proof {
            assert(small(segments@[i as int].end as int) && small(segments@[i as int].start as int));
            assert(r[i as int] == (segments@[i as int].start as int, segments@[i as int].end as int));
        }
        if i < idx {
            ranges.push(segments[i].start..segments[i].end);
        } else if i == idx {
            ranges.push(prev_start..new_end);
        } else {
            let s = delta.apply(segments[i].start);
            let e = delta.apply(segments[i].end);
            ranges.push(s..e);
        }
        proof {
            assert(pairs(ranges@) =~= pairs(before).push(w[i as int]));
            assert(w.take(i + 1) =~= w.take(i as int).push(w[i as int]));
        }
        i += 1;
    }
    proof {
        assert(w.take(segments@.len() as int) =~= w);
    }
    EditPlan::Reparse { index: idx, ranges }
}


/// Ranges laid end to end from `from` to `to`: the first starts at
/// `from`, the last ends at `to`, each ends where the next starts, and
/// none ends before it starts.
pub open spec fn tiles(r: Seq<(int, int)>, from: int, to: int) -> bool {
    &&& r.len() > 0
    &&& r[0].0 == from
    &&& r.last().1 == to
    &&& forall|i: int| 0 <= i < r.len() - 1 ==> (#[trigger] r[i]).1 == r[i + 1].0
    &&& forall|i: int| 0 <= i < r.len() ==> (#[trigger] r[i]).0 <= r[i].1
}

proof fn lemma_ended_props(r: Seq<(int, int)>, start: int)
    ensures
        0 <= ended_before(r, start) <= r.len(),
        forall|i: int| 0 <= i < ended_before(r, start) ==> (#[trigger] r[i]).1 < start,
        ended_before(r, start) < r.len() ==> r[ended_before(r, start)].1 >= start,
    decreases r.len(),
{
    if r.len() > 0 && r[0].1 < start {
        let t = r.drop_first();
        lemma_ended_props(t, start);
        assert forall|i: int| 0 <= i < ended_before(r, start) implies (#[trigger] r[i]).1 < start by {
            if i > 0 {
                assert(r[i] == t[i - 1]);
            }
        }
        if ended_before(r, start) < r.len() {
            assert(r[ended_before(r, start)] == t[ended_before(t, start)]);
        }
    }
}

proof fn lemma_tiles_ordered(r: Seq<(int, int)>, from: int, to: int, j: int)
    requires
        tiles(r, from, to),
        0 <= j < r.len(),
    ensures
        forall|i: int| 0 <= i < j ==> (#[trigger] r[i]).1 <= r[j].0,
        from <= r[j].0,
        r[j].1 <= to,
    decreases j,
{
    if j > 0 {
        lemma_tiles_ordered(r, from, to, j - 1);
        assert(r[j - 1].1 == r[j].0);
    }
    lemma_tiles_bounded_above(r, from, to, j);
}

proof fn lemma_tiles_bounded_above(r: Seq<(int, int)>, from: int, to: int, j: int)
    requires
        tiles(r, from, to),
        0 <= j < r.len(),
    ensures
        r[j].1 <= to,
    decreases r.len() - j,
{
    if j < r.len() - 1 {
        lemma_tiles_bounded_above(r, from, to, j + 1);
        assert(r[j].1 == r[j + 1].0);
    }
}

/// An edit that stays inside one segment keeps the segments tiling the
/// text: when the segments tile the old text and the edit replaces
/// `[start_byte, old_end_byte)` of it with bytes ending at
/// `new_end_byte`, the widened list the plan re-parses in tiles the new
/// text — no gap, no overlap.
pub proof fn law_planned_segments_tile_the_new_text(
    r: Seq<(int, int)>,
    old_len: int,
    start_byte: int,
    old_end_byte: int,
    new_end_byte: int,
)
    requires
        tiles(r, 0, old_len),
        r.len() <= usize::MAX,
        0 <= start_byte <= old_end_byte <= old_len,
        start_byte <= new_end_byte,
        old_len - old_end_byte + new_end_byte <= usize::MAX,
    ensures
        match plan_spec(r, start_byte, old_end_byte, new_end_byte) {
            Some(p) => tiles(p.1, 0, old_len - old_end_byte + new_end_byte),
            None => true,
        },
{
    let k = ended_before(r, start_byte);
    lemma_ended_props(r, start_byte);
    let last = r.len() - 1;
    if k == r.len() {
        assert(r[last].1 < start_byte);
    }
    assert(k < r.len());
    let d = new_end_byte - old_end_byte;
    let new_len = old_len + d;
    match plan_spec(r, start_byte, old_end_byte, new_end_byte) {
        None => {},
        Some(p) => {
            let idx = k;
            assert(p.0 == idx);
            let w = p.1;
            assert(w == widened(r, idx, d));
            assert(old_end_byte <= r[idx].1);
            lemma_tiles_ordered(r, 0, old_len, idx);
            if idx > 0 {
                assert(r[idx - 1].1 == r[idx].0);
                assert(r[idx - 1].1 < start_byte);
            }
            assert(r[idx].0 <= start_byte);
            assert forall|i: int| idx < i < r.len() implies r[idx].1 <= (#[trigger] r[i]).0 && r[i].1
                <= old_len by {
                lemma_tiles_ordered(r, 0, old_len, i);
            }
            assert(w[idx].1 == r[idx].1 + d);
            assert forall|i: int| idx < i < r.len() implies (#[trigger] w[i]) == (r[i].0 + d, r[i].1 + d) by {
                lemma_tiles_ordered(r, 0, old_len, i);
            }
            assert forall|i: int| 0 <= i < w.len() - 1 implies (#[trigger] w[i]).1 == w[i + 1].0 by {
                if i + 1 < idx {
                } else if i + 1 == idx {
                } else if i == idx {
                    assert(w[i + 1] == (r[i + 1].0 + d, r[i + 1].1 + d));
                } else {
                    assert(w[i + 1] == (r[i + 1].0 + d, r[i + 1].1 + d));
                }
            }
            assert forall|i: int| 0 <= i < w.len() implies (#[trigger] w[i]).0 <= w[i].1 by {
                if i > idx {
                    assert(w[i] == (r[i].0 + d, r[i].1 + d));
                }
            }
            if last > idx {
                assert(w[last] == (r[last].0 + d, r[last].1 + d));
            }
        },
    }
}


/// The tree of the segment `start..end` of `b`: when the range lies in
/// `b` on char boundaries, the grammar's tree of its text; otherwise none.
pub open spec fn segment_tree_ok(b: Seq<u8>, start: usize, end: usize, d: IncrementalDoc) -> bool {
    if start <= end <= b.len() && at_boundary(b, start as int) && at_boundary(b, end as int) {
        d.nodes() == Some(ts_nodes(decode_utf8(b.subrange(start as int, end as int))))
    } else {
        d.nodes() is None
    }
}

/// Parse the segment `start..end` of `text` on its own.
fn parse_segment(text: &str, start: usize, end: usize) -> (d: IncrementalDoc)
    ensures
        segment_tree_ok(text.spec_bytes(), start, end, d),
{
    let bytes = text.as_bytes();
    let mut d = IncrementalDoc::new();
    if start <= end && end <= bytes.len() && is_byte_char_boundary(bytes, start) && is_byte_char_boundary(
        bytes,
        end,
    ) {
        proof {
            lemma_str_valid(text);
            lemma_boundary_iff(bytes@, start as int);
            lemma_boundary_iff(bytes@, end as int);
        }
        let seg = substr(text, start, end);
        proof {
            encode_utf8_decode_utf8(seg@);
        }
        d.parse_full(seg);
    }
    d
}

/// An edit the segment list can follow: it lies in the old text, its new
/// end lies in the new text, the bytes after it are as many in both, and
/// both lengths are small.
pub open spec fn edit_fits(old_len: int, new_len: int, e: InputEdit) -> bool {
    &&& e.start_byte <= e.old_end_byte <= old_len
    &&& e.start_byte <= e.new_end_byte <= new_len
    &&& old_len - e.old_end_byte == new_len - e.new_end_byte
    &&& small(old_len)
    &&& small(new_len)
}

/// A document cut into segments, each with its own syntax tree.
pub struct SegmentedDoc {
    segments: Vec<Range<usize>>,
    trees: Vec<IncrementalDoc>,
    text_len: usize,
}

impl SegmentedDoc {
    /// The segments' byte ranges.
    pub closed spec fn segments_view(&self) -> Seq<Range<usize>> {
        self.segments@
    }

    /// The segments' trees, one per segment.
    pub closed spec fn trees_view(&self) -> Seq<IncrementalDoc> {
        self.trees@
    }

    /// The length of the text the segments cover.
    pub closed spec fn text_len_view(&self) -> nat {
        self.text_len as nat
    }

    /// One tree per segment, and the segments, once there are any, tile
    /// the text.
    pub closed spec fn well_formed(&self) -> bool {
        &&& self.trees@.len() == self.segments@.len()
        &&& self.segments@.len() > 0 ==> tiles(pairs(self.segments@), 0, self.text_len as int)
        &&& self.segments@.len() == 0 ==> self.text_len == 0
    }

    /// What an edit to a text of `new_len` bytes does to the segments: the
    /// widened list and the segment to re-parse, or `None` to re-segment.
    pub open spec fn planned(&self, new_len: nat, e: InputEdit) -> Option<(int, Seq<(int, int)>)> {
        if self.segments_view().len() > 0 && edit_fits(self.text_len_view() as int, new_len as int, e) {
            plan_spec(
                pairs(self.segments_view()),
                e.start_byte as int,
                e.old_end_byte as int,
                e.new_end_byte as int,
            )
        } else {
            None
        }
    }

    /// A document with no segments yet.
    pub fn new() -> (d: Self)
        ensures
            d.well_formed(),
            d.segments_view().len() == 0,
    {
        SegmentedDoc { segments: Vec::new(), trees: Vec::new(), text_len: 0 }
    }

    /// Cut `text` into segments and parse each on its own.
    pub fn parse_full(&mut self, text: &str)
        ensures
            final(self).well_formed(),
            pairs(final(self).segments_view()) == segmentation(text.spec_bytes()),
            final(self).text_len_view() == text.spec_bytes().len(),
            tiles(pairs(final(self).segments_view()), 0, text.spec_bytes().len() as int),
            forall|i: int|
                0 <= i < final(self).segments_view().len() ==> segment_tree_ok(
                    text.spec_bytes(),
                    #[trigger] final(self).segments_view()[i].start,
                    final(self).segments_view()[i].end,
                    final(self).trees_view()[i],
                ),
    {
        let bytes = text.as_bytes();
        let segments = segment_ranges(bytes);
        proof {
            law_segments_cover_the_text(bytes@);
            if bytes@.len() > 0 {
                assert(segments_from(bytes@, 0).len() > 0);
            }
        }
        let mut trees: Vec<IncrementalDoc> = Vec::new();
        let mut i: usize = 0;
        while i < segments.len()
            invariant
                i <= segments@.len(),
                trees@.len() == i,
                bytes@ == text.spec_bytes(),
                forall|k: int|
                    0 <= k < i ==> segment_tree_ok(
                        bytes@,
                        #[trigger] segments@[k].start,
                        segments@[k].end,
                        trees@[k],
                    ),
            decreases segments@.len() - i,
        {
            let d = parse_segment(text, segments[i].start, segments[i].end);
            trees.push(d);
            i += 1;
        }
        self.segments = segments;
        self.trees = trees;
        self.text_len = bytes.len();
    }

    /// The buffer now reads `new_text`, after the change `edit` describes.
    /// An edit that stays inside one segment widens it, shifts the ones
    /// after it and re-parses only it; any other change re-segments and
    /// re-parses the whole text. Either way the segments tile the new text.
    pub fn apply_edit(&mut self, new_text: &str, edit: InputEdit)
        requires
            old(self).well_formed(),
        ensures
            final(self).well_formed(),
            final(self).text_len_view() == new_text.spec_bytes().len(),
            tiles(pairs(final(self).segments_view()), 0, new_text.spec_bytes().len() as int),
            match old(self).planned(new_text.spec_bytes().len(), edit) {
                Some(p) => {
                    &&& pairs(final(self).segments_view()) == p.1
                    &&& forall|i: int|
                        0 <= i < final(self).trees_view().len() && i != p.0
                            ==> #[trigger] final(self).trees_view()[i] == old(self).trees_view()[i]
                    &&& segment_tree_ok(
                        new_text.spec_bytes(),
                        final(self).segments_view()[p.0].start,
                        final(self).segments_view()[p.0].end,
                        final(self).trees_view()[p.0],
                    )
                },
                None => {
                    &&& pairs(final(self).segments_view()) == segmentation(new_text.spec_bytes())
                    &&& forall|i: int|
                        0 <= i < final(self).segments_view().len() ==> segment_tree_ok(
                            new_text.spec_bytes(),
                            #[trigger] final(self).segments_view()[i].start,
                            final(self).segments_view()[i].end,
                            final(self).trees_view()[i],
                        )
                },
            },
    {
        let new_len = new_text.as_bytes().len();
        let s = edit.start_byte;
        let oe = edit.old_end_byte;
        let ne = edit.new_end_byte;
        let fits = self.segments.len() > 0 && s <= oe && oe <= self.text_len && s <= ne && ne <= new_len
            && self.text_len - oe == new_len - ne && (self.text_len as u64) <= 0x3fff_ffff_ffff_ffffu64
            && (new_len as u64) <= 0x3fff_ffff_ffff_ffffu64;
        if !fits {
            self.parse_full(new_text);
            return;
        }
        let ghost r = pairs(self.segments@);
        proof {
            assert forall|i: int, j: int| 0 <= i <= j < r.len() implies r[i].1 <= r[j].1 by {
                lemma_tiles_ordered(r, 0, self.text_len as int, j);
                if i < j {
                    assert(r[i].1 <= r[j].0);
                }
            }
            assert forall|i: int| 0 <= i < self.segments@.len() implies #[trigger] small(
                self.segments@[i].end as int,
            ) && small(self.segments@[i].start as int) by {
                lemma_tiles_ordered(r, 0, self.text_len as int, i);
                assert(r[i] == (self.segments@[i].start as int, self.segments@[i].end as int));
            }
        }
        match plan_edit(self.segments.as_slice(), s, oe, ne) {
            EditPlan::Resegment => {
                self.parse_full(new_text);
            },
            EditPlan::Reparse { index, ranges } => {
                proof {
                    law_planned_segments_tile_the_new_text(r, self.text_len as int, s as int, oe as int, ne as int);
                    let k = ended_before(r, s as int);
                    lemma_ended_props(r, s as int);
                    assert(0 <= index < r.len());
                    assert(pairs(ranges@).len() == ranges@.len());
                    assert(index < ranges@.len());
                }
                let d = parse_segment(new_text, ranges[index].start, ranges[index].end);
                self.trees.set(index, d);
                self.segments = ranges;
                self.text_len = new_len;
            },
        }
    }

    /// The segments' byte ranges, in order.
    pub fn with_segments(&self) -> (r: &Vec<Range<usize>>)
        ensures
            r@ == self.segments_view(),
    {
        &self.segments
    }

    /// How many segments there are.
    pub fn segment_count(&self) -> (n: usize)
        ensures
            n == self.segments_view().len(),
    {
        self.segments.len()
    }

    /// The nodes of segment `i`'s tree, offsets relative to the segment;
    /// `None` when it has none (or there is no such segment).
    pub fn segment_nodes(&self, i: usize) -> (r: Option<Vec<NodeInfo>>)
        requires
            self.well_formed(),
        ensures
            i < self.segments_view().len() ==> match self.trees_view()[i as int].nodes() {
                Some(n) => r matches Some(v) && v@ == n,
                None => r is None,
            },
            i >= self.segments_view().len() ==> r is None,
    {
        if i < self.trees.len() {
            self.trees[i].with_tree()
        } else {
            None
        }
    }
}

} // verus!

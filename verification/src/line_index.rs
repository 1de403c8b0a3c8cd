//! Per-document line-start table for fast byte offset <-> position
//! conversion: a binary search for the line, then a walk over that line
//! only. Agrees with the scanning conversions in [`crate::position`].

use vstd::prelude::*;
use vstd::string::*;
use vstd::utf8::*;

use crate::lines::{
    last_line_start, lemma_last_line_start_props, lemma_line_starts_len,
    lemma_line_starts_prefix, lemma_line_starts_shape, lemma_take_step, line_end_from,
    line_starts_spec, offset_column, offset_line, NL,
};
use crate::position::{
    clamp_offset, clamp_to_u32, clamp_u32, column_offset_in, lemma_line_end_boundary,
    lemma_line_end_skip, offset_at, position_at, utf16_span, Position,
};
use crate::utf8_bytes::{at_boundary, count_byte};

verus! {

/// Line starts of `b`, each clamped into `u32`.
pub open spec fn starts_u32(b: Seq<u8>) -> Seq<u32> {
    line_starts_spec(b).map_values(|x: int| clamp_u32(x))
}

/// Byte offset of the start of every line of a text, `line_starts[0] == 0`.
#[derive(Debug, Clone)]
pub struct LineIndex {
    line_starts: Vec<u32>,
}

impl View for LineIndex {
    type V = Seq<u32>;

    closed spec fn view(&self) -> Seq<u32> {
        self.line_starts@
    }
}

/// A line start of `b` is at or before `off` exactly when it starts
/// one of the lines up to the one holding `off`.
pub proof fn lemma_line_start_le(b: Seq<u8>, off: int, i: int)
    requires
        0 <= off <= b.len(),
        0 <= i < line_starts_spec(b).len(),
    ensures
        (line_starts_spec(b)[i] <= off) == (i <= offset_line(b, off)),
{
    let l = offset_line(b, off) as int;
    lemma_line_starts_prefix(b, off);
    lemma_last_line_start_props(b, off);
    lemma_line_starts_shape(b);
    lemma_line_starts_shape(b.take(off));
    lemma_line_starts_len(b.take(off));
    if i <= l {
        assert(line_starts_spec(b.take(off))[i] == line_starts_spec(b)[i]);
    } else {
        let q = line_starts_spec(b)[l + 1];
        if q <= off {
            assert(b[q - 1] == NL);
            assert(line_starts_spec(b)[l] < q);
        }
        if i > l + 1 {
            assert(line_starts_spec(b)[l + 1] < line_starts_spec(b)[i]);
        }
    }
}

/// The line after line `i` starts one past the `\n` that ends line `i`.
pub proof fn lemma_next_line_start(b: Seq<u8>, i: int)
    requires
        0 <= i,
        i + 1 < line_starts_spec(b).len(),
    ensures
        line_end_from(b, line_starts_spec(b)[i]) == line_starts_spec(b)[i + 1] - 1,
{
    lemma_line_starts_shape(b);
    lemma_line_starts_len(b);
    let q = line_starts_spec(b)[i + 1] - 1;
    let ls = line_starts_spec(b)[i];
    assert(ls <= q);
    assert(b[q] == NL);
    // Lines up to `q` are lines 0..=i.
    lemma_line_start_le(b, q, i);
    lemma_line_start_le(b, q, i + 1);
    lemma_last_line_start_props(b, q);
    assert(offset_line(b, q) == i);
    lemma_line_end_skip(b, ls, q);
}

impl LineIndex {
    /// Build the index of `source`.
    pub fn new(source: &str) -> (idx: Self)
        ensures
            idx@ == starts_u32(source.spec_bytes()),
            idx@.len() == count_byte(source.spec_bytes(), NL) + 1,
    {
        let bytes = source.as_bytes();
        let ghost b = bytes@;
        let mut line_starts: Vec<u32> = Vec::new();
        line_starts.push(0);
        let mut k: usize = 0;
        proof {
            assert(b.take(0) =~= Seq::<u8>::empty());
            assert(line_starts@ =~= starts_u32(b.take(0)));
        }
        while k < bytes.len()
            invariant
                b == bytes@,
                k <= b.len(),
                line_starts@ == starts_u32(b.take(k as int)),
            decreases b.len() - k,
        {
            proof {
                lemma_take_step(b, k as int);
            }
            if bytes[k] == NL {
                let start = clamp_to_u32((k + 1) as u128);
                line_starts.push(start);
                proof {
                    assert(line_starts@ =~= starts_u32(b.take(k + 1)));
                }
            } else {
                proof {
                    assert(line_starts@ =~= starts_u32(b.take(k + 1)));
                }
            }
            k = k + 1;
        }
        proof {
            assert(b.take(b.len() as int) =~= b);
            lemma_line_starts_len(b);
        }
        LineIndex { line_starts }
    }

    /// Number of lines of the indexed text; at least one.
    pub fn line_count(&self) -> (n: usize)
        ensures
            n == self@.len(),
    {
        self.line_starts.len()
    }

    /// Number of leading line starts at or before `needle`.
    fn lines_through(&self, needle: u32) -> (r: usize)
        requires
            forall|i: int, j: int| 0 <= i < j < self@.len() ==> self@[i] < self@[j],
        ensures
            r <= self@.len(),
            forall|i: int| 0 <= i < r ==> self@[i] <= needle,
            forall|i: int| r <= i < self@.len() ==> self@[i] > needle,
    {
        let mut lo: usize = 0;
        let mut hi: usize = self.line_starts.len();
        while lo < hi
            invariant
                lo <= hi <= self@.len(),
                self@ == self.line_starts@,
                forall|i: int, j: int| 0 <= i < j < self@.len() ==> self@[i] < self@[j],
                forall|i: int| 0 <= i < lo ==> self@[i] <= needle,
                forall|i: int| hi <= i < self@.len() ==> self@[i] > needle,
            decreases hi - lo,
        {
            let mid = lo + (hi - lo) / 2;
            if self.line_starts[mid] <= needle {
                lo = mid + 1;
            } else {
                hi = mid;
            }
        }
        lo
    }

    /// The position of `byte_offset` (clamped to the end of `source`);
    /// the same as [`crate::position::byte_offset_to_position`].
    pub fn position(&self, source: &str, byte_offset: usize) -> (p: Position)
        requires
            self@ == starts_u32(source.spec_bytes()),
            source.spec_bytes().len() <= u32::MAX,
            at_boundary(source.spec_bytes(), clamp_offset(source.spec_bytes(), byte_offset as int)),
        ensures
            p == position_at(source.spec_bytes(), byte_offset as int),
    {
        let bytes = source.as_bytes();
        let ghost b = bytes@;
        let off = if byte_offset < bytes.len() {
            byte_offset
        } else {
            bytes.len()
        };
        proof {
            lemma_line_starts_shape(b);
            lemma_line_starts_len(b);
            assert forall|i: int| 0 <= i < self@.len() implies self@[i] == line_starts_spec(b)[i] by {}
        }
        let needle = off as u32;
        let lo = self.lines_through(needle);
        proof {
            lemma_line_start_le(b, off as int, 0);
            lemma_last_line_start_props(b, off as int);
            let l = offset_line(b, off as int) as int;
            lemma_line_start_le(b, off as int, lo - 1);
            if lo < self@.len() {
                lemma_line_start_le(b, off as int, lo as int);
            }
            lemma_line_start_le(b, off as int, l);
            assert(lo - 1 == l);
        }
        let line_idx = lo - 1;
        let line_start = self.line_starts[line_idx] as usize;
        let col = utf16_span(bytes, line_start, off);
        Position { line: clamp_to_u32(line_idx as u128), character: clamp_to_u32(col) }
    }

    /// The byte offset `position` names; the same as
    /// [`crate::position::position_to_byte_offset`].
    pub fn byte_offset(&self, source: &str, position: Position) -> (r: Option<usize>)
        requires
            self@ == starts_u32(source.spec_bytes()),
            source.spec_bytes().len() <= u32::MAX,
        ensures
            r == (match offset_at(source.spec_bytes(), position) {
                Some(o) => Some(o as usize),
                None => None::<usize>,
            }),
            r matches Some(o) ==> o <= source.spec_bytes().len() && at_boundary(
                source.spec_bytes(),
                o as int,
            ) && offset_at(source.spec_bytes(), position) == Some(o as int),
    {
        let bytes = source.as_bytes();
        let ghost b = bytes@;
        proof {
            lemma_line_starts_shape(b);
            lemma_line_starts_len(b);
            assert forall|i: int| 0 <= i < self@.len() implies self@[i] == line_starts_spec(b)[i] by {}
        }
        let line_idx = position.line as usize;
        if line_idx >= self.line_starts.len() {
            return None;
        }
        let line_start = self.line_starts[line_idx] as usize;
        let line_end = if line_idx + 1 < self.line_starts.len() {
            let next = self.line_starts[line_idx + 1] as usize;
            proof {
                lemma_next_line_start(b, line_idx as int);
            }
            next - 1
        } else {
            proof {
                lemma_line_end_boundary(b, line_start as int);
                if line_end_from(b, line_start as int) < b.len() {
                    // A `\n` ends this line, so another line follows it.
                    let q = line_end_from(b, line_start as int);
                    assert(b[q] == NL);
                    lemma_take_step(b, q);
                    lemma_last_line_start_props(b, q + 1);
                    lemma_line_start_le(b, q + 1, line_idx as int);
                    let l = offset_line(b, q + 1) as int;
                    assert(l == line_idx);
                    assert(line_starts_spec(b)[l] == q + 1);
                    assert(false);
                }
            }
            bytes.len()
        };
        proof {
            lemma_line_end_boundary(b, line_start as int);
        }
        Some(column_offset_in(bytes, line_start, line_end, position.character))
    }
}

/// Number of lines `str::lines` yields for `b`: one per line start
/// before the end (a final `\n` opens no further line).
pub open spec fn text_line_count(b: Seq<u8>) -> int {
    if b.len() == 0 {
        0
    } else if b.last() == NL {
        line_starts_spec(b).len() - 1
    } else {
        line_starts_spec(b).len() as int
    }
}

/// Byte span of line `k`: from its start to its `\n` (or the end).
pub open spec fn line_span(b: Seq<u8>, k: int) -> (int, int) {
    (line_starts_spec(b)[k], line_end_from(b, line_starts_spec(b)[k]))
}

/// The line after line `k` starts one past its end, unless its end is
/// the end of the text, where it is the last line start (or the one
/// before a final empty start).
pub proof fn lemma_line_end_next(b: Seq<u8>, k: int)
    requires
        0 <= k < line_starts_spec(b).len(),
    ensures
        line_end_from(b, line_starts_spec(b)[k]) < b.len() ==> k + 1 < line_starts_spec(b).len()
            && line_starts_spec(b)[k + 1] == line_end_from(b, line_starts_spec(b)[k]) + 1,
        line_end_from(b, line_starts_spec(b)[k]) == b.len() ==> k + 1 == line_starts_spec(b).len(),
{
    lemma_line_starts_shape(b);
    lemma_line_starts_len(b);
    let ls = line_starts_spec(b)[k];
    lemma_line_end_boundary(b, ls);
    let q = line_end_from(b, ls);
    if q < b.len() {
        lemma_take_step(b, q);
        lemma_last_line_start_props(b, q + 1);
        lemma_line_start_le(b, q + 1, k);
        let l = offset_line(b, q + 1) as int;
        assert(line_starts_spec(b)[l] == q + 1);
        assert(l != k);
        if l > k + 1 {
            lemma_line_start_le(b, q + 1, k + 1);
            assert(line_starts_spec(b)[k + 1] <= q + 1);
            assert(b[line_starts_spec(b)[k + 1] - 1] == NL);
            assert(false);
        }
    } else {
        if k + 1 < line_starts_spec(b).len() {
            lemma_next_line_start(b, k);
        }
    }
}

/// The `(start, end)` byte spans of the lines of `bytes`, split at `\n`
/// as `str::lines` splits them; each end is at the line's `\n` or the
/// end of the text, so a `\r` before the `\n` lies inside the span.
pub fn line_spans(bytes: &[u8]) -> (v: Vec<(usize, usize)>)
    ensures
        v@.len() == text_line_count(bytes@),
        forall|k: int| 0 <= k < v@.len() ==> (#[trigger] v@[k]).0 == line_span(bytes@, k).0
            && v@[k].1 == line_span(bytes@, k).1,
{
    let ghost b = bytes@;
    proof {
        lemma_line_starts_shape(b);
        lemma_line_starts_len(b);
    }
    let mut v: Vec<(usize, usize)> = Vec::new();
    if bytes.len() == 0 {
        return v;
    }
    let mut s: usize = 0;
    loop
        invariant
            b == bytes@,
            b.len() > 0,
            v@.len() < line_starts_spec(b).len(),
            s == line_starts_spec(b)[v@.len() as int],
            s < b.len(),
            forall|k: int| 0 <= k < v@.len() ==> (#[trigger] v@[k]).0 == line_span(b, k).0 && v@[k].1
                == line_span(b, k).1,
        decreases b.len() - s,
    {
        let e = crate::position::line_end(bytes, s);
        let ghost k = v@.len() as int;
        proof {
            lemma_line_end_next(b, k);
            lemma_line_end_boundary(b, s as int);
            lemma_line_starts_shape(b);
        }
        v.push((s, e));
        if e >= bytes.len() {
            proof {
                assert(b.last() != NL) by {
                    lemma_last_line_start_props(b, b.len() as int);
                    assert(b.take(b.len() as int) =~= b);
                    if b.last() == NL {
                        lemma_take_step(b, b.len() - 1);
                        assert(b.take(b.len() - 1 + 1) =~= b);
                        assert(line_starts_spec(b).last() == b.len());
                        assert(line_starts_spec(b)[k] < b.len());
                    }
                }
            }
            return v;
        }
        if e + 1 >= bytes.len() {
            proof {
                assert(b[e as int] == NL);
                assert(line_starts_spec(b)[k + 1] == b.len());
                assert(k + 2 == line_starts_spec(b).len()) by {
                    if k + 2 < line_starts_spec(b).len() {
                        assert(line_starts_spec(b)[k + 1] < line_starts_spec(b)[k + 2]);
                    }
                }
            }
            return v;
        }
        s = e + 1;
    }
}

/// A text has at most as many lines as bytes.
pub proof fn lemma_text_line_count_bound(b: Seq<u8>)
    ensures
        0 <= text_line_count(b) <= b.len(),
{
    lemma_line_starts_len(b);
    crate::utf8_bytes::lemma_count_byte_bound(b, NL);
    if b.len() > 0 {
        crate::utf8_bytes::lemma_count_byte_bound(b.drop_last(), NL);
    }
}


/// The line index's round trip: the position of a byte on a char boundary
/// names that byte again (the column fitting the protocol's `u32`, as the
/// line does in a text of at most `u32::MAX` bytes); and a position names
/// no byte exactly when its line is past the index's last line.
pub proof fn law_line_index_round_trip(b: Seq<u8>, off: int, p: Position)
    requires
        b.len() <= u32::MAX,
        0 <= off <= b.len(),
        at_boundary(b, off),
        offset_column(b, off) <= u32::MAX,
    ensures
        offset_at(b, position_at(b, off)) == Some(off),
        offset_at(b, p) is None <==> p.line >= starts_u32(b).len(),
{
    crate::utf8_bytes::lemma_count_byte_bound(b.take(off), NL);
    crate::position::law_position_round_trip(b, off);
    lemma_line_starts_len(b);
}
} // verus!

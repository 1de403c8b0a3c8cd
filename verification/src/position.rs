//! Byte offset <-> LSP `Position` conversion.
//!
//! An LSP position is `{ line, character }` where `character` counts
//! UTF-16 code units from the start of the line; the parser works in
//! UTF-8 byte offsets. Both conversions scan the source directly.

use vstd::prelude::*;
use vstd::string::*;
use vstd::utf8::*;

use crate::lines::{
    column_offset, column_search, last_line_start, lemma_last_line_start_props,
    lemma_line_starts_len, lemma_line_starts_prefix, lemma_line_starts_shape, lemma_take_step,
    lemma_utf16_step, line_end_from, line_starts_spec, offset_column, offset_line, NL,
};
use crate::utf8_bytes::{
    at_boundary, byte_utf16_width, count_byte, is_cont_byte, utf16_len, utf16_width,
};

verus! {

/// A zero-based line and UTF-16 column.
#[derive(Debug, Clone, Copy, PartialEq, Eq, Structural)]
pub struct Position {
    pub line: u32,
    pub character: u32,
}

impl Position {
    pub fn new(line: u32, character: u32) -> (p: Self)
        ensures
            p.line == line,
            p.character == character,
    {
        Position { line, character }
    }
}

/// A half-open span between two positions.
#[derive(Debug, Clone, Copy, PartialEq, Eq, Structural)]
pub struct Range {
    pub start: Position,
    pub end: Position,
}

impl Range {
    pub fn new(start: Position, end: Position) -> (r: Self)
        ensures
            r.start == start,
            r.end == end,
    {
        Range { start, end }
    }
}

/// Replace the text of `range` with `new_text`.
#[derive(Debug, Clone, PartialEq, Eq)]
pub struct TextEdit {
    pub range: Range,
    pub new_text: String,
}

/// A count clamped into `u32`.
pub open spec fn clamp_u32(x: int) -> u32 {
    if x > u32::MAX {
        u32::MAX
    } else {
        x as u32
    }
}

/// `off` clamped to the end of `b`.
pub open spec fn clamp_offset(b: Seq<u8>, off: int) -> int {
    if off > b.len() {
        b.len() as int
    } else {
        off
    }
}

/// The position of byte offset `off` (clamped to the end of the text):
/// its line and its UTF-16 column, each clamped into `u32`.
pub open spec fn position_at(b: Seq<u8>, off: int) -> Position {
    Position {
        line: clamp_u32(offset_line(b, clamp_offset(b, off)) as int),
        character: clamp_u32(offset_column(b, clamp_offset(b, off)) as int),
    }
}

/// The byte offset a position names: `None` past the last line; the
/// first char start whose UTF-16 column reaches `character`, clamped to
/// the line's end.
pub open spec fn offset_at(b: Seq<u8>, p: Position) -> Option<int> {
    if p.line > count_byte(b, NL) {
        None
    } else {
        Some(column_offset(b, line_starts_spec(b)[p.line as int], p.character as nat))
    }
}

pub fn clamp_to_u32(x: u128) -> (r: u32)
    ensures
        r == clamp_u32(x as int),
{
    if x > 0xffff_ffff {
        0xffff_ffff
    } else {
        x as u32
    }
}

/// Convert a byte offset in `source` into an LSP position, clamping an
/// offset past the end to the end.
pub fn byte_offset_to_position(source: &str, byte_offset: usize) -> (p: Position)
    requires
        at_boundary(source.spec_bytes(), clamp_offset(source.spec_bytes(), byte_offset as int)),
    ensures
        p == position_at(source.spec_bytes(), byte_offset as int),
{
    let bytes = source.as_bytes();
    let ghost b = bytes@;
    let off = if byte_offset < bytes.len() {
        byte_offset
    } else {
        bytes.len()
    };
    let mut line: u128 = 0;
    let mut ls: usize = 0;
    let mut col: u128 = 0;
    let mut k: usize = 0;
    proof {
        assert(b.take(0) =~= Seq::<u8>::empty());
        assert(b.subrange(0, 0) =~= Seq::<u8>::empty());
    }
    while k < off
        invariant
            b == bytes@,
            off <= b.len(),
            k <= off,
            line == count_byte(b.take(k as int), NL),
            line <= k,
            ls == last_line_start(b.take(k as int)),
            ls <= k,
            col == utf16_len(b.subrange(ls as int, k as int)),
            col <= 2 * k,
        decreases off - k,
    {
        proof {
            lemma_take_step(b, k as int);
            lemma_last_line_start_props(b, k as int);
        }
        if bytes[k] == NL {
            line = line + 1;
            ls = k + 1;
            col = 0;
            proof {
                assert(b.subrange(k + 1, k + 1) =~= Seq::<u8>::empty());
            }
        } else {
            proof {
                lemma_utf16_step(b, ls as int, k as int);
            }
            col = col + byte_utf16_width(bytes[k]) as u128;
        }
        k = k + 1;
    }
    Position { line: clamp_to_u32(line), character: clamp_to_u32(col) }
}

/// Start of line `line`, or `None` when `bytes` has fewer lines.
fn nth_line_start(bytes: &[u8], line: u32) -> (r: Option<usize>)
    ensures
        r is None <==> line > count_byte(bytes@, NL),
        r matches Some(p) ==> p == line_starts_spec(bytes@)[line as int],
{
    let ghost b = bytes@;
    proof {
        lemma_line_starts_shape(b);
        lemma_line_starts_len(b);
    }
    if line == 0 {
        return Some(0);
    }
    let target = line as u128;
    let mut seen: u128 = 0;
    let mut k: usize = 0;
    proof {
        assert(b.take(0) =~= Seq::<u8>::empty());
    }
    while k < bytes.len()
        invariant
            b == bytes@,
            k <= b.len(),
            seen == count_byte(b.take(k as int), NL),
            seen < target,
            target == line,
            line > 0,
        decreases b.len() - k,
    {
        proof {
            lemma_take_step(b, k as int);
        }
        if bytes[k] == NL {
            seen = seen + 1;
            if seen == target {
                proof {
                    lemma_line_starts_prefix(b, k + 1);
                    lemma_last_line_start_props(b, k + 1);
                    lemma_line_starts_shape(b.take(k + 1));
                }
                return Some(k + 1);
            }
        }
        k = k + 1;
    }
    proof {
        assert(b.take(b.len() as int) =~= b);
    }
    None
}

/// The first `\n` at or after `from`, or the end of `bytes`.
pub fn line_end(bytes: &[u8], from: usize) -> (r: usize)
    requires
        from <= bytes@.len(),
    ensures
        r == line_end_from(bytes@, from as int),
        from <= r <= bytes@.len(),
{
    let mut j = from;
    while j < bytes.len() && bytes[j] != NL
        invariant
            from <= j <= bytes@.len(),
            line_end_from(bytes@, from as int) == line_end_from(bytes@, j as int),
        decreases bytes@.len() - j,
    {
        j = j + 1;
    }
    j
}

/// `column_search` lands on a char boundary within `[from, end]`.
pub proof fn lemma_column_search_bounds(b: Seq<u8>, ls: int, from: int, end: int, column: nat)
    requires
        0 <= from <= end <= b.len(),
        at_boundary(b, end),
    ensures
        from <= column_search(b, ls, from, end, column) <= end,
        at_boundary(b, column_search(b, ls, from, end, column)),
    decreases end - from,
{
    if from < end {
        lemma_column_search_bounds(b, ls, from + 1, end, column);
    }
}

/// A line's end is a char boundary: the end of the text or a `\n`.
pub proof fn lemma_line_end_boundary(b: Seq<u8>, p: int)
    requires
        0 <= p <= b.len(),
    ensures
        p <= line_end_from(b, p) <= b.len(),
        at_boundary(b, line_end_from(b, p)),
        forall|m: int| p <= m < line_end_from(b, p) ==> b[m] != NL,
        line_end_from(b, p) < b.len() ==> b[line_end_from(b, p)] == NL,
    decreases b.len() - p,
{
    if p < b.len() && b[p] != NL {
        lemma_line_end_boundary(b, p + 1);
    }
}

/// Convert an LSP position into a byte offset of `source`: `None` for a
/// line past the end; a column past the end of its line clamps to the
/// line's end.
pub fn position_to_byte_offset(source: &str, position: Position) -> (r: Option<usize>)
    ensures
        r == (match offset_at(source.spec_bytes(), position) {
            Some(o) => Some(o as usize),
            None => None::<usize>,
        }),
        r matches Some(o) ==> o <= source.spec_bytes().len() && at_boundary(
            source.spec_bytes(),
            o as int,
        ) && offset_at(source.spec_bytes(), position) == Some(o as int),
{
    let bytes = source.as_bytes();
    let ghost b = bytes@;
    let ls = match nth_line_start(bytes, position.line) {
        Some(p) => p,
        None => return None,
    };
    proof {
        lemma_line_starts_shape(b);
        lemma_line_starts_len(b);
    }
    let le = line_end(bytes, ls);
    proof {
        lemma_line_end_boundary(b, ls as int);
    }
    Some(column_offset_in(bytes, ls, le, position.character))
}

/// UTF-16 length of `bytes[from..to]`.
pub fn utf16_span(bytes: &[u8], from: usize, to: usize) -> (r: u128)
    requires
        from <= to <= bytes@.len(),
    ensures
        r == utf16_len(bytes@.subrange(from as int, to as int)),
        r <= 2 * (to - from),
{
    let ghost b = bytes@;
    let mut k = from;
    let mut cu: u128 = 0;
    proof {
        assert(b.subrange(from as int, from as int) =~= Seq::<u8>::empty());
    }
    while k < to
        invariant
            b == bytes@,
            from <= k <= to <= b.len(),
            cu == utf16_len(b.subrange(from as int, k as int)),
            cu <= 2 * (k - from),
        decreases to - k,
    {
        proof {
            lemma_utf16_step(b, from as int, k as int);
        }
        cu = cu + byte_utf16_width(bytes[k]) as u128;
        k = k + 1;
    }
    cu
}

/// The first char start in `[ls, le)` whose UTF-16 column from `ls`
/// reaches `character`, else `le`.
pub fn column_offset_in(bytes: &[u8], ls: usize, le: usize, character: u32) -> (r: usize)
    requires
        ls <= le <= bytes@.len(),
        at_boundary(bytes@, le as int),
    ensures
        r == column_search(bytes@, ls as int, ls as int, le as int, character as nat),
        ls <= r <= le,
        at_boundary(bytes@, r as int),
{
    let ghost b = bytes@;
    let ghost column = character as nat;
    proof {
        lemma_column_search_bounds(b, ls as int, ls as int, le as int, column);
        assert(b.subrange(ls as int, ls as int) =~= Seq::<u8>::empty());
    }
    let mut j = ls;
    let mut cu: u128 = 0;
    while j < le
        invariant
            b == bytes@,
            ls <= j <= le <= b.len(),
            at_boundary(b, le as int),
            cu == utf16_len(b.subrange(ls as int, j as int)),
            cu <= 2 * j,
            column == character,
            column_search(b, ls as int, ls as int, le as int, column) == column_search(
                b,
                ls as int,
                j as int,
                le as int,
                column,
            ),
        decreases le - j,
    {
        if !is_cont_byte(bytes[j]) && cu >= character as u128 {
            proof {
                lemma_column_search_bounds(b, ls as int, j as int, le as int, column);
                assert(at_boundary(b, j as int));
                assert(column_search(b, ls as int, j as int, le as int, column) == j);
            }
            return j;
        }
        proof {
            lemma_utf16_step(b, ls as int, j as int);
        }
        cu = cu + byte_utf16_width(bytes[j]) as u128;
        j = j + 1;
    }
    proof {
        lemma_column_search_bounds(b, ls as int, le as int, le as int, column);
    }
    le
}

/// `utf16_len` of a run starting at `s` grows with the run's end.
pub proof fn lemma_utf16_monotone(b: Seq<u8>, s: int, x: int, y: int)
    requires
        0 <= s <= x <= y <= b.len(),
    ensures
        utf16_len(b.subrange(s, x)) <= utf16_len(b.subrange(s, y)),
    decreases y - x,
{
    if x < y {
        lemma_utf16_step(b, s, y - 1);
        lemma_utf16_monotone(b, s, x, y - 1);
    }
}

/// With no `\n` in `[p, q)`, the line end seen from `p` is the one seen from `q`.
pub proof fn lemma_line_end_skip(b: Seq<u8>, p: int, q: int)
    requires
        0 <= p <= q <= b.len(),
        forall|m: int| p <= m < q ==> b[m] != NL,
    ensures
        line_end_from(b, p) == line_end_from(b, q),
    decreases q - p,
{
    if p < q {
        lemma_line_end_skip(b, p + 1, q);
    }
}

/// The column search passes over every char start whose column is short of the target.
proof fn lemma_column_search_skip(b: Seq<u8>, ls: int, from: int, off: int, end: int, column: nat)
    requires
        ls <= from <= off <= end <= b.len(),
        forall|j: int|
            from <= j < off && at_boundary(b, j) ==> utf16_len(b.subrange(ls, j)) < column,
    ensures
        column_search(b, ls, from, end, column) == column_search(b, ls, off, end, column),
    decreases off - from,
{
    if from < off {
        lemma_column_search_skip(b, ls, from + 1, off, end, column);
    }
}

/// Round trip: the position of a char-boundary offset names that offset
/// again, whenever its line and column fit in `u32`.
pub proof fn law_position_round_trip(b: Seq<u8>, off: int)
    requires
        0 <= off <= b.len(),
        at_boundary(b, off),
        offset_line(b, off) <= u32::MAX,
        offset_column(b, off) <= u32::MAX,
    ensures
        offset_at(b, position_at(b, off)) == Some(off),
{
    let line = offset_line(b, off);
    let ls = last_line_start(b.take(off));
    let column = offset_column(b, off);
    lemma_line_starts_prefix(b, off);
    lemma_last_line_start_props(b, off);
    assert(position_at(b, off).line == line);
    assert(position_at(b, off).character == column);
    lemma_line_end_skip(b, ls, off);
    lemma_line_end_boundary(b, off);
    let le = line_end_from(b, ls);
    assert forall|j: int| ls <= j < off && at_boundary(b, j) implies utf16_len(
        b.subrange(ls, j),
    ) < column by {
        lemma_utf16_step(b, ls, j);
        lemma_utf16_monotone(b, ls, j + 1, off);
    }
    lemma_column_search_skip(b, ls, ls, off, le, column);
    if off < le {
        assert(column_search(b, ls, off, le, column) == off);
    }
}

} // verus!

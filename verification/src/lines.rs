//! The line structure of a byte buffer: where each line starts, where it
//! ends, and which line / UTF-16 column a byte offset falls on.

use vstd::prelude::*;
use vstd::string::*;
use vstd::utf8::*;

use crate::utf8_bytes::{at_boundary, count_byte, utf16_len, utf16_width};

verus! {

/// The newline byte; lines are split at `\n` only (`\r` stays in the line).
pub const NL: u8 = 10;

/// Byte offset of the start of every line: 0, then one past each `\n`.
pub open spec fn line_starts_spec(b: Seq<u8>) -> Seq<int>
    decreases b.len(),
{
    if b.len() == 0 {
        seq![0]
    } else if b.last() == NL {
        line_starts_spec(b.drop_last()).push(b.len() as int)
    } else {
        line_starts_spec(b.drop_last())
    }
}

/// Start of the last line of `b` (one past its last `\n`, or 0).
pub open spec fn last_line_start(b: Seq<u8>) -> int {
    line_starts_spec(b).last()
}

/// First `\n` at or after `p`, or the end of `b`.
pub open spec fn line_end_from(b: Seq<u8>, p: int) -> int
    decreases b.len() - p,
{
    if p >= b.len() {
        b.len() as int
    } else if p >= 0 && b[p] == NL {
        p
    } else {
        line_end_from(b, p + 1)
    }
}

/// Zero-based line of byte offset `off`.
pub open spec fn offset_line(b: Seq<u8>, off: int) -> nat {
    count_byte(b.take(off), NL)
}

/// UTF-16 column of byte offset `off` within its line.
pub open spec fn offset_column(b: Seq<u8>, off: int) -> nat {
    utf16_len(b.subrange(last_line_start(b.take(off)), off))
}

/// The first char start `j` in `[from, end)` whose UTF-16 distance from
/// `line_start` reaches `column`; `end` when there is none.
pub open spec fn column_search(b: Seq<u8>, line_start: int, from: int, end: int, column: nat) -> int
    decreases end - from,
{
    if from >= end {
        end
    } else if at_boundary(b, from) && utf16_len(b.subrange(line_start, from)) >= column {
        from
    } else {
        column_search(b, line_start, from + 1, end, column)
    }
}

/// Byte offset of UTF-16 column `column` on the line starting at
/// `line_start`, clamped to the line's end.
pub open spec fn column_offset(b: Seq<u8>, line_start: int, column: nat) -> int {
    column_search(b, line_start, line_start, line_end_from(b, line_start), column)
}

pub proof fn lemma_line_starts_len(b: Seq<u8>)
    ensures
        line_starts_spec(b).len() == count_byte(b, NL) + 1,
    decreases b.len(),
{
    if b.len() > 0 {
        lemma_line_starts_len(b.drop_last());
    }
}

/// Line starts are increasing, lie within `b`, begin at 0, and every
/// start past the first follows a `\n`.
pub proof fn lemma_line_starts_shape(b: Seq<u8>)
    ensures
        line_starts_spec(b)[0] == 0,
        forall|i: int|
            0 <= i < line_starts_spec(b).len() ==> 0 <= #[trigger] line_starts_spec(b)[i]
                <= b.len(),
        forall|i: int, j: int|
            0 <= i < j < line_starts_spec(b).len() ==> line_starts_spec(b)[i]
                < line_starts_spec(b)[j],
        forall|i: int|
            0 < i < line_starts_spec(b).len() ==> b[#[trigger] line_starts_spec(b)[i] - 1] == NL,
    decreases b.len(),
{
    lemma_line_starts_len(b);
    if b.len() > 0 {
        lemma_line_starts_shape(b.drop_last());
        lemma_line_starts_len(b.drop_last());
        let p = line_starts_spec(b.drop_last());
        assert(forall|i: int| 0 <= i < p.len() ==> p[i] <= b.len() - 1);
        assert forall|i: int| 0 < i < p.len() implies b[#[trigger] p[i] - 1] == NL by {
            assert(b.drop_last()[p[i] - 1] == NL);
        }
    }
}

/// The line starts of a prefix are a prefix of the line starts.
pub proof fn lemma_line_starts_prefix(b: Seq<u8>, p: int)
    requires
        0 <= p <= b.len(),
    ensures
        count_byte(b.take(p), NL) <= count_byte(b, NL),
        line_starts_spec(b.take(p)) == line_starts_spec(b).take(count_byte(b.take(p), NL) + 1 as int),
    decreases b.len(),
{
    lemma_line_starts_len(b);
    lemma_line_starts_len(b.take(p));
    if p == b.len() {
        assert(b.take(p) =~= b);
        assert(line_starts_spec(b).take(count_byte(b, NL) + 1 as int) =~= line_starts_spec(b));
    } else {
        assert(b.take(p) =~= b.drop_last().take(p));
        lemma_line_starts_prefix(b.drop_last(), p);
        lemma_line_starts_len(b.drop_last());
        let q = line_starts_spec(b.drop_last());
        let k = count_byte(b.take(p), NL) + 1 as int;
        if b.last() == NL {
            assert(q.push(b.len() as int).take(k) =~= q.take(k));
        }
    }
}

/// Extending a prefix by one byte.
pub proof fn lemma_take_step(b: Seq<u8>, k: int)
    requires
        0 <= k < b.len(),
    ensures
        b.take(k + 1).drop_last() == b.take(k),
        b.take(k + 1).last() == b[k],
        count_byte(b.take(k + 1), NL) == count_byte(b.take(k), NL) + (if b[k] == NL {
            1nat
        } else {
            0nat
        }),
        last_line_start(b.take(k + 1)) == (if b[k] == NL {
            k + 1
        } else {
            last_line_start(b.take(k))
        }),
{
    assert(b.take(k + 1).drop_last() =~= b.take(k));
}

/// Extending a run by one byte adds that byte's UTF-16 width.
pub proof fn lemma_utf16_step(b: Seq<u8>, s: int, k: int)
    requires
        0 <= s <= k < b.len(),
    ensures
        utf16_len(b.subrange(s, k + 1)) == utf16_len(b.subrange(s, k)) + utf16_width(b[k]),
{
    assert(b.subrange(s, k + 1).drop_last() =~= b.subrange(s, k));
}

/// The last line start of a prefix `b[..off]` is a line start of `b`
/// with no `\n` between it and `off`.
pub proof fn lemma_last_line_start_props(b: Seq<u8>, off: int)
    requires
        0 <= off <= b.len(),
    ensures
        0 <= last_line_start(b.take(off)) <= off,
        offset_line(b, off) < line_starts_spec(b).len(),
        line_starts_spec(b)[offset_line(b, off) as int] == last_line_start(b.take(off)),
        forall|m: int| last_line_start(b.take(off)) <= m < off ==> b[m] != NL,
    decreases off,
{
    lemma_line_starts_prefix(b, off);
    lemma_line_starts_len(b.take(off));
    lemma_line_starts_len(b);
    lemma_line_starts_shape(b.take(off));
    if off > 0 {
        lemma_take_step(b, off - 1);
        lemma_last_line_start_props(b, off - 1);
    }
}

} // verus!

//! Byte-range text edits: validate a batch of `(range, new_text)` pairs
//! against a source and splice them in, all or nothing.
//!
//! Edits are processed in source order; an edit's range must start at or
//! after the previous edit's end, lie within the source, be non-inverted
//! and sit on UTF-8 char boundaries. Any violation rejects the whole batch.

use std::ops::Range;
use vstd::prelude::*;
use vstd::string::*;
use vstd::utf8::*;

use crate::utf8_bytes::{at_boundary, lemma_boundary_iff, lemma_encode_concat, lemma_str_valid, substr};

verus! {

/// A single text edit: replace `range` in the source with `new_text`.
#[derive(Debug, PartialEq, Eq)]
pub struct LocalTextEdit {
    pub range: Range<usize>,
    pub new_text: String,
}

impl LocalTextEdit {
    pub fn new(range: Range<usize>, new_text: String) -> (e: Self)
        ensures
            e.range == range,
            e.new_text == new_text,
    {
        LocalTextEdit { range, new_text }
    }
}

impl Clone for LocalTextEdit {
    fn clone(&self) -> (e: Self)
        ensures
            e.range == self.range,
            e.new_text@ == self.new_text@,
    {
        LocalTextEdit {
            range: Range { start: self.range.start, end: self.range.end },
            new_text: self.new_text.clone(),
        }
    }
}

/// Why [`apply_edits`] rejected a batch.
#[derive(Debug, Clone, PartialEq, Eq)]
#[non_exhaustive]
pub enum EditError {
    InvertedRange { start: usize, end: usize },
    OutOfBounds { start: usize, end: usize, source_len: usize },
    NonCharBoundary { start: usize, end: usize },
    UnsortedOrOverlapping { prev_end: usize, next_start: usize },
}

/// The first validation rule that edit `start..end` breaks, given the
/// end of the edit before it, in the order the rules are tested.
pub open spec fn check_edit(src: Seq<u8>, prev_end: usize, start: usize, end: usize) -> Option<
    EditError,
> {
    if end < start {
        Some(EditError::InvertedRange { start, end })
    } else if end > src.len() {
        Some(EditError::OutOfBounds { start, end, source_len: src.len() as usize })
    } else if !at_boundary(src, start as int) || !at_boundary(src, end as int) {
        Some(EditError::NonCharBoundary { start, end })
    } else if start < prev_end {
        Some(EditError::UnsortedOrOverlapping { prev_end, next_start: start })
    } else {
        None
    }
}

/// End of the edit before edit `k` (0 for the first edit).
pub open spec fn prev_end_before(edits: Seq<LocalTextEdit>, k: int) -> usize {
    if k <= 0 {
        0
    } else {
        edits[k - 1].range.end
    }
}

/// The rule edit `k` of the batch breaks, if any.
pub open spec fn edit_error_at(src: Seq<u8>, edits: Seq<LocalTextEdit>, k: int) -> Option<
    EditError,
> {
    check_edit(src, prev_end_before(edits, k), edits[k].range.start, edits[k].range.end)
}

/// The first `n` edits all pass their checks.
pub open spec fn edits_valid_upto(src: Seq<u8>, edits: Seq<LocalTextEdit>, n: int) -> bool {
    forall|j: int| 0 <= j < n ==> #[trigger] edit_error_at(src, edits, j) is None
}

/// The whole batch is valid.
pub open spec fn edits_valid(src: Seq<u8>, edits: Seq<LocalTextEdit>) -> bool {
    edits_valid_upto(src, edits, edits.len() as int)
}

/// Output of the first `n` edits: each untouched stretch of source
/// followed by the edit's replacement text.
pub open spec fn splice_prefix(src: Seq<u8>, edits: Seq<LocalTextEdit>, n: int) -> Seq<u8>
    decreases n,
{
    if n <= 0 {
        seq![]
    } else {
        splice_prefix(src, edits, n - 1) + src.subrange(
            prev_end_before(edits, n - 1) as int,
            edits[n - 1].range.start as int,
        ) + encode_utf8(edits[n - 1].new_text@)
    }
}

/// The bytes of the source with every edit of the batch spliced in.
pub open spec fn spliced(src: Seq<u8>, edits: Seq<LocalTextEdit>) -> Seq<u8> {
    splice_prefix(src, edits, edits.len() as int) + src.subrange(
        prev_end_before(edits, edits.len() as int) as int,
        src.len() as int,
    )
}

proof fn lemma_identity_prefix(src: Seq<u8>, edits: Seq<LocalTextEdit>, n: int)
    requires
        0 <= n <= edits.len(),
        edits_valid(src, edits),
        forall|i: int|
            0 <= i < edits.len() ==> encode_utf8(#[trigger] edits[i].new_text@) == src.subrange(
                edits[i].range.start as int,
                edits[i].range.end as int,
            ),
    ensures
        prev_end_before(edits, n) <= src.len(),
        splice_prefix(src, edits, n) == src.subrange(0, prev_end_before(edits, n) as int),
    decreases n,
{
    if n > 0 {
        lemma_identity_prefix(src, edits, n - 1);
        assert(edit_error_at(src, edits, n - 1) is None);
        let p = prev_end_before(edits, n - 1) as int;
        let e = edits[n - 1];
        assert(encode_utf8(e.new_text@) == src.subrange(e.range.start as int, e.range.end as int));
        assert(src.subrange(0, p) + src.subrange(p, e.range.start as int) + src.subrange(
            e.range.start as int,
            e.range.end as int,
        ) =~= src.subrange(0, e.range.end as int));
    }
}

/// A batch that puts back exactly the bytes it replaces leaves the source
/// unchanged; in particular an empty batch does.
pub proof fn law_identity_edits_leave_the_source(src: Seq<u8>, edits: Seq<LocalTextEdit>)
    requires
        edits_valid(src, edits),
        forall|i: int|
            0 <= i < edits.len() ==> encode_utf8(#[trigger] edits[i].new_text@) == src.subrange(
                edits[i].range.start as int,
                edits[i].range.end as int,
            ),
    ensures
        spliced(src, edits) == src,
{
    lemma_identity_prefix(src, edits, edits.len() as int);
    let p = prev_end_before(edits, edits.len() as int) as int;
    assert(src.subrange(0, p) + src.subrange(p, src.len() as int) =~= src);
}

/// Splice every edit in `edits` into `source` and return the result.
///
/// Fails with the error of the first edit that is inverted, out of
/// bounds, off a char boundary, or starts before the previous edit's end;
/// on failure nothing is applied.
pub fn apply_edits(source: &str, edits: &[LocalTextEdit]) -> (r: Result<String, EditError>)
    ensures
        r is Ok <==> edits_valid(source.spec_bytes(), edits@),
        r matches Ok(out) ==> encode_utf8(out@) == spliced(source.spec_bytes(), edits@),
        r matches Err(e) ==> exists|k: int|
            0 <= k < edits@.len() && edits_valid_upto(source.spec_bytes(), edits@, k)
                && edit_error_at(source.spec_bytes(), edits@, k) == Some(e),
{
    let ghost src = source.spec_bytes();
    let n = source.as_bytes().len();
    proof {
        lemma_str_valid(source);
    }
    let mut prev_end: usize = 0;
    let mut i: usize = 0;
    while i < edits.len()
        invariant
            src == source.spec_bytes(),
            valid_utf8(src),
            n == src.len(),
            i <= edits@.len(),
            prev_end == prev_end_before(edits@, i as int),
            edits_valid_upto(src, edits@, i as int),
        decreases edits@.len() - i,
    {
        let start = edits[i].range.start;
        let end = edits[i].range.end;
        proof {
            if start <= end && end <= n {
                lemma_boundary_iff(src, start as int);
                lemma_boundary_iff(src, end as int);
            }
        }
        let failed = if end < start {
            Some(EditError::InvertedRange { start, end })
        } else if end > n {
            Some(EditError::OutOfBounds { start, end, source_len: n })
        } else if !source.is_char_boundary(start) || !source.is_char_boundary(end) {
            Some(EditError::NonCharBoundary { start, end })
        } else if start < prev_end {
            Some(EditError::UnsortedOrOverlapping { prev_end, next_start: start })
        } else {
            None
        };
        if let Some(e) = failed {
            proof {
                assert(edit_error_at(src, edits@, i as int) == Some(e));
            }
            return Err(e);
        }
        proof {
            assert(edit_error_at(src, edits@, i as int) is None);
            assert forall|j: int| 0 <= j < i + 1 implies #[trigger] edit_error_at(
                src,
                edits@,
                j,
            ) is None by {
                if j < i {
                    assert(edit_error_at(src, edits@, j) is None);
                }
            }
        }
        prev_end = end;
        i += 1;
    }

    let mut out = String::new();
    let mut cursor: usize = 0;
    let mut i: usize = 0;
    proof {
        assert(encode_utf8(out@) =~= seq![]);
    }
    while i < edits.len()
        invariant
            src == source.spec_bytes(),
            valid_utf8(src),
            n == src.len(),
            i <= edits@.len(),
            edits_valid(src, edits@),
            cursor == prev_end_before(edits@, i as int),
            cursor <= src.len(),
            at_boundary(src, cursor as int),
            encode_utf8(out@) == splice_prefix(src, edits@, i as int),
        decreases edits@.len() - i,
    {
        let start = edits[i].range.start;
        let end = edits[i].range.end;
        proof {
            assert(edit_error_at(src, edits@, i as int) is None);
            lemma_boundary_iff(src, cursor as int);
            lemma_boundary_iff(src, start as int);
        }
        let piece = substr(source, cursor, start);
        let ghost before = out@;
        out.append(piece);
        let text = edits[i].new_text.as_str();
        let ghost middle = out@;
        out.append(text);
        proof {
            lemma_encode_concat(before, piece@);
            lemma_encode_concat(middle, text@);
            assert(encode_utf8(out@) =~= splice_prefix(src, edits@, i + 1));
        }
        cursor = end;
        i += 1;
    }
    proof {
        lemma_boundary_iff(src, cursor as int);
        lemma_boundary_iff(src, src.len() as int);
    }
    let tail = substr(source, cursor, n);
    let ghost before = out@;
    out.append(tail);
    proof {
        lemma_encode_concat(before, tail@);
        assert(encode_utf8(out@) =~= spliced(src, edits@));
    }
    Ok(out)
}

} // verus!

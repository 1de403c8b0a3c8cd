//! The versioned text of an open document: every accepted change bumps
//! the edit version by one and logs the byte edits it made under that
//! version, a rejected batch leaves everything as it was, and a
//! wholesale replacement clears the log. A snapshot built at some
//! version is installed only over one that is not newer, and then
//! retires the logged edits it already covers. Syntax trees and
//! snapshot scheduling are the caller's.

use vstd::prelude::*;
use vstd::string::*;
use vstd::utf8::*;

use crate::text_edit::{apply_edits, edits_valid, spliced, LocalTextEdit};

verus! {

/// A byte-level edit in the shape a syntax tree is told about: the
/// replaced range `start_byte..old_end_byte` now ends at `new_end_byte`.
#[derive(Debug, Clone, Copy, PartialEq, Eq, Structural)]
pub struct InputEdit {
    pub start_byte: usize,
    pub old_end_byte: usize,
    pub new_end_byte: usize,
}

/// The edit from byte offsets.
pub fn input_edit(start_byte: usize, old_end_byte: usize, new_end_byte: usize) -> (e: InputEdit)
    ensures
        e == (InputEdit { start_byte, old_end_byte, new_end_byte }),
{
    InputEdit { start_byte, old_end_byte, new_end_byte }
}

/// The input edit a text edit makes: its range, ending after its new
/// text.
pub open spec fn edit_of(e: LocalTextEdit) -> InputEdit {
    InputEdit {
        start_byte: e.range.start,
        old_end_byte: e.range.end,
        new_end_byte: (e.range.start + encode_utf8(e.new_text@).len()) as usize,
    }
}

/// The log entries a batch of `edits` adds under version `v`.
pub open spec fn logged(edits: Seq<LocalTextEdit>, v: u64) -> Seq<(u64, InputEdit)> {
    edits.map_values(|e: LocalTextEdit| (v, edit_of(e)))
}

/// A batch whose new ends all fit a `usize`.
pub open spec fn ends_fit(edits: Seq<LocalTextEdit>) -> bool {
    forall|i: int|
        0 <= i < edits.len() ==> (#[trigger] edits[i]).range.start + encode_utf8(edits[i].new_text@).len()
            <= usize::MAX
}

/// The mutable side of an open document.
#[derive(Debug)]
pub struct DocBuffer {
    text: String,
    version: u64,
    pending: Vec<(u64, InputEdit)>,
}

impl DocBuffer {
    /// The document text.
    pub closed spec fn text_view(&self) -> Seq<char> {
        self.text@
    }

    /// The edit version.
    pub closed spec fn version_view(&self) -> u64 {
        self.version
    }

    /// The logged edits with their versions.
    pub closed spec fn pending_view(&self) -> Seq<(u64, InputEdit)> {
        self.pending@
    }

    /// Every logged edit is tagged with a version no later than the
    /// current one, and the tags never decrease.
    pub open spec fn well_formed(&self) -> bool {
        &&& forall|i: int| 0 <= i < self.pending_view().len() ==> (#[trigger] self.pending_view()[i]).0 <= self.version_view()
        &&& forall|i: int, j: int|
            0 <= i <= j < self.pending_view().len() ==> self.pending_view()[i].0 <= self.pending_view()[j].0
    }

    /// A document at version 0 with no logged edits.
    pub fn new(text: String) -> (d: Self)
        ensures
            d.text_view() == text@,
            d.version_view() == 0,
            d.pending_view().len() == 0,
            d.well_formed(),
    {
        DocBuffer { text, version: 0, pending: Vec::new() }
    }

    /// The document text.
    pub fn text(&self) -> (r: &str)
        ensures
            r@ == self.text_view(),
    {
        self.text.as_str()
    }

    /// The edit version.
    pub fn edit_version(&self) -> (v: u64)
        ensures
            v == self.version_view(),
    {
        self.version
    }

    /// Apply a batch of edits: when the batch is valid, the text becomes
    /// the splice, the version goes up by one and the batch's input edits
    /// are logged under it, and the new version is returned; otherwise
    /// nothing changes and `None` is returned.
    pub fn apply_changes(&mut self, edits: &[LocalTextEdit]) -> (r: Option<u64>)
        requires
            old(self).version_view() < u64::MAX,
            ends_fit(edits@),
            old(self).well_formed(),
        ensures
            final(self).well_formed(),
            !edits_valid(encode_utf8(old(self).text_view()), edits@) ==> r is None && final(self).text_view()
                == old(self).text_view() && final(self).version_view() == old(self).version_view()
                && final(self).pending_view() == old(self).pending_view(),
            edits_valid(encode_utf8(old(self).text_view()), edits@) ==> r == Some(
                (old(self).version_view() + 1) as u64,
            ),
            edits_valid(encode_utf8(old(self).text_view()), edits@) ==> encode_utf8(final(self).text_view())
                == spliced(encode_utf8(old(self).text_view()), edits@),
            edits_valid(encode_utf8(old(self).text_view()), edits@) ==> final(self).version_view()
                == old(self).version_view() + 1,
            edits_valid(encode_utf8(old(self).text_view()), edits@) ==> final(self).pending_view()
                == old(self).pending_view() + logged(edits@, (old(self).version_view() + 1) as u64),
    {
        let mut ts_edits: Vec<InputEdit> = Vec::new();
        let mut i: usize = 0;
        while i < edits.len()
            invariant
                ends_fit(edits@),
                i <= edits@.len(),
                ts_edits@ == edits@.take(i as int).map_values(|e: LocalTextEdit| edit_of(e)),
            decreases edits@.len() - i,
        {
            let e = &edits[i];
            let n = e.new_text.as_str().as_bytes().len();
            proof {
                assert(e.range.start + encode_utf8(e.new_text@).len() <= usize::MAX);
            }
            ts_edits.push(input_edit(e.range.start, e.range.end, e.range.start + n));
            proof {
                assert(edits@.take(i + 1) =~= edits@.take(i as int).push(edits@[i as int]));
                assert(ts_edits@ =~= edits@.take(i + 1).map_values(|e: LocalTextEdit| edit_of(e)));
            }
            i += 1;
        }
        proof {
            assert(edits@.take(edits@.len() as int) =~= edits@);
        }
        let new_text = match apply_edits(self.text.as_str(), edits) {
            Ok(t) => t,
            Err(_) => {
                return None;
            },
        };
        self.text = new_text;
        let v = self.version + 1;
        self.version = v;
        let ghost before = self.pending@;
        let ghost t = self.text@;
        proof {
            assert(before == old(self).pending_view());
            assert forall|q: int| 0 <= q < before.len() implies (#[trigger] before[q]).0 < v by {
                assert(old(self).pending_view()[q].0 <= old(self).version_view());
            }
            assert forall|q: int, r: int| 0 <= q <= r < before.len() implies before[q].0 <= before[r].0 by {
                assert(old(self).pending_view()[q].0 <= old(self).pending_view()[r].0);
            }
        }
        let mut k: usize = 0;
        while k < ts_edits.len()
            invariant
                k <= ts_edits@.len(),
                ts_edits@ == edits@.map_values(|e: LocalTextEdit| edit_of(e)),
                self.pending@ == before + logged(edits@.take(k as int), v),
                self.version == v,
                self.text@ == t,
                forall|q: int| 0 <= q < before.len() ==> (#[trigger] before[q]).0 < v,
                forall|q: int, r: int| 0 <= q <= r < before.len() ==> before[q].0 <= before[r].0,
            decreases ts_edits@.len() - k,
        {
            self.pending.push((v, ts_edits[k]));
            proof {
                assert(edits@.take(k + 1) =~= edits@.take(k as int).push(edits@[k as int]));
                assert(logged(edits@.take(k + 1), v) =~= logged(edits@.take(k as int), v).push((v, edit_of(edits@[k as int]))));
            }
            k += 1;
        }
        proof {
            assert(edits@.take(edits@.len() as int) =~= edits@);
            let p = self.pending@;
            assert forall|q: int| 0 <= q < p.len() implies (#[trigger] p[q]).0 <= v by {
                if q >= before.len() {
                    assert(p[q] == logged(edits@, v)[q - before.len()]);
                }
            }
            assert forall|q: int, r: int| 0 <= q <= r < p.len() implies p[q].0 <= p[r].0 by {
                if r >= before.len() {
                    assert(p[r] == logged(edits@, v)[r - before.len()]);
                    if q >= before.len() {
                        assert(p[q] == logged(edits@, v)[q - before.len()]);
                    }
                }
            }
        }
        Some(v)
    }

    /// Replace the text wholesale: the version goes up by one and the
    /// log is cleared (no edit chain leads from the old text to the new).
    pub fn replace_text(&mut self, new_text: String) -> (v: u64)
        requires
            old(self).version_view() < u64::MAX,
        ensures
            final(self).text_view() == new_text@,
            v == old(self).version_view() + 1,
            final(self).version_view() == v,
            final(self).pending_view().len() == 0,
            final(self).well_formed(),
    {
        self.text = new_text;
        self.version = self.version + 1;
        self.pending = Vec::new();
        self.version
    }

    /// The logged edits tagged after version `after` and no later than
    /// `upto`, in log order.
    pub fn edits_between(&self, after: u64, upto: u64) -> (r: Vec<InputEdit>)
        ensures
            r@ == between(self.pending_view(), after, upto),
    {
        let mut out: Vec<InputEdit> = Vec::new();
        let mut i: usize = 0;
        while i < self.pending.len()
            invariant
                i <= self.pending@.len(),
                out@ == between(self.pending@.take(i as int), after, upto),
            decreases self.pending@.len() - i,
        {
            let (v, e) = self.pending[i];
            proof {
                assert(self.pending@.take(i + 1).drop_last() =~= self.pending@.take(i as int));
            }
            if v > after && v <= upto {
                out.push(e);
            }
            i += 1;
        }
        proof {
            assert(self.pending@.take(self.pending@.len() as int) =~= self.pending@);
        }
        out
    }

    /// Drop the logged edits a snapshot at version `installed` covers.
    pub fn retire_through(&mut self, installed: u64)
        ensures
            final(self).pending_view() == after_version(old(self).pending_view(), installed),
            final(self).text_view() == old(self).text_view(),
            final(self).version_view() == old(self).version_view(),
            old(self).well_formed() ==> final(self).well_formed(),
    {
        let mut kept: Vec<(u64, InputEdit)> = Vec::new();
        let mut i: usize = 0;
        while i < self.pending.len()
            invariant
                i <= self.pending@.len(),
                kept@ == after_version(self.pending@.take(i as int), installed),
            decreases self.pending@.len() - i,
        {
            let entry = self.pending[i];
            proof {
                assert(self.pending@.take(i + 1).drop_last() =~= self.pending@.take(i as int));
            }
            if entry.0 > installed {
                kept.push(entry);
            }
            i += 1;
        }
        proof {
            assert(self.pending@.take(self.pending@.len() as int) =~= self.pending@);
            if old(self).well_formed() {
                lemma_after_version_sorted(old(self).pending_view(), installed, old(self).version_view());
            }
        }
        self.pending = kept;
    }
}

/// The edits of `log` tagged in `(after, upto]`.
pub open spec fn between(log: Seq<(u64, InputEdit)>, after: u64, upto: u64) -> Seq<InputEdit>
    decreases log.len(),
{
    if log.len() == 0 {
        seq![]
    } else {
        let rest = between(log.drop_last(), after, upto);
        if log.last().0 > after && log.last().0 <= upto {
            rest.push(log.last().1)
        } else {
            rest
        }
    }
}

/// The entries of `log` tagged after `v`.
pub open spec fn after_version(log: Seq<(u64, InputEdit)>, v: u64) -> Seq<(u64, InputEdit)>
    decreases log.len(),
{
    if log.len() == 0 {
        seq![]
    } else {
        let rest = after_version(log.drop_last(), v);
        if log.last().0 > v {
            rest.push(log.last())
        } else {
            rest
        }
    }
}

/// The tags of `log` never decrease.
pub open spec fn tags_sorted(log: Seq<(u64, InputEdit)>) -> bool {
    forall|i: int, j: int| 0 <= i <= j < log.len() ==> log[i].0 <= log[j].0
}

/// Retiring keeps the tags sorted and within any bound the log had.
proof fn lemma_after_version_sorted(log: Seq<(u64, InputEdit)>, v: u64, bound: u64)
    requires
        tags_sorted(log),
        forall|i: int| 0 <= i < log.len() ==> (#[trigger] log[i]).0 <= bound,
    ensures
        tags_sorted(after_version(log, v)),
        forall|i: int| 0 <= i < after_version(log, v).len() ==> (#[trigger] after_version(log, v)[i]).0 <= bound,
    decreases log.len(),
{
    if log.len() > 0 {
        let t = log.drop_last();
        let last = log.last();
        assert(forall|i: int| 0 <= i < t.len() ==> (#[trigger] t[i]) == log[i]);
        lemma_after_version_sorted(t, v, last.0);
        lemma_after_version_sorted(t, v, bound);
        let rt = after_version(t, v);
        let r = after_version(log, v);
        if last.0 > v {
            assert(r == rt.push(last));
            assert forall|i: int, j: int| 0 <= i <= j < r.len() implies r[i].0 <= r[j].0 by {
                if j < rt.len() {
                    assert(r[i] == rt[i] && r[j] == rt[j]);
                } else if i < rt.len() {
                    assert(r[i] == rt[i] && r[j] == last);
                }
            }
            assert forall|i: int| 0 <= i < r.len() implies (#[trigger] r[i]).0 <= bound by {
                if i < rt.len() {
                    assert(r[i] == rt[i]);
                }
            }
        }
    }
}

/// A snapshot built at version `candidate` replaces the current one (at
/// `current`) unless it is older.
pub fn install_if_newer(current: u64, candidate: u64) -> (r: bool)
    ensures
        r == (candidate >= current),
{
    candidate >= current
}

proof fn lemma_between_none_after(log: Seq<(u64, InputEdit)>, after: u64, upto: u64)
    requires
        forall|i: int| 0 <= i < log.len() ==> (#[trigger] log[i]).0 <= after,
    ensures
        between(log, after, upto) == Seq::<InputEdit>::empty(),
    decreases log.len(),
{
    if log.len() > 0 {
        let t = log.drop_last();
        assert forall|i: int| 0 <= i < t.len() implies (#[trigger] t[i]).0 <= after by {
            assert(t[i] == log[i]);
        }
        lemma_between_none_after(t, after, upto);
    }
}

proof fn lemma_between_append(a: Seq<(u64, InputEdit)>, b: Seq<(u64, InputEdit)>, after: u64, upto: u64)
    ensures
        between(a + b, after, upto) == between(a, after, upto) + between(b, after, upto),
    decreases b.len(),
{
    if b.len() == 0 {
        assert(a + b =~= a);
        assert(between(a, after, upto) + between(b, after, upto) =~= between(a, after, upto));
    } else {
        lemma_between_append(a, b.drop_last(), after, upto);
        assert((a + b).drop_last() =~= a + b.drop_last());
        assert((a + b).last() == b.last());
        let x = between(a, after, upto);
        let y = between(b.drop_last(), after, upto);
        if b.last().0 > after && b.last().0 <= upto {
            assert((x + y).push(b.last().1) =~= x + y.push(b.last().1));
        }
    }
}

proof fn lemma_between_logged(edits: Seq<LocalTextEdit>, w: u64, after: u64, upto: u64)
    requires
        after < w <= upto,
    ensures
        between(logged(edits, w), after, upto) == edits.map_values(|e: LocalTextEdit| edit_of(e)),
    decreases edits.len(),
{
    if edits.len() == 0 {
        assert(logged(edits, w) =~= Seq::<(u64, InputEdit)>::empty());
        assert(edits.map_values(|e: LocalTextEdit| edit_of(e)) =~= Seq::<InputEdit>::empty());
    } else {
        let t = edits.drop_last();
        lemma_between_logged(t, w, after, upto);
        assert(logged(edits, w).drop_last() =~= logged(t, w));
        assert(edits.map_values(|e: LocalTextEdit| edit_of(e)) =~= t.map_values(
            |e: LocalTextEdit| edit_of(e),
        ).push(edit_of(edits.last())));
    }
}

/// A snapshot rebuild that starts from the snapshot at version `v` and
/// targets the version the next batch produces replays exactly that
/// batch's edits, in order.
pub proof fn law_rebuild_replays_the_last_batch(
    log: Seq<(u64, InputEdit)>,
    v: u64,
    edits: Seq<LocalTextEdit>,
)
    requires
        v < u64::MAX,
        forall|i: int| 0 <= i < log.len() ==> (#[trigger] log[i]).0 <= v,
    ensures
        between(log + logged(edits, (v + 1) as u64), v, (v + 1) as u64) == edits.map_values(
            |e: LocalTextEdit| edit_of(e),
        ),
{
    lemma_between_append(log, logged(edits, (v + 1) as u64), v, (v + 1) as u64);
    lemma_between_none_after(log, v, (v + 1) as u64);
    lemma_between_logged(edits, (v + 1) as u64, v, (v + 1) as u64);
    assert(Seq::<InputEdit>::empty() + edits.map_values(|e: LocalTextEdit| edit_of(e))
        =~= edits.map_values(|e: LocalTextEdit| edit_of(e)));
}

/// Retiring the edits a snapshot at version `installed` covers changes
/// none of the replays that later rebuilds (starting at or after
/// `installed`) ask for.
pub proof fn law_retiring_keeps_later_replays(
    log: Seq<(u64, InputEdit)>,
    installed: u64,
    after: u64,
    upto: u64,
)
    requires
        installed <= after,
    ensures
        between(after_version(log, installed), after, upto) == between(log, after, upto),
    decreases log.len(),
{
    if log.len() > 0 {
        law_retiring_keeps_later_replays(log.drop_last(), installed, after, upto);
        if log.last().0 > installed {
            assert(after_version(log, installed).drop_last() =~= after_version(log.drop_last(), installed));
        }
    }
}

} // verus!

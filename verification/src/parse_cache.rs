//! Per-document parse state for the language server: the latest text
//! and the diagnostics of its parse, with per-call statistics. A
//! document over [`MAX_DOCUMENT_BYTES`] is stored but not parsed, and
//! offers no tree to parse on demand.

use vstd::prelude::*;
use vstd::string::*;
use vstd::utf8::encode_utf8;

use crate::diagnostics::{lex_diagnostics, lexed_diagnostics, LexDiagnostic};

verus! {

/// Documents larger than this skip whole-document semantic analysis.
pub const MAX_DOCUMENT_BYTES: usize = 16777216;

/// A point in time from the monotonic clock.
#[verifier::external_type_specification]
#[verifier::external_body]
pub struct ExInstant(std::time::Instant);

/// `std::time::Instant::now`. Nothing is claimed of the instant.
#[verifier::external_body]
pub(crate) fn clock_now() -> std::time::Instant {
    std::time::Instant::now()
}

/// `Instant::elapsed` of `started`, as whole microseconds
/// (`Duration::as_micros`). It depends on the clock, so nothing is
/// claimed of it.
#[verifier::external_body]
pub(crate) fn elapsed_micros(started: &std::time::Instant) -> u128 {
    started.elapsed().as_micros()
}

/// Microseconds as a `u64`, saturating.
pub fn duration_as_us(micros: u128) -> (r: u64)
    ensures
        r == (if micros > u64::MAX {
            u64::MAX as int
        } else {
            micros as int
        }),
{
    if micros > 0xffff_ffff_ffff_ffffu128 {
        u64::MAX
    } else {
        micros as u64
    }
}

/// A byte length as a `u64`, saturating.
pub open spec fn len_u64(n: nat) -> u64 {
    if n > u64::MAX {
        u64::MAX
    } else {
        n as u64
    }
}

pub(crate) fn len_as_u64(n: usize) -> (r: u64)
    ensures
        r == len_u64(n as nat),
{
    if (n as u128) > 0xffff_ffff_ffff_ffffu128 {
        u64::MAX
    } else {
        n as u64
    }
}

/// A copy of one diagnostic.
pub(crate) fn copy_diagnostic(d: &LexDiagnostic) -> (r: LexDiagnostic)
    ensures
        r == *d,
{
    match d {
        LexDiagnostic::SourceContainsPua { span, codepoint } => LexDiagnostic::SourceContainsPua {
            span: *span,
            codepoint: *codepoint,
        },
        LexDiagnostic::UnclosedBracket { span, kind } => LexDiagnostic::UnclosedBracket {
            span: *span,
            kind: *kind,
        },
        LexDiagnostic::UnmatchedClose { span, kind } => LexDiagnostic::UnmatchedClose {
            span: *span,
            kind: *kind,
        },
        LexDiagnostic::Internal { span, check, rendered } => LexDiagnostic::Internal {
            span: *span,
            check: *check,
            rendered: rendered.clone(),
        },
        LexDiagnostic::Unknown { rendered } => LexDiagnostic::Unknown { rendered: rendered.clone() },
    }
}

/// A copy of a diagnostic list.
pub(crate) fn copy_diagnostics(v: &Vec<LexDiagnostic>) -> (r: Vec<LexDiagnostic>)
    ensures
        r@ == v@,
{
    let mut out: Vec<LexDiagnostic> = Vec::new();
    let mut i: usize = 0;
    while i < v.len()
        invariant
            i <= v@.len(),
            out@ == v@.take(i as int),
        decreases v@.len() - i,
    {
        let ghost before = out@;
        out.push(copy_diagnostic(&v[i]));
        proof {
            assert(v@.take(i + 1) =~= v@.take(i as int).push(v@[i as int]));
        }
        i += 1;
    }
    proof {
        assert(v@.take(v@.len() as int) =~= v@);
    }
    out
}

/// Per-call statistics of [`ParseCache::reparse`]; every parse is a
/// miss under the whole-document model.
#[derive(Debug, Clone, Copy, Default, PartialEq, Eq, Structural)]
pub struct ReparseStats {
    pub parse_count: u64,
    pub cache_hits: u64,
    pub cache_misses: u64,
    pub cache_entries_after: u64,
    pub cache_bytes_estimate: u64,
    pub latency_us: u64,
}

/// The latest text and the diagnostics of its parse.
#[derive(Debug)]
pub struct ParseCache {
    text: String,
    diagnostics: Vec<LexDiagnostic>,
}

impl ParseCache {
    /// The cache's text.
    pub closed spec fn text_view(&self) -> Seq<char> {
        self.text@
    }

    /// The cache's diagnostics.
    pub closed spec fn diagnostics_view(&self) -> Seq<LexDiagnostic> {
        self.diagnostics@
    }

    /// An empty cache: no text, no diagnostics.
    pub fn new() -> (c: Self)
        ensures
            c.text_view().len() == 0,
            c.diagnostics_view().len() == 0,
    {
        ParseCache { text: String::new(), diagnostics: Vec::new() }
    }

    /// Re-parse `text` and keep it: an oversized text is stored without
    /// a parse (no diagnostics, zero counts, its length as the byte
    /// estimate); otherwise its diagnostics are stored and returned with
    /// one parse, one miss and one entry counted.
    pub fn reparse(&mut self, text: &str) -> (r: (Vec<LexDiagnostic>, ReparseStats))
        ensures
            final(self).text_view() == text@,
            final(self).diagnostics_view() == r.0@,
            r.1.cache_bytes_estimate == len_u64(text.spec_bytes().len()),
            r.1.cache_hits == 0,
            text.spec_bytes().len() > MAX_DOCUMENT_BYTES ==> r.0@.len() == 0 && r.1.parse_count == 0
                && r.1.cache_misses == 0 && r.1.cache_entries_after == 0,
            text.spec_bytes().len() <= MAX_DOCUMENT_BYTES ==> r.0@ == lexed_diagnostics(text@)
                && r.1.parse_count == 1 && r.1.cache_misses == 1 && r.1.cache_entries_after == 1,
    {
        let started = clock_now();
        if text.as_bytes().len() > MAX_DOCUMENT_BYTES {
            self.text = String::from_str(text);
            self.diagnostics = Vec::new();
            let stats = ReparseStats {
                parse_count: 0,
                cache_hits: 0,
                cache_misses: 0,
                cache_entries_after: 0,
                cache_bytes_estimate: len_as_u64(text.as_bytes().len()),
                latency_us: duration_as_us(elapsed_micros(&started)),
            };
            return (Vec::new(), stats);
        }
        let diagnostics = lex_diagnostics(text);
        let latency_us = duration_as_us(elapsed_micros(&started));
        self.text = String::from_str(text);
        self.diagnostics = copy_diagnostics(&diagnostics);
        let stats = ReparseStats {
            parse_count: 1,
            cache_hits: 0,
            cache_misses: 1,
            cache_entries_after: 1,
            cache_bytes_estimate: len_as_u64(text.as_bytes().len()),
            latency_us,
        };
        (diagnostics, stats)
    }

    /// The most recent diagnostics.
    pub fn diagnostics(&self) -> (r: &Vec<LexDiagnostic>)
        ensures
            r@ == self.diagnostics_view(),
    {
        &self.diagnostics
    }

    /// Replace the diagnostics wholesale (an out-of-band parse of the
    /// current text).
    pub fn set_diagnostics(&mut self, diagnostics: Vec<LexDiagnostic>)
        ensures
            final(self).diagnostics_view() == diagnostics@,
            final(self).text_view() == old(self).text_view(),
    {
        self.diagnostics = diagnostics;
    }

    /// The text to parse for a request that needs the tree: none before
    /// the first parse (no text and no diagnostics) or for an oversized
    /// document.
    pub fn tree_source(&self) -> (r: Option<&str>)
        ensures
            (self.text_view().len() == 0 && self.diagnostics_view().len() == 0) ==> r is None,
            encode_utf8(self.text_view()).len() > MAX_DOCUMENT_BYTES ==> r is None,
            r matches Some(t) ==> t@ == self.text_view(),
            !(self.text_view().len() == 0 && self.diagnostics_view().len() == 0) && r is None
                ==> encode_utf8(self.text_view()).len() > MAX_DOCUMENT_BYTES,
    {
        if self.text.as_str().unicode_len() == 0 && self.diagnostics.len() == 0 {
            return None;
        }
        if self.text.as_str().as_bytes().len() > MAX_DOCUMENT_BYTES {
            return None;
        }
        Some(self.text.as_str())
    }

    /// Whether nothing has been parsed yet.
    pub fn is_empty(&self) -> (r: bool)
        ensures
            r == (self.text_view().len() == 0 && self.diagnostics_view().len() == 0),
    {
        self.text.as_str().unicode_len() == 0 && self.diagnostics.len() == 0
    }
}

impl Default for ParseCache {
    fn default() -> (c: Self)
        ensures
            c.text_view().len() == 0,
            c.diagnostics_view().len() == 0,
    {
        ParseCache::new()
    }
}

} // verus!

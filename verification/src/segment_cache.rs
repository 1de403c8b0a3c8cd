//! Per-document parse state of the whole-document model that replaced
//! the per-paragraph cache: the latest text and its diagnostics, with
//! per-call statistics that keep the cache-era fields (every reparse is
//! a single miss).

use vstd::prelude::*;
use vstd::string::*;

use crate::diagnostics::{lex_diagnostics, lexed_diagnostics, lexer_room, LexDiagnostic};
use crate::parse_cache::{clock_now, copy_diagnostics, duration_as_us, elapsed_micros, len_as_u64, len_u64};

verus! {

/// Per-call statistics of [`SegmentCache::reparse`].
#[derive(Debug, Clone, Copy, Default, PartialEq, Eq, Structural)]
pub struct ReparseStats {
    pub segment_count: u64,
    pub cache_hits: u64,
    pub cache_misses: u64,
    pub cache_entries_after: u64,
    pub cache_bytes_estimate: u64,
    pub latency_us: u64,
}

/// The latest text and the diagnostics of its parse.
#[derive(Debug)]
pub struct SegmentCache {
    text: String,
    diagnostics: Vec<LexDiagnostic>,
}

impl SegmentCache {
    /// The cache's text.
    pub closed spec fn text_view(&self) -> Seq<char> {
        self.text@
    }

    /// The cache's diagnostics.
    pub closed spec fn diagnostics_view(&self) -> Seq<LexDiagnostic> {
        self.diagnostics@
    }

    /// An empty cache.
    pub fn new() -> (c: Self)
        ensures
            c.text_view().len() == 0,
            c.diagnostics_view().len() == 0,
    {
        SegmentCache { text: String::new(), diagnostics: Vec::new() }
    }

    /// Re-parse `text`, keep it and its diagnostics, and return them
    /// with one segment, one miss and one entry counted.
    pub fn reparse(&mut self, text: &str) -> (r: (Vec<LexDiagnostic>, ReparseStats))
        requires
            lexer_room(text.spec_bytes().len()),
        ensures
            final(self).text_view() == text@,
            final(self).diagnostics_view() == r.0@,
            r.0@ == lexed_diagnostics(text@),
            r.1.segment_count == 1,
            r.1.cache_hits == 0,
            r.1.cache_misses == 1,
            r.1.cache_entries_after == 1,
            r.1.cache_bytes_estimate == len_u64(text.spec_bytes().len()),
    {
        let started = clock_now();
        let diagnostics = lex_diagnostics(text);
        let latency_us = duration_as_us(elapsed_micros(&started));
        self.text = String::from_str(text);
        self.diagnostics = copy_diagnostics(&diagnostics);
        let stats = ReparseStats {
            segment_count: 1,
            cache_hits: 0,
            cache_misses: 1,
            cache_entries_after: 1,
            cache_bytes_estimate: len_as_u64(text.as_bytes().len()),
            latency_us,
        };
        (diagnostics, stats)
    }

    /// The most recent diagnostics.
    pub fn diagnostics(&self) -> (r: &Vec<LexDiagnostic>)
        ensures
            r@ == self.diagnostics_view(),
    {
        &self.diagnostics
    }

    /// Replace the diagnostics wholesale.
    pub fn set_diagnostics(&mut self, diagnostics: Vec<LexDiagnostic>)
        ensures
            final(self).diagnostics_view() == diagnostics@,
            final(self).text_view() == old(self).text_view(),
    {
        self.diagnostics = diagnostics;
    }

    /// The text to parse for a request that needs the tree: none before
    /// the first parse.
    pub fn tree_source(&self) -> (r: Option<&str>)
        ensures
            (self.text_view().len() == 0 && self.diagnostics_view().len() == 0) <==> r is None,
            r matches Some(t) ==> t@ == self.text_view(),
    {
        if self.text.as_str().unicode_len() == 0 && self.diagnostics.len() == 0 {
            return None;
        }
        Some(self.text.as_str())
    }

    /// Whether nothing has been parsed yet.
    pub fn is_empty(&self) -> (r: bool)
        ensures
            r == (self.text_view().len() == 0 && self.diagnostics_view().len() == 0),
    {
        self.text.as_str().unicode_len() == 0 && self.diagnostics.len() == 0
    }
}

impl Default for SegmentCache {
    fn default() -> (c: Self)
        ensures
            c.text_view().len() == 0,
            c.diagnostics_view().len() == 0,
    {
        SegmentCache::new()
    }
}

} // verus!

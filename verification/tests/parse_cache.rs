use aozora_tools::diagnostics::LexDiagnostic;
use aozora_tools::parse_cache::{duration_as_us, ParseCache, MAX_DOCUMENT_BYTES};

#[test]
fn parse_cache_first_reparse_populates_state() {
    let mut cache = ParseCache::default();
    assert!(cache.is_empty());
    let (diags, stats) = cache.reparse("hello, world");
    assert!(diags.is_empty());
    assert_eq!(stats.parse_count, 1);
}

#[test]
fn parse_cache_reparse_reports_latency_micros() {
    let mut cache = ParseCache::default();
    let (_, stats) = cache.reparse("plain text");
    assert!(stats.latency_us < 10_000_000, "stats: {stats:?}");
}

#[test]
fn parse_cache_pua_collision_surfaces_diagnostic() {
    let mut cache = ParseCache::default();
    let (diags, _) = cache.reparse("abc\u{E001}def");
    assert!(
        diags.iter().any(|d| matches!(d, LexDiagnostic::SourceContainsPua { .. })),
        "expected SourceContainsPua, got {diags:?}",
    );
}

#[test]
fn parse_cache_empty_text_parses_with_no_diagnostics() {
    let mut cache = ParseCache::default();
    let (diags, _) = cache.reparse("");
    assert!(diags.is_empty());
}

#[test]
fn oversized_text_skips_parse_and_degrades_tree() {
    let mut cache = ParseCache::default();
    let big = "a".repeat(MAX_DOCUMENT_BYTES + 1);
    let (diags, stats) = cache.reparse(&big);
    assert!(diags.is_empty(), "oversized parse must be skipped");
    assert_eq!(stats.parse_count, 0, "no segments parsed when oversized");
    assert!(cache.tree_source().is_none(), "the tree must degrade to None for oversized documents");
}

#[test]
fn stored_diagnostics_and_text_follow_the_last_parse() {
    let mut cache = ParseCache::default();
    let (first, _) = cache.reparse("本文［＃改ページ");
    assert_eq!(cache.diagnostics(), &first);
    assert!(!first.is_empty());
    let (second, stats) = cache.reparse("ok");
    assert!(second.is_empty());
    assert!(cache.diagnostics().is_empty());
    assert_eq!(cache.tree_source(), Some("ok"));
    assert_eq!(stats.cache_bytes_estimate, 2);
    assert_eq!((stats.cache_hits, stats.cache_misses, stats.cache_entries_after), (0, 1, 1));
}

#[test]
fn microseconds_saturate_to_u64() {
    assert_eq!(duration_as_us(1234), 1234);
    assert_eq!(duration_as_us(u128::from(u64::MAX) + 1), u64::MAX);
}

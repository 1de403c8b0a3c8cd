use aozora_tools::diagnostics::LexDiagnostic;
use aozora_tools::segment_cache::SegmentCache;

#[test]
fn segment_cache_first_reparse_populates_state() {
    let mut cache = SegmentCache::default();
    assert!(cache.is_empty());
    let (diags, stats) = cache.reparse("hello, world");
    assert!(diags.is_empty());
    assert_eq!(stats.segment_count, 1);
}

#[test]
fn segment_cache_reparse_reports_latency_micros() {
    let mut cache = SegmentCache::default();
    let (_, stats) = cache.reparse("plain text");
    assert!(stats.latency_us < 10_000_000, "stats: {stats:?}");
}

#[test]
fn segment_cache_pua_collision_surfaces_diagnostic() {
    let mut cache = SegmentCache::default();
    let (diags, _) = cache.reparse("abc\u{E001}def");
    assert!(
        diags.iter().any(|d| matches!(d, LexDiagnostic::SourceContainsPua { .. })),
        "expected SourceContainsPua, got {diags:?}",
    );
}

#[test]
fn segment_cache_empty_text_parses_with_no_diagnostics() {
    let mut cache = SegmentCache::default();
    let (diags, _) = cache.reparse("");
    assert!(diags.is_empty());
}

#[test]
fn segment_cache_offers_its_text_once_parsed() {
    let mut cache = SegmentCache::default();
    assert!(cache.tree_source().is_none());
    drop(cache.reparse("first"));
    drop(cache.reparse("｜青梅《おうめ》"));
    assert_eq!(cache.tree_source(), Some("｜青梅《おうめ》"));
}

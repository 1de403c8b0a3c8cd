use aozora_tools::stats::LintStats;

#[test]
fn summary_uses_fixed_elapsed_and_pluralises() {
    let stats = LintStats {
        files_scanned: 12,
        clean: 9,
        with_diagnostics: 3,
        errored: 0,
        errors: 5,
        warnings: 1,
    };
    let line = stats.summary("38ms");
    assert_eq!(
        line,
        "aozora: scanned 12 files in 38ms — 9 clean, 3 with diagnostics, \
         0 errored (5 errors, 1 warning)"
    );
}

#[test]
fn one_file_is_singular_and_seconds_format_past_1s() {
    let stats = LintStats { files_scanned: 1, clean: 1, ..LintStats::default() };
    let line = stats.summary("1.5s");
    assert!(line.contains("scanned 1 file in 1.5s"), "{line}");
    assert!(line.contains("0 errors, 0 warnings"), "{line}");
}

#[test]
fn json_carries_elapsed_ms() {
    let stats = LintStats { files_scanned: 2, ..LintStats::default() };
    let json = stats.to_json(7);
    assert_eq!(json.files_scanned, 2);
    assert_eq!(json.elapsed_ms, 7);
}

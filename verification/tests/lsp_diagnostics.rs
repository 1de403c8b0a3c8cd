use aozora_tools::diagnostics::{LexDiagnostic, Severity, Span};
use aozora_tools::lsp_diagnostics::{
    diagnostics_for_source, diagnostics_from_aozora, lsp_diagnostics_checked, to_lsp_severity, DiagnosticSeverity,
    DiagnosticTag,
};
use aozora_tools::position::Position;

#[test]
fn diagnostics_plain_text_has_no_diagnostics() {
    assert!(diagnostics_for_source("hello world").unwrap().is_empty());
}

#[test]
fn diagnostics_canonical_ruby_has_no_diagnostics() {
    assert!(diagnostics_for_source("｜日本《にほん》").unwrap().is_empty());
}

#[test]
fn source_contains_pua_message_explains_what_to_do() {
    let src = "abc\u{E001}def";
    let diags = diagnostics_for_source(src).unwrap();
    let pua = diags
        .iter()
        .find(|d| d.code.as_deref() == Some("aozora::source-contains-pua"))
        .expect("PUA warning expected");
    assert!(pua.message.contains("削除"), "msg: {}", pua.message);
    assert_eq!(pua.severity, Some(DiagnosticSeverity::Warning));
    assert!(pua.tags.as_ref().is_some_and(|t| t.contains(&DiagnosticTag::Unnecessary)));
    assert!(pua.data.is_some(), "data payload should be attached");
}

#[test]
fn diagnostics_unclosed_bracket_message_carries_example_and_close_char() {
    let src = "本文［＃改ページ";
    let diags = diagnostics_for_source(src).unwrap();
    let unclosed = diags
        .iter()
        .find(|d| d.code.as_deref() == Some("aozora::unclosed-bracket"))
        .expect("UnclosedBracket expected on missing ］");
    assert!(unclosed.message.contains("］"), "{}", unclosed.message);
    assert!(unclosed.message.contains("例:"), "message must include a concrete example: {}", unclosed.message);
    assert!(unclosed.data.is_some(), "data payload required for quick-fix");
}

#[test]
fn diagnostics_unmatched_close_message_lists_three_causes() {
    let src = "本文 ］";
    let diags = diagnostics_for_source(src).unwrap();
    let unmatched = diags
        .iter()
        .find(|d| d.code.as_deref() == Some("aozora::unmatched-close"))
        .expect("UnmatchedClose expected on stray ］");
    assert!(unmatched.message.contains("削除"), "{}", unmatched.message);
    assert!(unmatched.message.contains("欠けている"), "{}", unmatched.message);
}

#[test]
fn diagnostic_carries_aozora_lsp_source_tag() {
    let src = "abc\u{E001}def";
    let diags = diagnostics_for_source(src).unwrap();
    assert!(
        diags.iter().all(|d| d.source.as_deref() == Some("aozora-lsp")),
        "every diagnostic must be tagged aozora-lsp: {diags:?}",
    );
}

#[test]
fn severity_maps_to_lsp_for_both_variants() {
    assert_eq!(to_lsp_severity(Severity::Error), DiagnosticSeverity::Error);
    assert_eq!(to_lsp_severity(Severity::Warning), DiagnosticSeverity::Warning);
}

#[test]
fn byte_spans_become_utf16_ranges() {
    let src = "本文\n ］";
    let d = LexDiagnostic::UnmatchedClose {
        span: Span::new(8, 11),
        kind: aozora_tools::diagnostics::SerializablePairKind::Bracket,
    };
    let out = diagnostics_from_aozora(src, &[d]);
    assert_eq!(out[0].range.start, Position::new(1, 1));
    assert_eq!(out[0].range.end, Position::new(1, 2));
    assert_eq!(out[0].tags, None);
}

#[test]
fn checked_conversion_refuses_spans_inside_a_char() {
    let src = "本文\n ］";
    let good = LexDiagnostic::UnmatchedClose {
        span: Span::new(8, 11),
        kind: aozora_tools::diagnostics::SerializablePairKind::Bracket,
    };
    let bad = LexDiagnostic::UnmatchedClose {
        span: Span::new(1, 3),
        kind: aozora_tools::diagnostics::SerializablePairKind::Bracket,
    };
    let out = lsp_diagnostics_checked(src, &[good.clone()]).expect("spans on boundaries");
    assert_eq!(out.len(), 1);
    assert_eq!(out[0].range.start, Position::new(1, 1));
    assert!(lsp_diagnostics_checked(src, &[good, bad]).is_none());
    assert_eq!(lsp_diagnostics_checked(src, &[]).map(|v| v.len()), Some(0));
}

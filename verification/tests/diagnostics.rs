use aozora_tools::diagnostics::{
    catalogue, describe, describe_source, fits_lexer, example_for, lookup, InternalCheck, LexDiagnostic,
    SerializablePairKind, Severity, Span,
};

#[test]
fn delimiters_and_examples_cover_every_pair_kind() {
    let cases = [
        (SerializablePairKind::Bracket, "［", "］"),
        (SerializablePairKind::Ruby, "《", "》"),
        (SerializablePairKind::DoubleRuby, "《《", "》》"),
        (SerializablePairKind::Tortoise, "〔", "〕"),
        (SerializablePairKind::Quote, "「", "」"),
    ];
    for (pk, open, close) in cases {
        assert_eq!(pk.open_str(), open, "open_str for {pk:?}");
        assert_eq!(pk.close_str(), close, "close_str for {pk:?}");
        assert!(example_for(pk).contains(open), "example for {pk:?} should use its opener {open}");
    }
}

#[test]
fn catalogue_has_an_entry_for_every_emittable_code() {
    const CODES: &[&str] = &[
        "aozora::source-contains-pua",
        "aozora::unclosed-bracket",
        "aozora::unmatched-close",
        "aozora::residual-annotation-marker",
        "aozora::unregistered-sentinel",
        "aozora::registry-out-of-order",
        "aozora::registry-position-mismatch",
        "aozora::unknown-diagnostic",
    ];
    for code in CODES {
        assert!(lookup(code).is_some(), "no catalogue entry for {code}");
    }
    assert_eq!(
        catalogue().len(),
        CODES.len(),
        "catalogue has entries for codes not in the emittable set (or vice versa)"
    );
}

#[test]
fn lookup_misses_return_none() {
    assert!(lookup("aozora::does-not-exist").is_none());
    assert!(lookup("").is_none());
}

#[test]
fn catalogue_codes_are_unique_and_well_formed() {
    let entries = catalogue();
    for entry in &entries {
        assert!(entry.code.starts_with("aozora::"), "code should be namespaced: {}", entry.code);
        assert!(!entry.title.is_empty(), "{} needs a title", entry.code);
        assert!(!entry.explain.is_empty(), "{} needs explain text", entry.code);
        let duplicates = entries.iter().filter(|e| e.code == entry.code).count();
        assert_eq!(duplicates, 1, "duplicate catalogue code: {}", entry.code);
    }
}

#[test]
fn lib_plain_text_has_no_diagnostics() {
    assert!(describe_source("hello world").is_empty());
}

#[test]
fn lib_canonical_ruby_has_no_diagnostics() {
    assert!(describe_source("｜日本《にほん》").is_empty());
}

#[test]
fn source_contains_pua_is_an_unnecessary_warning_with_payload() {
    let described = describe_source("abc\u{E001}def");
    let pua = described
        .iter()
        .find(|d| d.code == "aozora::source-contains-pua")
        .expect("PUA warning expected");
    assert!(pua.message.contains("削除"), "msg: {}", pua.message);
    assert!(pua.message.contains("U+E001"), "msg: {}", pua.message);
    assert_eq!(pua.severity, Severity::Warning);
    assert!(pua.unnecessary, "PUA lint should be marked unnecessary");
    assert!(pua.payload.is_some(), "payload should be attached");
}

#[test]
fn lib_unclosed_bracket_message_carries_example_and_close_char() {
    let described = describe_source("本文［＃改ページ");
    let unclosed = described
        .iter()
        .find(|d| d.code == "aozora::unclosed-bracket")
        .expect("UnclosedBracket expected on missing ］");
    assert_eq!(unclosed.severity, Severity::Error);
    assert!(unclosed.message.contains('］'), "{}", unclosed.message);
    assert!(unclosed.message.contains("例:"), "message must include a concrete example: {}", unclosed.message);
    assert!(unclosed.payload.is_some(), "payload required for quick-fix");
}

#[test]
fn lib_unmatched_close_message_lists_three_causes() {
    let described = describe_source("本文 ］");
    let unmatched = described
        .iter()
        .find(|d| d.code == "aozora::unmatched-close")
        .expect("UnmatchedClose expected on stray ］");
    assert!(unmatched.message.contains("削除"), "{}", unmatched.message);
    assert!(unmatched.message.contains("欠けている"), "{}", unmatched.message);
}

#[test]
fn pair_kind_maps_to_serializable_for_every_variant() {
    assert_eq!(SerializablePairKind::from_pair_kind(aozora::PairKind::Bracket), SerializablePairKind::Bracket);
    assert_eq!(SerializablePairKind::from_pair_kind(aozora::PairKind::Ruby), SerializablePairKind::Ruby);
    assert_eq!(SerializablePairKind::from_pair_kind(aozora::PairKind::DoubleRuby), SerializablePairKind::DoubleRuby);
    assert_eq!(SerializablePairKind::from_pair_kind(aozora::PairKind::Tortoise), SerializablePairKind::Tortoise);
    assert_eq!(SerializablePairKind::from_pair_kind(aozora::PairKind::Quote), SerializablePairKind::Quote);
}

#[test]
fn internal_consistency_descriptions_carry_codes_and_severity() {
    let span = Span::new(0, 0);
    let cases = [
        (InternalCheck::ResidualAnnotationMarker, "aozora::residual-annotation-marker", Severity::Warning),
        (InternalCheck::UnregisteredSentinel, "aozora::unregistered-sentinel", Severity::Error),
        (InternalCheck::RegistryOutOfOrder, "aozora::registry-out-of-order", Severity::Error),
        (InternalCheck::RegistryPositionMismatch, "aozora::registry-position-mismatch", Severity::Error),
    ];
    for (check, code, severity) in cases {
        let described = describe(&LexDiagnostic::Internal {
            span,
            check: Some(check),
            rendered: String::from("Internal { .. }"),
        });
        assert_eq!(described.code, code);
        assert_eq!(described.severity, severity);
        assert!(!described.message.is_empty(), "{code} needs a message");
    }
}

#[test]
fn unknown_fallback_describes_any_diagnostic_generically() {
    let doc = aozora::Document::new("abc\u{E001}def");
    let tree = doc.parse();
    let real = tree.diagnostics().first().expect("a diagnostic");
    let described = describe(&LexDiagnostic::Unknown { rendered: format!("{real:?}") });
    assert_eq!(described.code, "aozora::unknown-diagnostic");
    assert!(described.message.contains("未対応"), "{}", described.message);
    assert_eq!(described.span.start, 0);
}

#[test]
fn unclosed_message_is_exact() {
    let d = describe(&LexDiagnostic::UnclosedBracket {
        span: Span::new(6, 9),
        kind: SerializablePairKind::Ruby,
    });
    assert_eq!(
        d.message,
        "閉じられていない `《` があります。\n\nどこかに対応する `》` を必ず置いてください。aozora 記法では一行内で閉じるのが基本です。\n\n例: `｜青空《あおぞら》`"
    );
    assert_eq!(d.span, Span::new(6, 9));
}

#[test]
fn pua_codepoint_is_zero_padded_hex() {
    let d = describe(&LexDiagnostic::SourceContainsPua { span: Span::new(0, 1), codepoint: '\u{7f}' });
    assert!(d.message.starts_with("私用領域文字 `U+007F`"), "{}", d.message);
}

#[test]
fn ordinary_sources_fit_the_lexer() {
    assert!(fits_lexer(""));
    assert!(fits_lexer("本文\n-----\n"));
}

use aozora_tools::diagnostics::{catalogue, lookup, CatalogueEntry};
use aozora_tools::explain::{bare, entry_text, find, levenshtein, list_all_text, nearest, normalize, Found};

fn one(input: &str) -> CatalogueEntry {
    match find(input) {
        Found::One(entry) => entry,
        _ => panic!("expected a unique match for {input}"),
    }
}

#[test]
fn bare_and_namespaced_forms_both_resolve() {
    assert_eq!(one("unclosed-bracket").code, "aozora::unclosed-bracket");
    assert_eq!(one("aozora::unclosed-bracket").code, "aozora::unclosed-bracket");
}

#[test]
fn unique_prefix_resolves() {
    assert_eq!(one("unclosed").code, "aozora::unclosed-bracket");
}

#[test]
fn near_typo_suggests_nearest() {
    match find("unclosed-bracket-x") {
        Found::NoMatch(Some(code)) => assert_eq!(code, "aozora::unclosed-bracket"),
        other => panic!("expected a suggestion, got {:?}", other),
    }
}

#[test]
fn far_garbage_has_no_suggestion() {
    match find("zzzzzzzzzzzzzzzz") {
        Found::NoMatch(None) => {}
        other => panic!("expected no suggestion, got {:?}", other),
    }
}

#[test]
fn levenshtein_basic() {
    assert_eq!(levenshtein("kitten", "sitting"), 3);
    assert_eq!(levenshtein("same", "same"), 0);
}

#[test]
fn list_all_lists_every_code() {
    let text = list_all_text();
    for entry in catalogue() {
        assert!(text.contains(entry.code), "missing {}: {text}", entry.code);
    }
}

#[test]
fn shared_prefix_is_ambiguous() {
    match find("registry") {
        Found::Ambiguous(codes) => assert_eq!(
            codes,
            vec!["aozora::registry-out-of-order", "aozora::registry-position-mismatch"]
        ),
        other => panic!("expected ambiguity, got {:?}", other),
    }
}

#[test]
fn normalize_and_bare_are_inverse_on_bare_codes() {
    assert_eq!(normalize("unclosed-bracket"), "aozora::unclosed-bracket");
    assert_eq!(normalize("other::x"), "other::x");
    assert_eq!(bare("aozora::unclosed-bracket"), "unclosed-bracket");
    assert_eq!(bare("unclosed-bracket"), "unclosed-bracket");
}

#[test]
fn levenshtein_counts_scalar_values() {
    assert_eq!(levenshtein("", "あい"), 2);
    assert_eq!(levenshtein("あいう", "あう"), 1);
    assert_eq!(levenshtein("flaw", "lawn"), 2);
}

#[test]
fn nearest_respects_the_threshold() {
    assert_eq!(nearest("unmatched-closer"), Some("aozora::unmatched-close"));
    assert_eq!(nearest("qqqqqqqqqqqqq"), None);
}

#[test]
fn listing_pads_codes_to_a_column() {
    let text = list_all_text();
    assert!(text.starts_with("診断コード一覧 (詳細は `aozora explain <code>`):\n\n"));
    assert!(text.contains("  aozora::unclosed-bracket               閉じられていない開き括弧\n"), "{text}");
}

#[test]
fn print_entry_includes_title_repro_and_fixed() {
    let entry = lookup("aozora::unclosed-bracket").expect("entry");
    let text = entry_text(&entry, "", "", "", "");
    assert!(text.contains("aozora::unclosed-bracket"), "code: {text}");
    assert!(text.contains(entry.title), "title: {text}");
    assert!(text.contains("問題のある例"), "repro heading: {text}");
    assert!(text.contains(entry.fixed), "fixed form: {text}");
}

#[test]
fn entry_page_wraps_code_and_title_in_their_styles() {
    let entry = lookup("aozora::unclosed-bracket").expect("entry");
    let text = entry_text(&entry, "<c>", "</c>", "<b>", "</b>");
    let expected = format!(
        "<c>{}</c>\n\n<b>{}</b>\n\n{}\n\n  問題のある例:\n    {}\n\n  直した例:\n    {}\n",
        entry.code, entry.title, entry.explain, entry.repro, entry.fixed
    );
    assert_eq!(text, expected);
}

use aozora_tools::diagnostics::describe_source;
use aozora_tools::render_term::{clamp_span, line_col, render, render_quiet, severity_word, split_message};
use aozora_tools::diagnostics::Severity;

#[test]
fn line_col_counts_scalar_values_across_newlines() {
    let source = "あ\nいう";
    assert_eq!(line_col(source, 0), (1, 1));
    assert_eq!(line_col(source, 4), (2, 1));
    assert_eq!(line_col(source, 7), (2, 2));
}

#[test]
fn quiet_form_is_one_line_with_location_and_code() {
    let source = "本文［＃改ページ";
    let diags = describe_source(source);
    let diag = diags.first().expect("a diagnostic");
    let text = render_quiet("本文.afm", source, diag);
    assert_eq!(text.lines().count(), 1, "quiet is one line: {text}");
    assert!(
        text.starts_with("本文.afm:1:3: error[aozora::unclosed-bracket]: "),
        "quiet line shape: {text}",
    );
}

#[test]
fn split_message_trims_the_body() {
    let (title, body) = split_message("head\n\n  body text \n");
    assert_eq!(title, "head");
    assert_eq!(body, "body text");
    let (title, body) = split_message("only");
    assert_eq!(title, "only");
    assert_eq!(body, "");
    let (_, body) = split_message("h\n\u{3000}全角\u{3000}");
    assert_eq!(body, "全角");
}

#[test]
fn clamp_span_keeps_spans_inside_the_source() {
    assert_eq!(clamp_span(2, 5, 10), (2, 5));
    assert_eq!(clamp_span(12, 15, 10), (10, 10));
    assert_eq!(clamp_span(4, 2, 10), (4, 4));
    assert_eq!(clamp_span(0, 0, 0), (0, 0));
}

#[test]
fn severity_words_are_lowercase() {
    assert_eq!(severity_word(Severity::Error), "error");
    assert_eq!(severity_word(Severity::Warning), "warning");
}

#[test]
fn line_col_past_the_end_clamps() {
    assert_eq!(line_col("ab\nc", 99), (2, 2));
    assert_eq!(line_col("あいう", 4), (1, 3));
}

fn plain(text: &str) -> String {
    anstream::adapter::strip_str(text).to_string()
}

#[test]
fn unclosed_bracket_renders_header_caret_code_and_help() {
    let source = "本文［＃改ページ";
    let diags = describe_source(source);
    let diag = diags.first().expect("a diagnostic");
    let text = plain(&render("本文.afm", source, diag));
    assert!(text.contains("error"), "severity word: {text}");
    assert!(text.contains("本文.afm:1:3"), "location header: {text}");
    assert!(text.contains('^'), "caret underline: {text}");
    assert!(text.contains("aozora::unclosed-bracket"), "code note: {text}");
    assert!(
        text.contains("aozora explain aozora::unclosed-bracket"),
        "explain hint: {text}"
    );
}

#[test]
fn full_form_ends_with_a_blank_line() {
    let source = "本文［＃改ページ";
    let diags = describe_source(source);
    let diag = diags.first().expect("a diagnostic");
    let text = render("本文.afm", source, diag);
    assert!(text.ends_with("\n\n"), "trailing blank line: {text:?}");
    assert!(!text.ends_with("\n\n\n"), "exactly one blank line: {text:?}");
}

use aozora_tools::diagnostics::describe_source;
use aozora_tools::lint::{json_one, lint_one, render_diagnostics, tally, Outcome, Scan, Seen};
use aozora_tools::diagnostics::Severity;
use aozora_tools::stats::LintStats;

#[test]
fn outcome_orders_by_severity() {
    assert!(Outcome::Clean < Outcome::Findings);
    assert!(Outcome::Findings < Outcome::Error);
}

#[test]
fn seen_outcome_respects_error_on_warning() {
    let err = Seen { error: true, warning: false };
    let warn = Seen { error: false, warning: true };
    let none = Seen::default();
    assert_eq!(err.outcome(false), Outcome::Findings);
    assert_eq!(warn.outcome(false), Outcome::Clean);
    assert_eq!(warn.outcome(true), Outcome::Findings);
    assert_eq!(none.outcome(true), Outcome::Clean);
}

#[test]
fn clean_source_streams_nothing_and_is_clean() {
    let scan = Scan::Parsed(describe_source("｜日本《にほん》"));
    let mut stats = LintStats::default();
    let outcome = lint_one(&scan, false, &mut stats);
    assert_eq!(outcome, Outcome::Clean);
    assert_eq!(stats.clean, 1);
}

#[test]
fn error_diagnostic_is_findings_and_counted() {
    let scan = Scan::Parsed(describe_source("本文［＃改ページ"));
    let mut stats = LintStats::default();
    let outcome = lint_one(&scan, false, &mut stats);
    assert_eq!(outcome, Outcome::Findings);
    assert_eq!(stats.with_diagnostics, 1);
    assert_eq!(stats.errors, 1);
}

#[test]
fn read_error_source_is_error_outcome() {
    let scan = Scan::Unreadable("No such file".to_owned());
    let mut stats = LintStats::default();
    let outcome = lint_one(&scan, false, &mut stats);
    assert_eq!(outcome, Outcome::Error);
    assert_eq!(stats.errored, 1);
}

#[test]
fn json_one_builds_diagnostics_entry() {
    let content = "本文［＃改ページ";
    let scan = Scan::Parsed(describe_source(content));
    let mut stats = LintStats::default();
    let mut files = Vec::new();
    let outcome = json_one("bad.afm", content, &scan, false, &mut stats, &mut files);
    assert_eq!(outcome, Outcome::Findings);
    assert_eq!(files.len(), 1);
    assert_eq!(files[0].status, "diagnostics");
    assert_eq!(files[0].diagnostics[0].code, "aozora::unclosed-bracket");
    assert_eq!(files[0].diagnostics[0].severity, Severity::Error);
    assert_eq!(files[0].diagnostics[0].start.column, 3);
}

#[test]
fn tally_counts_each_severity() {
    let mut stats = LintStats::default();
    let mut seen = Seen::default();
    tally(Severity::Warning, &mut stats, &mut seen);
    tally(Severity::Warning, &mut stats, &mut seen);
    assert_eq!((stats.errors, stats.warnings), (0, 2));
    assert_eq!(seen, Seen { error: false, warning: true });
}

#[test]
fn worse_keeps_the_most_severe_and_exit_codes_match() {
    assert_eq!(Outcome::Clean.worse(Outcome::Error), Outcome::Error);
    assert_eq!(Outcome::Error.worse(Outcome::Findings), Outcome::Error);
    assert_eq!(Outcome::Clean.exit_code(), 0);
    assert_eq!(Outcome::Findings.exit_code(), 1);
    assert_eq!(Outcome::Error.exit_code(), 2);
}

#[test]
fn panicked_input_is_an_error_entry() {
    let mut stats = LintStats::default();
    let mut files = Vec::new();
    let outcome = json_one("x.afm", "", &Scan::Panicked, false, &mut stats, &mut files);
    assert_eq!(outcome, Outcome::Error);
    assert_eq!(files[0].status, "error");
    assert_eq!(files[0].message.as_deref(), Some("the parser panicked"));
    assert_eq!(stats.errored, 1);
}

#[test]
fn quiet_rendering_gives_one_line_per_diagnostic() {
    let source = "本文［＃改ページ\n「開き";
    let diags = describe_source(source);
    let text = render_diagnostics("a.txt", source, &diags, true);
    assert_eq!(text.lines().count(), diags.len(), "{text}");
    assert!(text.contains("a.txt:1:3: error[aozora::unclosed-bracket]: "), "{text}");
    assert!(text.contains("a.txt:2:1: error[aozora::unclosed-bracket]: "), "{text}");
}

#[test]
fn full_rendering_separates_diagnostics_by_blank_lines() {
    let source = "本文［＃改ページ";
    let diags = describe_source(source);
    let text = render_diagnostics("a.txt", source, &diags, false);
    assert!(text.contains("aozora explain aozora::unclosed-bracket"), "{text}");
    assert!(text.ends_with("\n\n"), "{text:?}");
}

#[test]
fn clean_input_renders_nothing() {
    let text = render_diagnostics("a.txt", "本文", &describe_source("本文"), false);
    assert_eq!(text, "");
}

#[test]
fn lint_outcomes_fold_to_the_most_severe_in_any_order() {
    let all = [Outcome::Clean, Outcome::Findings, Outcome::Error];
    for a in all {
        for b in all {
            assert_eq!(a.worse(b), b.worse(a));
            assert_eq!(a.worse(b), a.max(b));
        }
    }
    assert_eq!(Outcome::Findings.worse(Outcome::Clean).exit_code(), 1);
}

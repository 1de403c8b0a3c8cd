use aozora_tools::fmt::{
    classify_paths, diff_text, DiffStyles, dedup_paths, format_source, hunk_span, is_aozora_source, is_ignored,
    write_decision, Formatted, Outcome, PathsKind, WriteDecision,
};

#[test]
fn path_classification_reads_stdin_for_none_or_a_lone_dash() {
    assert!(matches!(classify_paths(&[]), Ok(PathsKind::Stdin)));
    assert!(matches!(classify_paths(&["-".to_owned()]), Ok(PathsKind::Stdin)));
    assert!(matches!(classify_paths(&["a.afm".to_owned()]), Ok(PathsKind::Files)));
}

#[test]
fn extension_match_is_case_insensitive_and_suffix_aware() {
    assert!(is_aozora_source("chapter.afm"));
    assert!(is_aozora_source("本文.aozora"));
    assert!(is_aozora_source("note.aozora.txt"));
    assert!(is_aozora_source("LOUD.AFM"));
    assert!(!is_aozora_source("plain.txt"));
    assert!(!is_aozora_source("readme.md"));
    assert!(!is_aozora_source("noext"));
}

#[test]
fn formatted_changed_reflects_difference() {
    let same = Formatted { old: "x".to_owned(), new: "x".to_owned() };
    let diff = Formatted { old: "x".to_owned(), new: "y".to_owned() };
    assert!(!same.changed());
    assert!(diff.changed());
}

#[test]
fn empty_input_formats_to_empty() {
    assert_eq!(format_source(""), "");
}

#[test]
fn plain_text_passes_through_unchanged() {
    let input = "hello world\n";
    assert_eq!(format_source(input), input);
}

#[test]
fn format_is_idempotent_on_ruby() {
    let input = "｜青梅《おうめ》へ";
    let once = format_source(input);
    let twice = format_source(&once);
    assert_eq!(once, twice, "second pass must be byte-identical");
}

#[test]
fn format_is_idempotent_on_bouten() {
    let input = "彼は可哀想［＃「可哀想」に傍点］と言った";
    let once = format_source(input);
    let twice = format_source(&once);
    assert_eq!(once, twice);
}

#[test]
fn format_is_idempotent_on_page_break() {
    let input = "前\n［＃改ページ］\n後\n";
    let once = format_source(input);
    let twice = format_source(&once);
    assert_eq!(once, twice);
}

#[test]
fn format_guarded_canonicalises_ruby() {
    let out = format_source("日本《にほん》");
    assert!(out.starts_with('｜'), "explicit delimiter expected: {out:?}");
}

#[test]
fn write_guard_refuses_a_non_idempotent_form() {
    let fmt = Formatted { old: "original".to_owned(), new: "日本《にほん》".to_owned() };
    let again = format_source(&fmt.new);
    assert_eq!(write_decision(&fmt, &again), WriteDecision::NotIdempotent);
    let fmt = Formatted { old: "日本《にほん》".to_owned(), new: format_source("日本《にほん》") };
    let again = format_source(&fmt.new);
    assert_eq!(write_decision(&fmt, &again), WriteDecision::Write);
    let same = Formatted { old: "same".to_owned(), new: "same".to_owned() };
    assert_eq!(write_decision(&same, "anything"), WriteDecision::Unchanged);
}

#[test]
fn ignored_entries_are_target_and_dotted_below_the_root() {
    assert!(is_ignored(1, "target"));
    assert!(is_ignored(2, ".git"));
    assert!(!is_ignored(0, ".hidden"));
    assert!(!is_ignored(1, "src"));
}

#[test]
fn dedup_collapses_adjacent_duplicates() {
    let v = vec!["a".to_owned(), "a".to_owned(), "b".to_owned(), "a".to_owned()];
    assert_eq!(dedup_paths(v), vec!["a".to_owned(), "b".to_owned(), "a".to_owned()]);
    let w = vec!["d/x.afm".to_owned(), "d//x.afm".to_owned(), "d/y.afm".to_owned()];
    assert_eq!(dedup_paths(w), vec!["d/x.afm".to_owned(), "d/y.afm".to_owned()]);
}

#[test]
fn hunk_span_covers_every_op() {
    assert_eq!(hunk_span(&[(2, 4, 3, 5), (4, 7, 5, 6)]), (3, 5, 4, 3));
}

#[test]
fn fmt_outcome_exit_codes() {
    assert_eq!(Outcome::Clean.exit_code(), 0);
    assert_eq!(Outcome::WouldReformat.exit_code(), 1);
    assert_eq!(Outcome::Clean.worse(Outcome::WouldReformat), Outcome::WouldReformat);
}

fn no_styles() -> DiffStyles {
    DiffStyles {
        header_on: String::new(),
        header_off: String::new(),
        meta_on: String::new(),
        meta_off: String::new(),
        del_on: String::new(),
        del_off: String::new(),
        ins_on: String::new(),
        ins_off: String::new(),
    }
}

#[test]
fn diff_of_one_changed_line_is_a_single_hunk() {
    let text = diff_text("f.txt", "a\nb\nc\n", "a\nB\nc\n", &no_styles());
    assert_eq!(
        text,
        "--- f.txt\n+++ f.txt\n@@ -1,3 +1,3 @@\n a\n-b\n+B\n c\n"
    );
}

#[test]
fn diff_of_equal_texts_is_only_the_header() {
    let text = diff_text("<stdin>", "same\n", "same\n", &no_styles());
    assert_eq!(text, "--- <stdin>\n+++ <stdin>\n");
}

#[test]
fn diff_wraps_lines_in_their_styles() {
    let st = DiffStyles {
        header_on: "<h>".to_string(),
        header_off: "</h>".to_string(),
        meta_on: "<m>".to_string(),
        meta_off: "</m>".to_string(),
        del_on: "<d>".to_string(),
        del_off: "</d>".to_string(),
        ins_on: "<i>".to_string(),
        ins_off: "</i>".to_string(),
    };
    let text = diff_text("x", "old\n", "new\n", &st);
    assert_eq!(
        text,
        "<h>--- x</h>\n<h>+++ x</h>\n<m>@@ -1,1 +1,1 @@</m>\n<d>-old</d>\n<i>+new</i>\n"
    );
}

#[test]
fn distant_changes_make_separate_hunks() {
    let old = "1\n2\n3\n4\n5\n6\n7\n8\n9\n10\n11\n12\n";
    let new = "one\n2\n3\n4\n5\n6\n7\n8\n9\n10\n11\ntwelve\n";
    let text = diff_text("n", old, new, &no_styles());
    assert_eq!(text.matches("@@ -").count(), 2, "{text}");
    assert!(text.contains("@@ -1,4 +1,4 @@"), "{text}");
    assert!(text.contains("@@ -9,4 +9,4 @@"), "{text}");
}

#[test]
fn stdout_takes_at_most_one_file() {
    assert_eq!(aozora_tools::fmt::stdout_refusal(0), None);
    assert_eq!(aozora_tools::fmt::stdout_refusal(1), None);
    assert_eq!(
        aozora_tools::fmt::stdout_refusal(3).as_deref(),
        Some("refusing to write 3 files to stdout; use --write, --check, or --list")
    );
}

#[test]
fn outcomes_fold_to_the_most_severe_in_any_order() {
    let all = [Outcome::Clean, Outcome::WouldReformat, Outcome::Error];
    for a in all {
        for b in all {
            assert_eq!(a.worse(b), b.worse(a));
            assert_eq!(a.worse(b), a.max(b));
        }
    }
    let forward = all.iter().fold(Outcome::Clean, |acc, o| acc.worse(*o));
    let backward = all.iter().rev().fold(Outcome::Clean, |acc, o| acc.worse(*o));
    assert_eq!(forward, Outcome::Error);
    assert_eq!(backward, Outcome::Error);
}

use aozora_tools::doc_state::DocBuffer;
use aozora_tools::lsp_diagnostics::DiagnosticSeverity;
use aozora_tools::lsp_sync::{
    after_parse, change_action, completion_trigger_characters, lsp_change_to_edit, oversize_notice, publish_step,
    AfterParse, ChangeAction,
    PublishStep,
};
use aozora_tools::parse_cache::{ParseCache, MAX_DOCUMENT_BYTES};
use aozora_tools::position::{Position, Range};
use aozora_tools::text_edit::LocalTextEdit;

struct Change {
    range: Option<Range>,
    text: String,
}

fn synth_change(range: Option<Range>, text: &str) -> Change {
    Change { range, text: text.to_owned() }
}

/// Replay a batch the way the server does: each change against the text
/// left by the ones before it.
fn replay_lsp_changes(initial: &str, changes: &[Change]) -> String {
    let mut doc = DocBuffer::new(initial.to_owned());
    for change in changes {
        match change_action(doc.text(), change.range, &change.text) {
            ChangeAction::Edit(edit) => {
                let _ = doc.apply_changes(std::slice::from_ref(&edit));
            }
            ChangeAction::Replace(text) => {
                doc.replace_text(text);
            }
            ChangeAction::Skip => {}
        }
    }
    doc.text().to_owned()
}

#[test]
fn lsp_change_to_edit_returns_none_for_full_replacement() {
    assert!(lsp_change_to_edit("anything", None, "new text").is_none());
}

#[test]
fn lsp_change_to_edit_handles_basic_range() {
    let source = "hello world";
    let edit = lsp_change_to_edit(source, Some(Range::new(Position::new(0, 6), Position::new(0, 11))), "rust")
        .expect("convert");
    assert_eq!(edit.range, 6..11);
    assert_eq!(edit.new_text, "rust");
}

#[test]
fn lsp_change_to_edit_handles_multibyte_position() {
    let source = "あいう";
    let edit =
        lsp_change_to_edit(source, Some(Range::new(Position::new(0, 1), Position::new(0, 2))), "X").expect("convert");
    assert_eq!(edit.range, 3..6);
    assert_eq!(edit.new_text, "X");
}

#[test]
fn lsp_change_to_edit_rejects_inverted_range() {
    assert!(lsp_change_to_edit("hello world", Some(Range::new(Position::new(0, 5), Position::new(0, 2))), "x").is_none());
}

#[test]
fn lsp_change_to_edit_handles_pure_deletion() {
    let source = "abcdef";
    let edit =
        lsp_change_to_edit(source, Some(Range::new(Position::new(0, 2), Position::new(0, 4))), "").expect("convert");
    assert_eq!(edit.range, 2..4);
    assert_eq!(edit.new_text, "");
}

#[test]
fn doc_state_apply_changes_updates_text() {
    let mut doc = DocBuffer::new("hello world".to_owned());
    doc.apply_changes(&[LocalTextEdit::new(6..11, "rust".to_owned())]);
    assert_eq!(doc.text(), "hello rust");
}

#[test]
fn doc_state_apply_changes_rejects_invalid_edit_keeps_text() {
    let mut doc = DocBuffer::new("hi".to_owned());
    let result = doc.apply_changes(&[LocalTextEdit::new(0..99, "x".to_owned())]);
    assert!(result.is_none(), "out-of-bounds edit must be rejected");
    assert_eq!(doc.text(), "hi");
}

#[test]
fn doc_state_apply_changes_rejects_non_char_boundary_edit() {
    let mut doc = DocBuffer::new("あ".to_owned());
    let result = doc.apply_changes(&[LocalTextEdit::new(1..2, "x".to_owned())]);
    assert!(result.is_none(), "cross-boundary edit must be rejected");
    assert_eq!(doc.text(), "あ", "non-boundary edit must be rejected");
}

#[test]
fn doc_state_replace_text_updates_buffer() {
    let mut doc = DocBuffer::new("hello".to_owned());
    doc.replace_text("｜青梅《おうめ》".to_owned());
    assert_eq!(doc.text(), "｜青梅《おうめ》");
}

#[test]
fn two_events_in_one_batch_apply_in_source_order() {
    let changes = vec![
        synth_change(Some(Range::new(Position::new(0, 1), Position::new(0, 2))), "BB"),
        synth_change(Some(Range::new(Position::new(0, 4), Position::new(0, 5))), "DD"),
    ];
    assert_eq!(replay_lsp_changes("abcdef", &changes), "aBBcDDef");
}

#[test]
fn full_replacement_after_incremental_in_same_batch_wins() {
    let changes = vec![
        synth_change(Some(Range::new(Position::new(0, 0), Position::new(0, 0))), "PREFIX:"),
        synth_change(None, "FRESH"),
    ];
    assert_eq!(replay_lsp_changes("old text", &changes), "FRESH");
}

#[test]
fn pua_collision_edit_surfaces_diagnostic() {
    let mut doc = DocBuffer::new("plain".to_owned());
    doc.apply_changes(&[LocalTextEdit::new(0..0, "\u{E001}".to_owned())]);
    let mut cache = ParseCache::default();
    let _ = cache.reparse(doc.text());
    assert!(!cache.diagnostics().is_empty(), "PUA injection must produce diagnostics; got {:?}", cache.diagnostics());
}

#[test]
fn sequence_of_incremental_edits_converges_to_full_text() {
    let mut doc = DocBuffer::new(String::new());
    for (i, ch) in "hello world".chars().enumerate() {
        doc.apply_changes(&[LocalTextEdit::new(i..i, ch.to_string())]);
    }
    assert_eq!(doc.text(), "hello world");
}

#[test]
fn multi_change_batch_resolves_against_post_prior_change_text() {
    let changes = vec![
        synth_change(Some(Range::new(Position::new(0, 0), Position::new(0, 0))), "X"),
        synth_change(Some(Range::new(Position::new(0, 4), Position::new(0, 4))), "Y"),
    ];
    assert_eq!(replay_lsp_changes("abc", &changes), "XabcY");
}

#[test]
fn multi_change_batch_dependent_offsets_round_trip_via_doc_state() {
    let changes = vec![
        synth_change(Some(Range::new(Position::new(0, 0), Position::new(0, 0))), "｜"),
        synth_change(Some(Range::new(Position::new(0, 1), Position::new(0, 1))), "X"),
    ];
    assert_eq!(replay_lsp_changes("本文", &changes), "｜X本文");
}

#[test]
fn unresolvable_ranges_are_skipped() {
    let changes = vec![synth_change(Some(Range::new(Position::new(3, 0), Position::new(3, 1))), "Z")];
    assert_eq!(replay_lsp_changes("abc", &changes), "abc");
}

#[test]
fn publish_waits_for_the_latest_version_and_guards_size() {
    assert_eq!(publish_step(3, 2, 10), PublishStep::Stale);
    assert_eq!(publish_step(3, 3, MAX_DOCUMENT_BYTES + 1), PublishStep::Oversize);
    assert_eq!(publish_step(3, 3, MAX_DOCUMENT_BYTES), PublishStep::Parse);
}

#[test]
fn oversize_notice_is_an_anchored_information() {
    let d = oversize_notice(32 * 1024 * 1024);
    assert_eq!(d.range, Range::new(Position::new(0, 0), Position::new(0, 0)));
    assert_eq!(d.severity, Some(DiagnosticSeverity::Information));
    assert_eq!(d.source.as_deref(), Some("aozora-lsp"));
    assert!(d.message.starts_with("This document is 32 MiB, above the 16 MiB limit for full analysis."), "{}", d.message);
}

#[test]
fn completion_triggers_cover_every_surface() {
    let t = completion_trigger_characters();
    assert_eq!(t, vec!["＃", "#", "「", "[", "]", "<", ">", "|", "*", "｜", "《", "※"]);
}

#[test]
fn after_the_parse_only_the_scheduled_version_installs_and_publishes() {
    assert_eq!(after_parse(4, 4), AfterParse::InstallThenPublish);
    assert_eq!(after_parse(5, 4), AfterParse::Drop);
    assert_eq!(after_parse(3, 4), AfterParse::Drop);
}

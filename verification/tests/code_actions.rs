use aozora_tools::code_actions::{quick_fix_actions, wrap_selection_actions, CodeAction, CodeActionKind};
use aozora_tools::diagnostics::{DiagnosticPayload, SerializablePairKind};
use aozora_tools::line_index::LineIndex;
use aozora_tools::lsp_diagnostics::LspDiagnostic;
use aozora_tools::position::{Position, Range};

fn fake_uri() -> &'static str {
    "file:///fake.afm"
}

fn texts(action: &CodeAction) -> Vec<String> {
    action.edit.as_ref().unwrap().changes[0].1.iter().map(|e| e.new_text.clone()).collect()
}

fn extract_change_count(action: &CodeAction) -> usize {
    action.edit.as_ref().and_then(|e| e.changes.first()).map_or(0, |c| c.1.len())
}

#[test]
fn empty_selection_yields_no_actions() {
    let zero = Range::new(Position::new(0, 0), Position::new(0, 0));
    assert!(wrap_selection_actions("hello", &LineIndex::new("hello"), fake_uri(), zero).is_empty());
}

#[test]
fn nonempty_selection_returns_full_menu() {
    let src = "青空";
    let sel = Range::new(Position::new(0, 0), Position::new(0, 2));
    let actions = wrap_selection_actions(src, &LineIndex::new(src), fake_uri(), sel);
    assert_eq!(actions.len(), 6, "expected 6 wrap actions, got {actions:?}");
}

#[test]
fn every_wrap_action_inserts_at_least_one_edit() {
    let src = "青空";
    let sel = Range::new(Position::new(0, 0), Position::new(0, 2));
    let actions = wrap_selection_actions(src, &LineIndex::new(src), fake_uri(), sel);
    for action in &actions {
        assert!(extract_change_count(action) >= 1);
    }
}

#[test]
fn ruby_wrap_inserts_pipe_before_and_brackets_after() {
    let src = "青空";
    let sel = Range::new(Position::new(0, 0), Position::new(0, 2));
    let actions = wrap_selection_actions(src, &LineIndex::new(src), fake_uri(), sel);
    assert_eq!(texts(&actions[0]), vec!["｜", "《》"]);
}

#[test]
fn double_ruby_wrap_uses_double_brackets() {
    let src = "青空";
    let sel = Range::new(Position::new(0, 0), Position::new(0, 2));
    let actions = wrap_selection_actions(src, &LineIndex::new(src), fake_uri(), sel);
    assert_eq!(texts(&actions[1]), vec!["｜", "《《》》"]);
}

#[test]
fn forward_bouten_carries_selected_text() {
    let src = "青空";
    let sel = Range::new(Position::new(0, 0), Position::new(0, 2));
    let actions = wrap_selection_actions(src, &LineIndex::new(src), fake_uri(), sel);
    let bouten = actions.last().expect("bouten last");
    assert_eq!(texts(bouten)[0], "［＃「青空」に傍点］");
}

fn diag(range: Range, data: Option<DiagnosticPayload>) -> LspDiagnostic {
    LspDiagnostic { range, severity: None, code: None, source: None, message: "m".to_owned(), tags: None, data }
}

#[test]
fn quick_fixes_follow_each_payload() {
    let r = Range::new(Position::new(0, 2), Position::new(0, 3));
    let diags = vec![
        diag(r, Some(DiagnosticPayload::UnclosedBracket { pair_kind: SerializablePairKind::Bracket, expected_close: "］".to_owned() })),
        diag(r, None),
        diag(r, Some(DiagnosticPayload::ResidualAnnotationMarker)),
        diag(r, Some(DiagnosticPayload::UnmatchedClose { pair_kind: SerializablePairKind::Ruby })),
        diag(r, Some(DiagnosticPayload::SourceContainsPua { codepoint: 0xE001 })),
    ];
    let fixes = quick_fix_actions(fake_uri(), &diags);
    assert_eq!(fixes.len(), 3);
    assert_eq!(fixes[0].title, "`］` を補って閉じる (［ ペア)");
    assert_eq!(fixes[0].edit.as_ref().unwrap().changes[0].1[0].range, Range::new(r.end, r.end));
    assert_eq!(texts(&fixes[0]), vec!["］"]);
    assert_eq!(fixes[1].title, "対応のない `》` を削除する");
    assert_eq!(texts(&fixes[1]), vec![""]);
    assert_eq!(fixes[2].title, "私用領域文字 U+E001 を削除する");
    for f in &fixes {
        assert_eq!(f.kind, Some(CodeActionKind::QuickFix));
        assert_eq!(f.is_preferred, Some(true));
        assert_eq!(f.diagnostics.as_ref().unwrap().len(), 1);
    }
}

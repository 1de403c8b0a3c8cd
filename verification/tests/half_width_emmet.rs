use aozora_tools::completion::InsertTextFormat;
use aozora_tools::half_width_emmet::emmet_completions;
use aozora_tools::position::{byte_offset_to_position, Position};

fn pos(line: u32, col: u32) -> Position {
    Position::new(line, col)
}

fn first_label(source: &str, position: Position) -> Option<String> {
    let items = emmet_completions(source, position);
    items.into_iter().next().map(|it| it.label)
}

#[test]
fn empty_source_yields_nothing() {
    assert!(emmet_completions("", pos(0, 0)).is_empty());
}

#[test]
fn left_bracket_triggers_full_width_left_bracket() {
    assert_eq!(first_label("[", pos(0, 1)).as_deref(), Some("［"));
}

#[test]
fn right_bracket_triggers_full_width_right_bracket() {
    assert_eq!(first_label("]", pos(0, 1)).as_deref(), Some("］"));
}

#[test]
fn single_left_angle_triggers_ruby_open_pair() {
    assert_eq!(first_label("<", pos(0, 1)).as_deref(), Some("《...》"));
}

#[test]
fn single_right_angle_triggers_ruby_close() {
    assert_eq!(first_label(">", pos(0, 1)).as_deref(), Some("》"));
}

#[test]
fn pipe_triggers_ruby_base_marker() {
    assert_eq!(first_label("|", pos(0, 1)).as_deref(), Some("｜"));
}

#[test]
fn ruby_pair_text_edit_range_covers_typed_angle() {
    let items = emmet_completions("<", pos(0, 1));
    let item = items.first().expect("expected one item");
    let edit = item.text_edit.as_ref().expect("text_edit must be set so VS Code replaces the prefix");
    assert_eq!(edit.range.start, pos(0, 0));
    assert_eq!(edit.range.end, pos(0, 1));
    assert_eq!(edit.new_text, "《${0}》");
    assert_eq!(item.insert_text_format, Some(InsertTextFormat::Snippet));
}

#[test]
fn left_bracket_inside_slug_context_yields_no_emmet() {
    let src = "前置きの本文 [#";
    let cursor = src.len();
    let position = byte_offset_to_position(src, cursor);
    assert!(emmet_completions(src, position).is_empty());
}

#[test]
fn pipe_inserts_full_width_pipe_with_no_snippet() {
    let items = emmet_completions("|", pos(0, 1));
    let item = items.first().expect("expected one item");
    let edit = item.text_edit.as_ref().unwrap();
    assert_eq!(edit.new_text, "｜");
    assert_eq!(item.insert_text_format, Some(InsertTextFormat::PlainText));
}

#[test]
fn long_text_with_pipe_at_end_still_triggers() {
    let src = "本文の途中で|";
    let cursor = src.len();
    let position = byte_offset_to_position(src, cursor);
    assert_eq!(first_label(src, position).as_deref(), Some("｜"));
}

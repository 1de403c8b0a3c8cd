use aozora_tools::completion::InsertTextFormat;
use aozora_tools::position::{byte_offset_to_position, Position};
use aozora_tools::structured_snippets::{hash_wrap_completions, snippet_completions};

fn pos_at(source: &str, byte: usize) -> Position {
    byte_offset_to_position(source, byte)
}

#[test]
fn hash_typed_alone_emits_empty_wrap_first() {
    let src = "#";
    let items = snippet_completions(src, pos_at(src, src.len()));
    assert!(!items.is_empty(), "must emit at least the empty wrap");
    let first = &items[0];
    assert_eq!(first.label, "［＃］");
    assert_eq!(first.filter_text.as_deref(), Some("#"));
    assert_eq!(first.sort_text.as_deref(), Some("00"));
    let edit = first.text_edit.as_ref().unwrap();
    assert_eq!(edit.new_text, "［＃${0}］");
    assert_eq!(first.insert_text_format, Some(InsertTextFormat::Snippet));
    assert_eq!(first.preselect, Some(true));
}

#[test]
fn hash_typed_alone_also_emits_catalogue_entries() {
    let src = "#";
    let items = snippet_completions(src, pos_at(src, src.len()));
    let kaipage = items.iter().find(|i| i.label == "［＃改ページ］").expect("改ページ in catalogue items");
    assert_eq!(kaipage.filter_text.as_deref(), Some("#改ページ"));
    let edit = kaipage.text_edit.as_ref().unwrap();
    assert_eq!(edit.new_text, "［＃改ページ］");
}

#[test]
fn hash_inside_existing_opener_yields_no_wrap() {
    for src in ["[#", "［#"] {
        let items = snippet_completions(src, pos_at(src, src.len()));
        assert!(items.is_empty(), "no wrap for `{src}` (slug catalogue owns this case): {items:?}");
    }
}

#[test]
fn pipe_typed_alone_emits_ruby_snippet() {
    let src = "本文｜";
    let items = snippet_completions(src, pos_at(src, src.len()));
    assert_eq!(items.len(), 1);
    let item = &items[0];
    assert_eq!(item.filter_text.as_deref(), Some("｜"));
    let edit = item.text_edit.as_ref().unwrap();
    assert_eq!(edit.new_text, "${1:base}《${2:reading}》");
    assert_eq!(item.insert_text_format, Some(InsertTextFormat::Snippet));
}

#[test]
fn pipe_inside_existing_ruby_yields_no_snippet() {
    let src = "｜太郎《たろう》";
    let cursor = "｜".len();
    let items = snippet_completions(src, pos_at(src, cursor));
    assert!(items.is_empty(), "{items:?}");
}

#[test]
fn open_angle_typed_alone_emits_reading_snippet() {
    let src = "太郎《";
    let items = snippet_completions(src, pos_at(src, src.len()));
    assert_eq!(items.len(), 1);
    let item = &items[0];
    let edit = item.text_edit.as_ref().unwrap();
    assert_eq!(edit.new_text, "${1:reading}》");
}

#[test]
fn open_angle_with_close_ahead_yields_no_snippet() {
    let src = "太郎《たろう》";
    let cursor = "太郎《".len();
    let items = snippet_completions(src, pos_at(src, cursor));
    assert!(items.is_empty(), "{items:?}");
}

#[test]
fn kome_typed_alone_emits_gaiji_skeleton() {
    let src = "本文※";
    let items = snippet_completions(src, pos_at(src, src.len()));
    assert_eq!(items.len(), 1);
    let item = &items[0];
    let edit = item.text_edit.as_ref().unwrap();
    assert_eq!(edit.new_text, "［＃「${1:description}」、${2:mencode}］${0}");
}

#[test]
fn kome_with_close_bracket_ahead_yields_no_snippet() {
    let src = "※［＃「foo」、X］";
    let cursor = "※".len();
    let items = snippet_completions(src, pos_at(src, cursor));
    assert!(items.is_empty(), "{items:?}");
}

#[test]
fn unrelated_text_emits_nothing() {
    let src = "ただの文章";
    let items = snippet_completions(src, pos_at(src, src.len()));
    assert!(items.is_empty(), "{items:?}");
}

#[test]
fn empty_source_emits_nothing() {
    assert!(snippet_completions("", pos_at("", 0)).is_empty());
}

#[test]
fn hash_after_japanese_text_still_fires_wrap() {
    let src = "本文の途中で#";
    let items = snippet_completions(src, pos_at(src, src.len()));
    assert!(!items.is_empty());
    assert_eq!(items[0].label, "［＃］");
}

#[test]
fn hash_wrap_offers_nothing_off_the_text_or_inside_a_char() {
    let source = "本#";
    assert!(!hash_wrap_completions(source, source.len()).is_empty());
    assert!(hash_wrap_completions(source, source.len() + 1).is_empty());
    assert!(hash_wrap_completions(source, 1).is_empty());
}

use aozora_tools::completion::{completion_at, InsertTextFormat};
use aozora_tools::position::byte_offset_to_position;

#[test]
fn completion_inside_full_width_open_returns_full_catalogue() {
    let src = "前文［＃";
    let pos = byte_offset_to_position(src, src.len());
    let items = completion_at(src, pos);
    assert!(!items.is_empty(), "expected catalogue suggestions");
    assert!(items.iter().any(|i| i.label == "改ページ"), "expected 改ページ in completions");
}

#[test]
fn completion_inside_half_width_open_returns_full_catalogue() {
    let src = "[#";
    let pos = byte_offset_to_position(src, src.len());
    let items = completion_at(src, pos);
    assert!(!items.is_empty(), "[# must trigger completions too");
    assert!(
        items.iter().all(|i| i.detail.as_deref().unwrap_or("").contains("半角→全角")),
        "half-width hint missing in detail",
    );
}

#[test]
fn half_width_completion_replaces_prefix_with_full_width_form() {
    let src = "[#";
    let pos = byte_offset_to_position(src, src.len());
    let items = completion_at(src, pos);
    let entry = items.iter().find(|i| i.label == "改ページ").expect("改ページ in completions");
    let edit = entry.text_edit.as_ref().expect("text_edit present for half-width completion");
    assert_eq!(edit.new_text, "［＃改ページ］");
}

#[test]
fn half_width_completion_with_existing_close_replaces_through_close() {
    let src = "[#bouten]";
    let pos = byte_offset_to_position(src, "[#bouten".len());
    let items = completion_at(src, pos);
    let entry = items.iter().find(|i| i.label == "改ページ").expect("改ページ in completions");
    let edit = entry.text_edit.as_ref().unwrap();
    assert_eq!(edit.new_text, "［＃改ページ］");
    assert_eq!(edit.range.start, byte_offset_to_position(src, 0));
    assert_eq!(edit.range.end, byte_offset_to_position(src, src.len()));
}

#[test]
fn full_width_completion_keeps_brackets_in_place() {
    let src = "［＃改］";
    let pos = byte_offset_to_position(src, "［＃".len() + "改".len());
    let items = completion_at(src, pos);
    let entry = items.iter().find(|i| i.label == "改ページ").expect("改ページ in completions");
    let edit = entry.text_edit.as_ref().unwrap();
    assert_eq!(edit.new_text, "改ページ");
    let expected_start_byte = "［＃".len();
    let expected_end_byte = "［＃改".len();
    assert_eq!(edit.range.start, byte_offset_to_position(src, expected_start_byte));
    assert_eq!(edit.range.end, byte_offset_to_position(src, expected_end_byte));
}

#[test]
fn full_width_completion_on_empty_pair_inserts_body_only() {
    let src = "［＃］";
    let pos = byte_offset_to_position(src, "［＃".len());
    let items = completion_at(src, pos);
    let entry = items
        .iter()
        .find(|i| i.label == "ここから{N}字下げ")
        .expect("ここから{N}字下げ in completions");
    let edit = entry.text_edit.as_ref().unwrap();
    assert!(edit.new_text.starts_with("ここから${1:"), "expected snippet form, got {:?}", edit.new_text);
    assert!(edit.new_text.ends_with("字下げ"));
    assert!(!edit.new_text.contains('］'), "new_text must be body-only, got {:?}", edit.new_text);
    let cursor_byte = "［＃".len();
    assert_eq!(edit.range.start, byte_offset_to_position(src, cursor_byte));
    assert_eq!(edit.range.end, byte_offset_to_position(src, cursor_byte));
}

#[test]
fn completion_in_plain_text_returns_empty() {
    let src = "no annotation context";
    let pos = byte_offset_to_position(src, 4);
    assert!(completion_at(src, pos).is_empty());
}

#[test]
fn half_width_completion_carries_filter_text_with_opener_prefix() {
    let src = "[#";
    let pos = byte_offset_to_position(src, src.len());
    let items = completion_at(src, pos);
    let entry = items.iter().find(|i| i.label == "改ページ").expect("改ページ in completions");
    assert_eq!(entry.filter_text.as_deref(), Some("[#改ページ"));
}

#[test]
fn full_width_completion_carries_filter_text_with_full_width_opener() {
    let src = "［＃";
    let pos = byte_offset_to_position(src, src.len());
    let items = completion_at(src, pos);
    let entry = items.iter().find(|i| i.label == "改ページ").expect("改ページ in completions");
    assert_eq!(entry.filter_text.as_deref(), Some("［＃改ページ"));
}

#[test]
fn mixed_opener_full_bracket_half_hash_fires_catalogue() {
    let src = "［#";
    let pos = byte_offset_to_position(src, src.len());
    let items = completion_at(src, pos);
    assert!(!items.is_empty(), "［# (mixed) must trigger completions");
    let entry = items.iter().find(|i| i.label == "改ページ").expect("改ページ in completions");
    assert_eq!(entry.filter_text.as_deref(), Some("［#改ページ"));
}

#[test]
fn mixed_opener_half_bracket_full_hash_fires_catalogue() {
    let src = "[＃";
    let pos = byte_offset_to_position(src, src.len());
    let items = completion_at(src, pos);
    assert!(!items.is_empty(), "[＃ (mixed) must trigger completions");
    let entry = items.iter().find(|i| i.label == "改ページ").expect("改ページ in completions");
    assert_eq!(entry.filter_text.as_deref(), Some("[＃改ページ"));
}

#[test]
fn mixed_opener_completion_emits_canonical_full_width_form() {
    for src in ["［#", "[＃", "[#"] {
        let pos = byte_offset_to_position(src, src.len());
        let items = completion_at(src, pos);
        let entry = items
            .iter()
            .find(|i| i.label == "改ページ")
            .unwrap_or_else(|| panic!("改ページ in completions for opener {src}"));
        let edit = entry.text_edit.as_ref().unwrap();
        assert_eq!(edit.new_text, "［＃改ページ］", "non-canonical splice for opener {src}");
    }
}

#[test]
fn completion_after_closed_full_width_bracket_returns_empty() {
    let src = "前［＃改ページ］後";
    let pos = byte_offset_to_position(src, src.len());
    assert!(completion_at(src, pos).is_empty());
}

#[test]
fn block_container_open_attaches_partner_close() {
    let src = "本文\n［＃";
    let pos = byte_offset_to_position(src, src.len());
    let items = completion_at(src, pos);
    let entry = items.iter().find(|i| i.label == "ここから字下げ").expect("ここから字下げ in suggestions");
    let edits = entry.additional_text_edits.as_ref().expect("partner edit attached");
    assert_eq!(edits.len(), 1);
    assert!(edits[0].new_text.contains("ここで字下げ終わり"), "partner close text: {}", edits[0].new_text);
}

#[test]
fn parametric_slug_emits_snippet_with_tabstop() {
    let src = "［＃";
    let pos = byte_offset_to_position(src, src.len());
    let items = completion_at(src, pos);
    let entry = items.iter().find(|i| i.label == "{N}字下げ").expect("{N}字下げ in suggestions");
    assert_eq!(entry.insert_text_format, Some(InsertTextFormat::Snippet));
    let edit = entry.text_edit.as_ref().unwrap();
    assert!(edit.new_text.contains("${1:"), "snippet missing tabstop: {:?}", edit.new_text);
}

use aozora_tools::formatting::format_edits;
use aozora_tools::position::{byte_offset_to_position, Position};

#[test]
fn canonical_input_produces_no_edits() {
    assert!(format_edits("｜日本《にほん》").is_empty());
}

#[test]
fn non_canonical_ruby_produces_one_replace_edit() {
    let src = "日本《にほん》";
    let edits = format_edits(src);
    assert_eq!(edits.len(), 1);
    assert_eq!(edits[0].range.start, Position::new(0, 0));
    assert!(edits[0].new_text.starts_with('｜'));
}

#[test]
fn empty_source_produces_no_edits() {
    assert!(format_edits("").is_empty());
}

#[test]
fn replacement_spans_the_whole_document() {
    let src = "前\n日本《にほん》";
    let edits = format_edits(src);
    assert_eq!(edits[0].range.end, byte_offset_to_position(src, src.len()));
}

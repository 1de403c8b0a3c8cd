use aozora_tools::text_edit::{apply_edits, EditError, LocalTextEdit};
use std::ops::Range;

#[test]
fn empty_edits_returns_source_unchanged() {
    let src = "hello, world";
    assert_eq!(apply_edits(src, &[]).unwrap(), src);
}

#[test]
fn single_replacement() {
    let src = "hello, world";
    let edit = LocalTextEdit::new(7..12, "rust".to_owned());
    assert_eq!(apply_edits(src, &[edit]).unwrap(), "hello, rust");
}

#[test]
fn pure_insertion() {
    let src = "abcdef";
    let edit = LocalTextEdit::new(3..3, "_X_".to_owned());
    assert_eq!(apply_edits(src, &[edit]).unwrap(), "abc_X_def");
}

#[test]
fn pure_deletion() {
    let src = "abcdef";
    let edit = LocalTextEdit::new(2..4, String::new());
    assert_eq!(apply_edits(src, &[edit]).unwrap(), "abef");
}

#[test]
fn multiple_sorted_edits_compose() {
    let src = "AAAA BBBB CCCC";
    let edits = vec![
        LocalTextEdit::new(0..4, "aa".to_owned()),
        LocalTextEdit::new(5..9, "bb".to_owned()),
        LocalTextEdit::new(10..14, "cc".to_owned()),
    ];
    assert_eq!(apply_edits(src, &edits).unwrap(), "aa bb cc");
}

#[test]
fn overlapping_edits_fail() {
    let src = "AAAA BBBB";
    let edits = vec![
        LocalTextEdit::new(0..5, "x".to_owned()),
        LocalTextEdit::new(3..7, "y".to_owned()),
    ];
    let err = apply_edits(src, &edits).unwrap_err();
    assert!(matches!(err, EditError::UnsortedOrOverlapping { .. }));
}

#[test]
fn out_of_bounds_fail() {
    let err = apply_edits("abc", &[LocalTextEdit::new(0..99, String::new())]).unwrap_err();
    assert!(matches!(err, EditError::OutOfBounds { .. }));
}

#[test]
fn cross_char_boundary_fail() {
    let err = apply_edits("あ", &[LocalTextEdit::new(1..2, String::new())]).unwrap_err();
    assert!(matches!(err, EditError::NonCharBoundary { .. }));
}

#[test]
fn inverted_range_fail() {
    let edit = LocalTextEdit {
        range: Range { start: 5, end: 2 },
        new_text: String::new(),
    };
    let err = apply_edits("hello", &[edit]).unwrap_err();
    assert!(matches!(err, EditError::InvertedRange { .. }));
}

#[test]
fn multibyte_replacement_at_char_boundary() {
    let src = "あいう";
    let edit = LocalTextEdit::new(0..3, "い".to_owned());
    assert_eq!(apply_edits(src, &[edit]).unwrap(), "いいう");
}

#[test]
fn empty_range_at_eof_appends() {
    let src = "abc";
    let edit = LocalTextEdit::new(3..3, "DEF".to_owned());
    assert_eq!(apply_edits(src, &[edit]).unwrap(), "abcDEF");
}

#[test]
fn two_inserts_at_same_offset_apply_in_source_order() {
    let src = "X";
    let edits = vec![
        LocalTextEdit::new(0..0, "a".to_owned()),
        LocalTextEdit::new(0..0, "b".to_owned()),
    ];
    assert_eq!(apply_edits(src, &edits).unwrap(), "abX");
}

#[test]
fn adjacent_edits_compose() {
    let src = "ABCD";
    let edits = vec![
        LocalTextEdit::new(0..2, "x".to_owned()),
        LocalTextEdit::new(2..4, "y".to_owned()),
    ];
    assert_eq!(apply_edits(src, &edits).unwrap(), "xy");
}

#[test]
fn multibyte_replacement_at_start_preserves_tail() {
    let src = "あいう";
    let edit = LocalTextEdit::new(0..3, "X".to_owned());
    assert_eq!(apply_edits(src, &[edit]).unwrap(), "Xいう");
}

#[test]
fn delete_then_insert_in_separate_edits_produces_expected_text() {
    let src = "ABCDEF";
    let edits = vec![
        LocalTextEdit::new(0..2, String::new()),
        LocalTextEdit::new(4..4, "XYZ".to_owned()),
    ];
    assert_eq!(apply_edits(src, &edits).unwrap(), "CDXYZEF");
}

#[test]
fn error_carries_the_offending_range() {
    let err = apply_edits("abc", &[LocalTextEdit::new(1..9, String::new())]).unwrap_err();
    assert_eq!(err, EditError::OutOfBounds { start: 1, end: 9, source_len: 3 });
    let err = apply_edits(
        "AAAA",
        &[LocalTextEdit::new(0..3, String::new()), LocalTextEdit::new(2..4, String::new())],
    )
    .unwrap_err();
    assert_eq!(err, EditError::UnsortedOrOverlapping { prev_end: 3, next_start: 2 });
}

#[test]
fn failed_batch_is_all_or_nothing() {
    let edits = vec![
        LocalTextEdit::new(0..1, "Z".to_owned()),
        LocalTextEdit::new(5..2, String::new()),
    ];
    assert!(matches!(
        apply_edits("hello", &edits),
        Err(EditError::InvertedRange { start: 5, end: 2 })
    ));
}

#[test]
fn edit_putting_back_the_same_bytes_returns_source_unchanged() {
    let source = "本文、hello";
    let edits = [LocalTextEdit::new(0..3, "本".to_owned()), LocalTextEdit::new(9..14, "hello".to_owned())];
    assert_eq!(apply_edits(source, &edits), Ok(source.to_owned()));
}

use aozora_tools::doc_state::{input_edit, install_if_newer, DocBuffer, InputEdit};
use aozora_tools::text_edit::LocalTextEdit;

#[test]
fn accepted_batch_bumps_version_and_logs_its_edits() {
    let mut doc = DocBuffer::new("hello".to_owned());
    let v = doc.apply_changes(&[LocalTextEdit::new(5..5, " world".to_owned())]).expect("valid edit");
    assert_eq!(v, 1);
    assert_eq!(doc.edit_version(), 1);
    assert_eq!(doc.text(), "hello world");
    assert_eq!(doc.edits_between(0, 1), vec![input_edit(5, 5, 11)]);
}

#[test]
fn replacement_bumps_version_and_clears_the_log() {
    let mut doc = DocBuffer::new("hello".to_owned());
    doc.apply_changes(&[LocalTextEdit::new(0..1, "j".to_owned())]).unwrap();
    let v = doc.replace_text("world".to_owned());
    assert_eq!(v, 2);
    assert_eq!(doc.text(), "world");
    assert!(doc.edits_between(0, 2).is_empty());
}

#[test]
fn rejected_batch_leaves_text_version_and_log_unchanged() {
    let mut doc = DocBuffer::new("あ".to_owned());
    let edit = LocalTextEdit::new(1..2, String::new());
    assert!(doc.apply_changes(&[edit]).is_none());
    assert_eq!(doc.text(), "あ");
    assert_eq!(doc.edit_version(), 0);
    assert!(doc.edits_between(0, u64::MAX).is_empty());
}

#[test]
fn stale_snapshots_are_refused_and_equal_ones_accepted() {
    let mut doc = DocBuffer::new("hello".to_owned());
    for i in 1..=5 {
        doc.apply_changes(&[LocalTextEdit::new(i..i, "x".to_owned())]).unwrap();
    }
    assert_eq!(doc.edit_version(), 5);
    assert!(!install_if_newer(5, 3));
    assert!(install_if_newer(5, 5));
    assert!(install_if_newer(5, 6));
}

#[test]
fn retiring_keeps_only_edits_newer_than_the_installed_snapshot() {
    let mut doc = DocBuffer::new("abc".to_owned());
    doc.apply_changes(&[LocalTextEdit::new(0..0, "x".to_owned()), LocalTextEdit::new(1..2, String::new())]).unwrap();
    doc.apply_changes(&[LocalTextEdit::new(3..3, "yz".to_owned())]).unwrap();
    assert_eq!(doc.text(), "xacyz");
    assert_eq!(
        doc.edits_between(0, 2),
        vec![
            InputEdit { start_byte: 0, old_end_byte: 0, new_end_byte: 1 },
            InputEdit { start_byte: 1, old_end_byte: 2, new_end_byte: 1 },
            InputEdit { start_byte: 3, old_end_byte: 3, new_end_byte: 5 },
        ]
    );
    assert_eq!(doc.edits_between(1, 2), vec![input_edit(3, 3, 5)]);
    doc.retire_through(1);
    assert_eq!(doc.edits_between(0, 2), vec![input_edit(3, 3, 5)]);
}

#[test]
fn rebuild_from_previous_version_replays_exactly_the_last_batch() {
    let mut doc = DocBuffer::new("abc".to_owned());
    doc.apply_changes(&[LocalTextEdit::new(0..1, "x".to_owned())]).unwrap();
    let v = doc
        .apply_changes(&[
            LocalTextEdit::new(0..0, "<".to_owned()),
            LocalTextEdit::new(2..3, "yz".to_owned()),
        ])
        .unwrap();
    assert_eq!(v, 2);
    assert_eq!(doc.text(), "<xbyz");
    assert_eq!(doc.edits_between(1, 2), vec![input_edit(0, 0, 1), input_edit(2, 3, 4)]);
}

#[test]
fn retiring_does_not_change_later_replays() {
    let mut doc = DocBuffer::new("abc".to_owned());
    doc.apply_changes(&[LocalTextEdit::new(0..1, "x".to_owned())]).unwrap();
    doc.apply_changes(&[LocalTextEdit::new(1..2, "y".to_owned())]).unwrap();
    doc.apply_changes(&[LocalTextEdit::new(2..3, "z".to_owned())]).unwrap();
    let before = doc.edits_between(1, 3);
    doc.retire_through(1);
    assert_eq!(doc.edits_between(1, 3), before);
    assert_eq!(doc.edits_between(2, 3), vec![input_edit(2, 3, 3)]);
}

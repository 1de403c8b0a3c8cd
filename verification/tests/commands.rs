use aozora_tools::commands::{canonicalize_slug_edit, strip_brackets};
use aozora_tools::position::{Position, Range};

fn fake_uri() -> String {
    "file:///fake.afm".to_owned()
}

fn fake_range() -> Range {
    Range::new(Position::new(0, 0), Position::new(0, 4))
}

#[test]
fn variant_input_yields_canonical_replacement() {
    let edit = canonicalize_slug_edit(fake_uri(), fake_range(), "［＃ぼうてん］").expect("edit");
    let changes = edit.changes;
    let edits = &changes.first().expect("one entry").1;
    assert_eq!(edits[0].new_text, "［＃傍点］");
}

#[test]
fn unwrapped_variant_yields_unwrapped_canonical() {
    let edit = canonicalize_slug_edit(fake_uri(), fake_range(), "ぼうてん").expect("edit");
    let changes = edit.changes;
    let edits = &changes.first().unwrap().1;
    assert_eq!(edits[0].new_text, "傍点");
}

#[test]
fn already_canonical_returns_none() {
    let edit = canonicalize_slug_edit(fake_uri(), fake_range(), "［＃傍点］");
    assert!(edit.is_none(), "no-op canonicalisation must return None");
}

#[test]
fn unrecognised_input_returns_none() {
    assert!(canonicalize_slug_edit(fake_uri(), fake_range(), "［＃なんだろう］").is_none());
}

#[test]
fn edit_targets_the_given_document_and_range() {
    let edit = canonicalize_slug_edit(fake_uri(), fake_range(), "  ぼうてん  ").expect("edit");
    assert_eq!(edit.changes.len(), 1);
    assert_eq!(edit.changes[0].0, "file:///fake.afm");
    assert_eq!(edit.changes[0].1[0].range, fake_range());
}

#[test]
fn brackets_are_stripped_only_as_a_pair() {
    assert_eq!(strip_brackets("［＃傍点］"), "傍点");
    assert_eq!(strip_brackets("［＃傍点"), "［＃傍点");
    assert_eq!(strip_brackets("傍点］"), "傍点］");
}

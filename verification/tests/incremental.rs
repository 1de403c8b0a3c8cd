use aozora_tools::doc_state::input_edit;
use aozora_tools::incremental::{describes_edit, node_kind_id, IncrementalDoc, NodeInfo};

fn kind_id(name: &str) -> u16 {
    tree_sitter::Language::new(tree_sitter_aozora::LANGUAGE).id_for_node_kind(name, true)
}

/// Kind of the root's first named child.
fn first_named_child_kind(nodes: &[NodeInfo]) -> Option<u16> {
    nodes.iter().find(|n| n.depth == 1 && n.named).map(|n| n.kind_id)
}

fn kinds(doc: &IncrementalDoc) -> Vec<u16> {
    doc.with_tree().expect("tree").iter().map(|n| n.kind_id).collect()
}

#[test]
fn full_parse_then_query() {
    let mut doc = IncrementalDoc::new();
    doc.parse_full("｜青空《あおぞら》");
    let nodes = doc.with_tree().expect("tree exists");
    assert_eq!(first_named_child_kind(&nodes), Some(kind_id("explicit_ruby")));
}

#[test]
fn incremental_edit_keeps_tree_in_sync() {
    let mut doc = IncrementalDoc::new();
    let initial = "｜青空《あおぞら》";
    doc.parse_full(initial);
    let reading_start = initial.find("あおぞら").unwrap();
    let new_text = "｜青空《そら》";
    let edit = input_edit(reading_start, reading_start + "あおぞら".len(), reading_start + "そら".len());
    doc.apply_edit(new_text, edit);
    let nodes = doc.with_tree().expect("tree exists");
    assert_eq!(first_named_child_kind(&nodes), Some(kind_id("explicit_ruby")));
}

#[test]
fn empty_doc_yields_none_for_with_tree_until_parse() {
    let doc = IncrementalDoc::new();
    assert_eq!(doc.with_tree(), None);
}

#[test]
fn full_replace_after_initial_parse_drops_old_tree() {
    let mut doc = IncrementalDoc::new();
    doc.parse_full("plain text");
    doc.parse_full("｜青空《あおぞら》");
    let nodes = doc.with_tree().expect("tree");
    assert_eq!(first_named_child_kind(&nodes), Some(kind_id("explicit_ruby")));
}

#[test]
fn default_constructs_a_usable_parser() {
    let mut doc = IncrementalDoc::default();
    doc.parse_full("｜空《そら》");
    let has_children = doc.with_tree().map(|nodes| nodes.iter().any(|n| n.depth == 1));
    assert_eq!(has_children, Some(true));
}

fn assert_incremental_matches_full_parse(initial: &str, edit_at: usize, removed_len: usize, inserted: &str) {
    assert!(initial.is_char_boundary(edit_at), "edit_at not at char boundary");
    assert!(initial.is_char_boundary(edit_at + removed_len), "edit_at + removed_len not at char boundary");
    let mut after = String::with_capacity(initial.len() - removed_len + inserted.len());
    after.push_str(&initial[..edit_at]);
    after.push_str(inserted);
    after.push_str(&initial[edit_at + removed_len..]);

    let mut full = IncrementalDoc::new();
    full.parse_full(&after);
    let full_kinds = kinds(&full);

    let mut inc = IncrementalDoc::new();
    inc.parse_full(initial);
    let edit = input_edit(edit_at, edit_at + removed_len, edit_at + inserted.len());
    assert!(describes_edit(initial.as_bytes(), after.as_bytes(), edit));
    inc.apply_edit(&after, edit);
    let inc_kinds = kinds(&inc);

    assert_eq!(
        inc_kinds, full_kinds,
        "incremental tree diverged from 1-shot parse for edit at={edit_at} removed_len={removed_len} inserted={inserted:?}"
    );
    assert_eq!(inc.text(), after);
}

#[test]
fn invariant_insertion_matches_full_parse() {
    let initial = "｜空《そら》";
    let edit_at = initial.len();
    assert_incremental_matches_full_parse(initial, edit_at, 0, "\n本文");
}

#[test]
fn invariant_deletion_matches_full_parse() {
    let initial = "｜青空《あおぞら》\n本文";
    let edit_at = initial.find("\n本文").unwrap();
    assert_incremental_matches_full_parse(initial, edit_at, "\n本文".len(), "");
}

#[test]
fn invariant_replacement_matches_full_parse() {
    let initial = "｜青空《あおぞら》";
    let reading_start = initial.find("あおぞら").unwrap();
    assert_incremental_matches_full_parse(initial, reading_start, "あおぞら".len(), "そらいろ");
}

#[test]
fn invariant_cross_paragraph_replacement_matches_full_parse() {
    let initial = "段落1\n\n｜青空《あおぞら》\n\n段落3";
    let edit_at = initial.find('｜').unwrap();
    let span_end = initial.find("\n\n段落3").unwrap();
    assert_incremental_matches_full_parse(initial, edit_at, span_end - edit_at, "新しい本文");
}

#[test]
fn edit_description_is_checked_against_both_texts() {
    let old = "abcdef";
    let new = "abXYef";
    assert!(describes_edit(old.as_bytes(), new.as_bytes(), input_edit(2, 4, 4)));
    // Wrong new end: the suffixes no longer line up.
    assert!(!describes_edit(old.as_bytes(), new.as_bytes(), input_edit(2, 4, 5)));
    // Prefix differs.
    assert!(!describes_edit(old.as_bytes(), "zbXYef".as_bytes(), input_edit(2, 4, 4)));
    // Offsets past the text.
    assert!(!describes_edit(old.as_bytes(), new.as_bytes(), input_edit(2, 7, 7)));
}

#[test]
fn mismatched_edit_still_yields_the_new_texts_tree() {
    let mut doc = IncrementalDoc::new();
    doc.parse_full("plain text");
    let after = "｜青空《あおぞら》";
    // This edit does not describe the change; the document parses afresh.
    doc.apply_edit(after, input_edit(0, 1, 1));
    let mut fresh = IncrementalDoc::new();
    fresh.parse_full(after);
    assert_eq!(kinds(&doc), kinds(&fresh));
    assert_eq!(doc.text(), after);
}

#[test]
fn apply_edit_without_a_tree_parses_whole() {
    let mut doc = IncrementalDoc::new();
    doc.apply_edit("｜空《そら》", input_edit(0, 0, 0));
    let nodes = doc.with_tree().expect("tree");
    assert_eq!(first_named_child_kind(&nodes), Some(kind_id("explicit_ruby")));
}

#[test]
fn node_kind_ids_come_from_the_grammar() {
    assert_eq!(node_kind_id("gaiji"), kind_id("gaiji"));
    assert_ne!(node_kind_id("gaiji"), node_kind_id("slug"));
}

#[test]
fn node_ranges_lie_in_the_text() {
    let text = "前※［＃「desc」、第3水準1-85-54］後\n｜青空《あおぞら》";
    let mut doc = IncrementalDoc::new();
    doc.parse_full(text);
    let nodes = doc.with_tree().expect("tree");
    assert_eq!(nodes[0].depth, 0);
    assert_eq!((nodes[0].start_byte, nodes[0].end_byte), (0, text.len()));
    assert!(nodes.iter().all(|n| n.start_byte <= n.end_byte && n.end_byte <= text.len()));
}

use aozora_tools::document_symbol::{document_symbols, DocumentSymbol, SymbolKind, UNTITLED};
use aozora_tools::line_index::LineIndex;

fn syms(src: &str) -> Vec<DocumentSymbol> {
    let idx = LineIndex::new(src);
    document_symbols(src, &idx)
}

#[test]
fn empty_source_yields_no_symbols() {
    assert!(syms("").is_empty());
}

#[test]
fn single_major_heading_quoted() {
    let src = "［＃「序章」は大見出し］\n本文\n";
    let s = syms(src);
    assert_eq!(s.len(), 1);
    assert_eq!(s[0].name, "序章");
    assert_eq!(s[0].kind, SymbolKind::Class);
    assert_eq!(s[0].detail.as_deref(), Some("大見出し"));
}

#[test]
fn single_middle_heading_inline_text() {
    let src = "［＃中見出し］第一節［＃中見出し終わり］\n";
    let s = syms(src);
    assert_eq!(s.len(), 1);
    assert_eq!(s[0].name, "第一節");
    assert_eq!(s[0].kind, SymbolKind::Namespace);
}

#[test]
fn nested_middle_under_major() {
    let src = "［＃「序章」は大見出し］\n本文\n［＃「第一節」は中見出し］\n本文2\n";
    let tree = syms(src);
    assert_eq!(tree.len(), 1);
    let major = &tree[0];
    assert_eq!(major.name, "序章");
    let children = major.children.as_ref().expect("children");
    assert_eq!(children.len(), 1);
    assert_eq!(children[0].name, "第一節");
    assert_eq!(children[0].kind, SymbolKind::Namespace);
}

#[test]
fn nested_minor_under_middle_under_major() {
    let src = "［＃「巻」は大見出し］\n［＃「章」は中見出し］\n［＃「節」は小見出し］\n本文\n";
    let tree = syms(src);
    assert_eq!(tree.len(), 1);
    let major = &tree[0];
    let middle = &major.children.as_ref().unwrap()[0];
    let minor = &middle.children.as_ref().unwrap()[0];
    assert_eq!(major.name, "巻");
    assert_eq!(middle.name, "章");
    assert_eq!(minor.name, "節");
    assert_eq!(minor.kind, SymbolKind::Function);
}

#[test]
fn sibling_majors_at_root() {
    let src = "［＃「一」は大見出し］\n本\n［＃「二」は大見出し］\n本2\n";
    let tree = syms(src);
    assert_eq!(tree.len(), 2);
    assert_eq!(tree[0].name, "一");
    assert_eq!(tree[1].name, "二");
}

#[test]
fn empty_quote_body_falls_back_to_untitled_placeholder() {
    let src = "「」は大見出し\n本文\n";
    let s = syms(src);
    assert_eq!(s.len(), 1);
    assert!(!s[0].name.is_empty(), "name must never be empty; LSP spec forbids it");
    assert!(!s[0].name.trim().is_empty(), "name must not be whitespace-only either");
    assert_eq!(s[0].name, UNTITLED);
}

#[test]
fn whitespace_only_quote_body_also_falls_back() {
    let src = "「   」は大見出し\n";
    let s = syms(src);
    assert_eq!(s.len(), 1);
    assert!(!s[0].name.trim().is_empty());
    assert_eq!(s[0].name, UNTITLED);
}

#[test]
fn range_character_is_actual_line_length_not_u32_max() {
    let src = "［＃大見出し］序章\n本文\n";
    let s = syms(src);
    assert_eq!(s.len(), 1);
    let sym = &s[0];
    let expected_utf16 = u32::try_from("［＃大見出し］序章".encode_utf16().count()).expect("fits in u32");
    assert_eq!(sym.range.end.character, expected_utf16, "range.end.character must equal the actual line UTF-16 length");
    assert!(sym.range.end.character < u32::MAX / 2, "range.end.character must not be a sentinel like u32::MAX");
    assert_eq!(sym.selection_range.end.character, expected_utf16, "selection_range must mirror range");
}

#[test]
fn deeper_then_shallower_pops_stack() {
    let src = "［＃「巻一」は大見出し］\n［＃「節一」は中見出し］\n［＃「巻二」は大見出し］\n［＃「節二」は中見出し］\n";
    let tree = syms(src);
    assert_eq!(tree.len(), 2);
    assert_eq!(tree[0].children.as_ref().unwrap().len(), 1);
    assert_eq!(tree[0].children.as_ref().unwrap()[0].name, "節一");
    assert_eq!(tree[1].children.as_ref().unwrap().len(), 1);
    assert_eq!(tree[1].children.as_ref().unwrap()[0].name, "節二");
}

#[test]
fn shallower_heading_first_stays_at_root_before_deeper_ones() {
    let src = "［＃「節」は中見出し］\n［＃「巻」は大見出し］\n［＃「章」は中見出し］\n";
    let tree = syms(src);
    assert_eq!(tree.len(), 2);
    assert_eq!(tree[0].name, "節");
    assert!(tree[0].children.as_ref().unwrap().is_empty());
    assert_eq!(tree[1].name, "巻");
    assert_eq!(tree[1].children.as_ref().unwrap()[0].name, "章");
}

#[test]
fn crlf_line_width_excludes_the_carriage_return() {
    let src = "［＃大見出し］序章\r\n本文\r\n";
    let s = syms(src);
    assert_eq!(s[0].name, "序章");
    assert_eq!(s[0].range.end.character, 9);
}

use aozora_tools::line_index::LineIndex;
use aozora_tools::linked_editing::{linked_editing_at, SCAN_WINDOW};
use aozora_tools::position::Position;

fn pos(source: &str, byte_offset: usize) -> Position {
    LineIndex::new(source).position(source, byte_offset)
}

#[test]
fn ruby_open_links_to_close() {
    let src = "｜青空《あおぞら》";
    let open_byte = src.find('《').unwrap();
    let result = linked_editing_at(src, &LineIndex::new(src), pos(src, open_byte)).expect("link");
    assert_eq!(result.ranges.len(), 2);
    let close_byte = src.find('》').unwrap();
    assert_eq!(result.ranges[1].start, pos(src, close_byte));
}

#[test]
fn ruby_close_links_back_to_open() {
    let src = "｜青空《あおぞら》";
    let close_byte = src.find('》').unwrap();
    let result = linked_editing_at(src, &LineIndex::new(src), pos(src, close_byte)).expect("link");
    let open_byte = src.find('《').unwrap();
    assert_eq!(result.ranges[0].start, pos(src, open_byte));
    assert_eq!(result.ranges[1].start, pos(src, close_byte));
}

#[test]
fn slug_brackets_link() {
    let src = "前置き［＃改ページ］後";
    let open_byte = src.find('［').unwrap();
    let result = linked_editing_at(src, &LineIndex::new(src), pos(src, open_byte)).expect("link");
    let close_byte = src.find('］').unwrap();
    assert_eq!(result.ranges[1].start, pos(src, close_byte));
}

#[test]
fn quote_brackets_link() {
    let src = "「ほら」と言った";
    let open_byte = src.find('「').unwrap();
    let result = linked_editing_at(src, &LineIndex::new(src), pos(src, open_byte)).expect("link");
    assert_eq!(result.ranges[1].start, pos(src, src.find('」').unwrap()));
}

#[test]
fn cursor_just_after_opener_also_fires() {
    let src = "｜青空《あおぞら》";
    let after_open = src.find('《').unwrap() + '《'.len_utf8();
    let result = linked_editing_at(src, &LineIndex::new(src), pos(src, after_open)).expect("link");
    assert_eq!(result.ranges[1].start, pos(src, src.find('》').unwrap()));
}

#[test]
fn no_link_in_plain_text() {
    let src = "ただの文章";
    assert!(linked_editing_at(src, &LineIndex::new(src), pos(src, 3)).is_none());
}

#[test]
fn scan_does_not_cross_newlines() {
    let src = "前《ほげ\nふが》後";
    let open_byte = src.find('《').unwrap();
    assert!(linked_editing_at(src, &LineIndex::new(src), pos(src, open_byte)).is_none());
}

#[test]
fn ascii_brackets_are_intentionally_unsupported() {
    let src = "[hello]";
    let open_byte = src.find('[').unwrap();
    assert!(linked_editing_at(src, &LineIndex::new(src), pos(src, open_byte)).is_none());
}

#[test]
fn scan_caps_at_window() {
    let filler = "x".repeat(SCAN_WINDOW + 100);
    let src = format!("《{filler}》");
    let open_byte = src.find('《').unwrap();
    assert!(linked_editing_at(&src, &LineIndex::new(&src), pos(&src, open_byte)).is_none());
}

#[test]
fn window_edge_inside_a_char_gives_no_link() {
    let source = "《".to_owned() + &"あ".repeat(400);
    let idx = LineIndex::new(&source);
    assert!(linked_editing_at(&source, &idx, Position::new(0, 0)).is_none());
    let far = "《".to_owned() + &"あ".repeat(400) + "》";
    let idx = LineIndex::new(&far);
    assert!(linked_editing_at(&far, &idx, Position::new(0, 0)).is_none());
}

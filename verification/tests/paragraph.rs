use aozora_tools::gaiji_spans::GaijiSpan;
use aozora_tools::paragraph::{
    is_byte_char_boundary, paragraph_byte_ranges, shift_existing_spans, shift_to_absolute,
};

fn ranges_of(s: &str) -> Vec<std::ops::Range<usize>> {
    paragraph_byte_ranges(s.as_bytes())
}

#[test]
fn paragraph_byte_ranges_empty_yields_one_empty_range() {
    assert_eq!(ranges_of(""), vec![0..0]);
}

#[test]
fn paragraph_byte_ranges_single_paragraph_no_split() {
    let s = "ただの一段落だけ";
    let ranges = ranges_of(s);
    assert_eq!(ranges.len(), 1);
    assert_eq!(ranges[0], 0..s.len());
}

#[test]
fn paragraph_byte_ranges_splits_on_blank_line() {
    let s = "段落1\n\n段落2";
    let ranges = ranges_of(s);
    assert_eq!(ranges.len(), 2);
    let blank_at = s.find("\n\n").unwrap();
    assert_eq!(ranges[0].end, blank_at + 1);
    assert_eq!(ranges[1].start, blank_at + 1);
    assert_eq!(ranges[1].end, s.len());
}

#[test]
fn paragraph_byte_ranges_cover_full_rope_with_no_gaps() {
    let s = "一\n\n二\n\n三";
    let ranges = ranges_of(s);
    assert_eq!(ranges.first().unwrap().start, 0);
    assert_eq!(ranges.last().unwrap().end, s.len());
    for w in ranges.windows(2) {
        assert_eq!(w[0].end, w[1].start, "no gap or overlap");
    }
}

#[test]
fn paragraph_byte_ranges_cap_fallback_aligns_to_char_boundary() {
    let s: String = "あ".repeat(30000);
    let ranges = ranges_of(&s);
    for range in &ranges {
        assert!(s.is_char_boundary(range.start), "range.start = {} sits inside a multi-byte codepoint", range.start);
        assert!(s.is_char_boundary(range.end), "range.end = {} sits inside a multi-byte codepoint", range.end);
    }
    for range in &ranges {
        drop(s[range.clone()].to_string());
    }
}

#[test]
fn paragraph_byte_ranges_cap_fallback_covers_full_input() {
    let s: String = "あ".repeat(30000);
    let ranges = ranges_of(&s);
    assert_eq!(ranges.first().unwrap().start, 0);
    assert_eq!(ranges.last().unwrap().end, s.len());
    for w in ranges.windows(2) {
        assert_eq!(w[0].end, w[1].start, "no gap or overlap");
    }
}

#[test]
fn paragraph_byte_ranges_triple_newline_yields_three_paragraphs() {
    assert_eq!(ranges_of("\n\n\n"), vec![0..1, 1..2, 2..3]);
}

#[test]
fn paragraph_byte_ranges_single_trailing_newline_is_one_paragraph() {
    assert_eq!(ranges_of("abc\n"), vec![0..4]);
}

#[test]
fn paragraph_byte_ranges_trailing_blank_run_keeps_blank_paragraph() {
    assert_eq!(ranges_of("X\n\n"), vec![0..2, 2..3]);
}

#[test]
fn paragraph_byte_ranges_repeated_cap_fallback_aligns_each_split() {
    let s: String = "あ".repeat(80_000);
    let ranges = ranges_of(&s);
    assert!(ranges.len() >= 3, "expected ≥3 cap splits: {ranges:?}");
    for range in &ranges {
        assert!(s.is_char_boundary(range.start));
        assert!(s.is_char_boundary(range.end));
        drop(s[range.clone()].to_string());
    }
    for w in ranges.windows(2) {
        assert_eq!(w[0].end, w[1].start);
    }
    assert_eq!(ranges.first().unwrap().start, 0);
    assert_eq!(ranges.last().unwrap().end, s.len());
}

#[test]
fn cap_cut_prefers_the_last_single_newline_in_the_window() {
    let mut s = "a".repeat(40_000);
    s.push('\n');
    s.push_str(&"b".repeat(40_000));
    let ranges = ranges_of(&s);
    assert_eq!(ranges[0], 0..40_001);
    assert_eq!(ranges[1], 40_001..s.len());
}

#[test]
fn char_boundary_test_matches_utf8_lead_bytes() {
    let s = "aあ";
    let b = s.as_bytes();
    assert!(is_byte_char_boundary(b, 0));
    assert!(is_byte_char_boundary(b, 1));
    assert!(!is_byte_char_boundary(b, 2));
    assert!(!is_byte_char_boundary(b, 3));
    assert!(is_byte_char_boundary(b, 4));
    assert!(!is_byte_char_boundary(b, 5));
}

fn span(start: u32, end: u32) -> GaijiSpan {
    GaijiSpan { start_byte: start, end_byte: end, description: "a".to_string(), mencode: Some("X".to_string()) }
}

#[test]
fn local_spans_move_to_document_offsets() {
    let out = shift_to_absolute(&[span(0, 10)], 1000);
    assert_eq!((out[0].start_byte, out[0].end_byte), (1000, 1010));
    assert_eq!(out[0].description, "a");
    assert_eq!(out[0].mencode.as_deref(), Some("X"));
    let sat = shift_to_absolute(&[span(u32::MAX - 1, u32::MAX)], 5);
    assert_eq!((sat[0].start_byte, sat[0].end_byte), (u32::MAX, u32::MAX));
}

#[test]
fn existing_spans_follow_their_paragraph() {
    let out = shift_existing_spans(&[span(100, 110)], 100, 40);
    assert_eq!((out[0].start_byte, out[0].end_byte), (40, 50));
    let back = shift_existing_spans(&[span(5, 9)], 100, 0);
    assert_eq!((back[0].start_byte, back[0].end_byte), (u32::MAX, u32::MAX));
}

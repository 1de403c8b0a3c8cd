use aozora_tools::line_index::LineIndex;
use aozora_tools::position::{byte_offset_to_position, position_to_byte_offset, Position};

fn matches_legacy(source: &str, byte_offset: usize) -> bool {
    let idx = LineIndex::new(source);
    idx.position(source, byte_offset) == byte_offset_to_position(source, byte_offset)
}

#[test]
fn empty_source_has_one_line() {
    assert_eq!(LineIndex::new("").line_count(), 1);
}

#[test]
fn three_lines_yield_three_starts() {
    let idx = LineIndex::new("a\nb\nc");
    assert_eq!(idx.line_count(), 3);
}

#[test]
fn position_at_origin_matches_legacy() {
    assert!(matches_legacy("hello", 0));
}

#[test]
fn position_after_newlines_matches_legacy() {
    let src = "one\ntwo\nthree";
    for offset in 0..=src.len() {
        if !src.is_char_boundary(offset) {
            continue;
        }
        assert!(matches_legacy(src, offset), "offset {offset}");
    }
}

#[test]
fn utf8_multibyte_columns_match_legacy() {
    let src = "あいう\nえおか";
    for offset in 0..=src.len() {
        if !src.is_char_boundary(offset) {
            continue;
        }
        assert!(matches_legacy(src, offset), "offset {offset}");
    }
}

#[test]
fn surrogate_pair_columns_match_legacy() {
    let src = "a😀b\nc😀d";
    for offset in 0..=src.len() {
        if !src.is_char_boundary(offset) {
            continue;
        }
        assert!(matches_legacy(src, offset), "offset {offset}");
    }
}

#[test]
fn round_trip_via_index_is_identity() {
    let src = "abc\nあいう\ndef";
    let idx = LineIndex::new(src);
    for byte in 0..=src.len() {
        if !src.is_char_boundary(byte) {
            continue;
        }
        let pos = idx.position(src, byte);
        let round = idx.byte_offset(src, pos).expect("position is in range");
        assert_eq!(round, byte, "byte {byte} round-tripped to {round} via {pos:?}");
    }
}

#[test]
fn line_index_overshoot_clamps_to_eof() {
    let idx = LineIndex::new("hi");
    assert_eq!(idx.position("hi", 99), Position::new(0, 2));
}

#[test]
fn position_past_eof_returns_none() {
    let idx = LineIndex::new("one\ntwo");
    assert_eq!(idx.byte_offset("one\ntwo", Position::new(5, 0)), None);
}

#[test]
fn crlf_line_ends_keep_cr_inside_the_line() {
    let src = "abc\r\ndef";
    let idx = LineIndex::new(src);
    assert_eq!(idx.line_count(), 2);
    assert_eq!(idx.position(src, 3), Position::new(0, 3));
    assert_eq!(idx.position(src, 4), Position::new(0, 4));
    assert_eq!(idx.byte_offset(src, Position::new(0, 4)), Some(4));
}

#[test]
fn lone_newline_yields_two_lines() {
    let src = "\n";
    let idx = LineIndex::new(src);
    assert_eq!(idx.line_count(), 2);
    assert_eq!(idx.byte_offset(src, Position::new(0, 0)), Some(0));
    assert_eq!(idx.byte_offset(src, Position::new(1, 0)), Some(1));
}

#[test]
fn empty_source_round_trips_origin_position() {
    let src = "";
    let idx = LineIndex::new(src);
    assert_eq!(idx.line_count(), 1);
    assert_eq!(idx.position(src, 0), Position::new(0, 0));
    assert_eq!(idx.byte_offset(src, Position::new(0, 0)), Some(0));
    assert_eq!(idx.byte_offset(src, Position::new(0, 99)), Some(0));
}

#[test]
fn index_and_scan_agree_on_byte_offsets() {
    let src = "a😀b\nあい\n\nz";
    let idx = LineIndex::new(src);
    for line in 0..5u32 {
        for col in 0..6u32 {
            let p = Position::new(line, col);
            assert_eq!(idx.byte_offset(src, p), position_to_byte_offset(src, p), "{p:?}");
        }
    }
}

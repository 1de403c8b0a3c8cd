use aozora_tools::hover::{find_gaiji_span, hover_at, parse_gaiji_body};
use aozora_tools::position::{byte_offset_to_position, Position};

#[test]
fn hover_on_gaiji_resolves_through_the_dictionary() {
    let src = "語※［＃「木＋吶のつくり」、第3水準1-85-54］で";
    let pos = byte_offset_to_position(src, 6);
    let hover = hover_at(src, pos).expect("hover should resolve");
    let md = hover.value;
    assert!(md.contains("外字"), "hover missing 外字 header: {md}");
    assert!(md.contains("木＋吶のつくり"), "hover missing description: {md}");
    assert!(md.contains("- 解決: `枘` (U+6798)"), "hover missing resolved character U+6798 (枘): {md}");
}

#[test]
fn hover_on_u_plus_form_resolves_codepoint() {
    let src = "※［＃「description」、U+01F5］";
    let pos = byte_offset_to_position(src, 3);
    let hover = hover_at(src, pos).expect("hover on U+ form");
    let md = hover.value;
    assert!(md.contains("01F5") || md.contains('\u{01F5}'));
}

#[test]
fn hover_outside_gaiji_returns_none() {
    let src = "ただの文です";
    let pos = Position::new(0, 2);
    assert!(hover_at(src, pos).is_none());
}

#[test]
fn hover_before_gaiji_returns_none() {
    let src = "abc※［＃「木＋吶のつくり」、第3水準1-85-54］で";
    let pos = byte_offset_to_position(src, 1);
    assert!(hover_at(src, pos).is_none());
}

#[test]
fn hover_on_unresolved_gaiji_still_returns_markdown() {
    let src = "※［＃「未知字」、第9水準9-99-99］";
    let pos = byte_offset_to_position(src, 3);
    let hover = hover_at(src, pos).expect("hover should fire even if unresolved");
    let md = hover.value;
    assert!(md.contains("辞書にマッチせず"));
    assert!(md.contains("未知字"));
}

#[test]
fn hover_range_covers_the_whole_reference() {
    let src = "語※［＃「木＋吶のつくり」、第3水準1-85-54］で";
    let start = src.find('※').unwrap();
    let end = src.find('］').unwrap() + '］'.len_utf8();
    let hover = hover_at(src, byte_offset_to_position(src, start)).expect("hover at the ※ itself");
    let range = hover.range.expect("range");
    assert_eq!(range.start, byte_offset_to_position(src, start));
    assert_eq!(range.end, byte_offset_to_position(src, end));
}

#[test]
fn span_search_matches_each_reference_and_not_the_gap() {
    let src = "※［＃「a」、X］間※［＃「b」、Y］";
    assert_eq!(find_gaiji_span(src, 0), Some((0, "※［＃「a」、X］".len())));
    let gap = "※［＃「a」、X］".len();
    assert_eq!(find_gaiji_span(src, gap), None);
    let second = src.rfind('※').unwrap();
    assert_eq!(find_gaiji_span(src, second + 3), Some((second, src.len())));
    assert_eq!(find_gaiji_span("※［＃「open", 2), None);
}

#[test]
fn gaiji_body_splits_description_and_first_mencode_field() {
    assert_eq!(
        parse_gaiji_body(" 「木＋吶のつくり」、第3水準1-85-54 "),
        ("木＋吶のつくり".to_string(), Some("第3水準1-85-54".to_string()))
    );
    assert_eq!(
        parse_gaiji_body("「description」、、U+01F5、p12-3"),
        ("description".to_string(), Some("U+01F5".to_string()))
    );
    assert_eq!(parse_gaiji_body("「only」"), ("only".to_string(), None));
    assert_eq!(parse_gaiji_body("no quote、X"), ("no quote、X".to_string(), None));
}

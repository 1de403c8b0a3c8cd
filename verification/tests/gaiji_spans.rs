use aozora_tools::gaiji_spans::{
    build_span, extract_gaiji_spans_from_tree, gaiji_spans_of_nodes, gaiji_spans_with_kind, parse_body,
    spans_in_byte_range, GaijiSpan,
};
use aozora_tools::incremental::{IncrementalDoc, NodeInfo};

fn parse(src: &str) -> IncrementalDoc {
    let mut doc = IncrementalDoc::new();
    doc.parse_full(src);
    doc
}


fn span(start: u32, end: u32, description: &str) -> GaijiSpan {
    GaijiSpan { start_byte: start, end_byte: end, description: description.to_string(), mencode: None }
}

#[test]
fn body_with_mencode_splits_on_first_comma() {
    assert_eq!(parse_body("「desc」、第3水準1-85-54"), ("desc".to_string(), Some("第3水準1-85-54".to_string())));
    assert_eq!(parse_body(" 「a」 、 X 、Y"), ("a".to_string(), Some("X 、Y".to_string())));
}

#[test]
fn description_only_body_has_no_mencode() {
    assert_eq!(parse_body("「desc-only」"), ("desc-only".to_string(), None));
    assert_eq!(parse_body("「desc」、   "), ("desc".to_string(), None));
}

#[test]
fn span_offsets_saturate_to_u32() {
    let s = build_span(3, 40, "「x」、U+1234");
    assert_eq!((s.start_byte, s.end_byte), (3, 40));
    assert_eq!(s.description, "x");
    assert_eq!(s.mencode.as_deref(), Some("U+1234"));
    let big = build_span(usize::MAX, usize::MAX, "「y」");
    assert_eq!((big.start_byte, big.end_byte), (u32::MAX, u32::MAX));
}

#[test]
fn range_query_keeps_spans_starting_in_range() {
    let spans = vec![span(0, 10, "a"), span(11, 21, "b"), span(22, 32, "c")];
    let inside = spans_in_byte_range(&spans, 11, 21);
    assert_eq!(inside.len(), 1);
    assert_eq!(inside[0].description, "b");
    assert_eq!(spans_in_byte_range(&spans, 0, 100).len(), 3);
    let from_five = spans_in_byte_range(&spans, 5, 12);
    assert_eq!(from_five.len(), 1);
    assert_eq!(from_five[0].description, "b");
    assert!(spans_in_byte_range(&[span(0, 10, "a")], 5, 20).is_empty());
    assert!(spans_in_byte_range(&spans, 40, 50).is_empty());
    assert!(spans_in_byte_range(&spans, 21, 11).is_empty());
}

#[test]
fn empty_source_yields_no_spans() {
    let doc = parse("");
    assert!(extract_gaiji_spans_from_tree(&doc).is_empty());
}

#[test]
fn extracts_one_gaiji_span() {
    let src = "前※［＃「desc」、第3水準1-85-54］後";
    let doc = parse(src);
    let spans = extract_gaiji_spans_from_tree(&doc);
    assert_eq!(spans.len(), 1);
    let span = &spans[0];
    assert_eq!(&*span.description, "desc");
    assert_eq!(span.mencode.as_deref(), Some("第3水準1-85-54"));
    assert_eq!(span.start_byte as usize, src.find('※').unwrap());
}

#[test]
fn extracts_multiple_spans_in_source_order() {
    let src = "※［＃「a」、第3水準1-85-54］\n※［＃「b」、第3水準1-85-9］";
    let doc = parse(src);
    let spans = extract_gaiji_spans_from_tree(&doc);
    assert_eq!(spans.len(), 2);
    assert!(spans[0].start_byte < spans[1].start_byte);
    assert_eq!(&*spans[0].description, "a");
    assert_eq!(&*spans[1].description, "b");
}

#[test]
fn description_only_form_yields_none_mencode() {
    let src = "※［＃「desc-only」］";
    let doc = parse(src);
    let spans = extract_gaiji_spans_from_tree(&doc);
    assert_eq!(spans.len(), 1);
    assert_eq!(&*spans[0].description, "desc-only");
    assert!(spans[0].mencode.is_none());
}

#[test]
fn binary_search_filters_out_of_range_spans() {
    let src = "※［＃「a」、X］\n※［＃「b」、X］\n※［＃「c」、X］";
    let doc = parse(src);
    let spans = extract_gaiji_spans_from_tree(&doc);
    let b_start = src.find("※［＃「b").unwrap();
    let b_end = src.match_indices('］').nth(1).map(|(i, _)| i + '］'.len_utf8()).unwrap();
    let inside = spans_in_byte_range(&spans, b_start, b_end);
    assert_eq!(inside.len(), 1);
    assert_eq!(&*inside[0].description, "b");
}

#[test]
fn empty_document_has_no_spans_before_parse() {
    let doc = IncrementalDoc::new();
    assert!(extract_gaiji_spans_from_tree(&doc).is_empty());
}

#[test]
fn node_spans_move_by_base_and_skip_malformed_ranges() {
    let text = "前※［＃「x」、U+1234］後";
    let s = text.find('※').unwrap();
    let e = text.find('後').unwrap();
    let gaiji = NodeInfo { kind_id: 7, named: true, start_byte: s, end_byte: e, depth: 1 };
    let other_kind = NodeInfo { kind_id: 8, ..gaiji };
    let past_end = NodeInfo { end_byte: text.len() + 1, ..gaiji };
    let unopened = NodeInfo { start_byte: 0, ..gaiji };
    let spans = gaiji_spans_with_kind(text, &[gaiji, other_kind, past_end, unopened], 100, 7);
    assert_eq!(spans.len(), 1);
    assert_eq!(spans[0].start_byte as usize, s + 100);
    assert_eq!(spans[0].end_byte as usize, e + 100);
    assert_eq!(spans[0].description, "x");
    assert_eq!(spans[0].mencode.as_deref(), Some("U+1234"));
}

#[test]
fn node_spans_saturate_at_u32() {
    let text = "※［＃「x」］";
    let gaiji = NodeInfo { kind_id: 3, named: true, start_byte: 0, end_byte: text.len(), depth: 1 };
    let spans = gaiji_spans_with_kind(text, &[gaiji], usize::MAX, 3);
    assert_eq!(spans.len(), 1);
    assert_eq!((spans[0].start_byte, spans[0].end_byte), (u32::MAX, u32::MAX));
}

#[test]
fn spans_of_nodes_use_the_grammars_gaiji_kind() {
    let src = "前※［＃「desc」、第3水準1-85-54］後";
    let doc = parse(src);
    let nodes = doc.with_tree().expect("tree");
    let spans = gaiji_spans_of_nodes(src, &nodes, 10);
    assert_eq!(spans.len(), 1);
    assert_eq!(spans[0].start_byte as usize, src.find('※').unwrap() + 10);
    assert_eq!(spans[0].end_byte as usize, src.find('後').unwrap() + 10);
}

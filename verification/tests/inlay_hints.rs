use aozora_tools::gaiji_spans::{build_span, GaijiSpan};
use aozora_tools::inlay_hints::{inlay_hints, resolved_spans, InlayHintKind};
use aozora_tools::line_index::LineIndex;
use aozora_tools::position::{Position, Range};

/// The span of every `※［＃…］` in `src` (as a syntax-tree walk finds them).
fn spans_of(src: &str) -> Vec<GaijiSpan> {
    let mut out = Vec::new();
    let mut from = 0;
    while let Some(rel) = src[from..].find("※［＃") {
        let start = from + rel;
        let body_start = start + "※［＃".len();
        let close = body_start + src[body_start..].find('］').unwrap();
        out.push(build_span(start, close + '］'.len_utf8(), &src[body_start..close]));
        from = close;
    }
    out
}

fn full_range(src: &str, idx: &LineIndex) -> Range {
    Range::new(Position::new(0, 0), idx.position(src, src.len()))
}

#[test]
fn one_hint_per_resolved_reference() {
    let src = "前※［＃「木＋吶のつくり」、第3水準1-85-54］後";
    let spans = spans_of(src);
    let idx = LineIndex::new(src);
    let hints = inlay_hints(src, &spans, &idx, full_range(src, &idx));
    assert_eq!(hints.len(), 1, "{hints:?}");
    assert_eq!(hints[0].label, " → 枘");
    assert!(hints[0].tooltip.contains("U+6798"), "{}", hints[0].tooltip);
    assert_eq!(hints[0].tooltip, "**外字**: `木＋吶のつくり`\n\n- 解決: `枘` (U+6798)");
    assert_eq!(hints[0].position, idx.position(src, src.find('後').unwrap()));
    assert_eq!(hints[0].kind, Some(InlayHintKind::Type));
    assert_eq!((hints[0].padding_left, hints[0].padding_right), (Some(true), Some(false)));
}

#[test]
fn unresolved_reference_gets_no_hint() {
    let src = "※［＃「unknown」、第9水準9-99-99］";
    let spans = spans_of(src);
    let idx = LineIndex::new(src);
    assert!(inlay_hints(src, &spans, &idx, full_range(src, &idx)).is_empty());
}

#[test]
fn references_outside_the_range_are_filtered() {
    let src = "※［＃「A」、第3水準1-85-54］\n※［＃「B」、第3水準1-85-54］";
    let spans = spans_of(src);
    let idx = LineIndex::new(src);
    let line2_only = Range::new(Position::new(1, 0), Position::new(1, 100));
    let hints = inlay_hints(src, &spans, &idx, line2_only);
    assert_eq!(hints.len(), 1, "{hints:?}");
}

#[test]
fn plain_text_has_no_hints() {
    let src = "ただの文章";
    let idx = LineIndex::new(src);
    assert!(inlay_hints(src, &[], &idx, full_range(src, &idx)).is_empty());
}

#[test]
fn a_range_past_the_text_gives_no_hints() {
    let src = "※［＃「A」、第3水準1-85-54］";
    let spans = spans_of(src);
    let idx = LineIndex::new(src);
    let past = Range::new(Position::new(5, 0), Position::new(6, 0));
    assert!(inlay_hints(src, &spans, &idx, past).is_empty());
}

#[test]
fn resolved_spans_keep_resolvable_references_only() {
    let src = "前※［＃「木＋吶のつくり」、第3水準1-85-54］中※［＃「謎の字」］後";
    let spans = spans_of(src);
    assert_eq!(spans.len(), 2);
    let idx = LineIndex::new(src);
    let views = resolved_spans(src, &spans, &idx);
    assert_eq!(views.len(), 1, "{views:?}");
    assert_eq!(views[0].resolved, "枘");
    assert_eq!(views[0].description, "木＋吶のつくり");
    assert_eq!(views[0].mencode.as_deref(), Some("第3水準1-85-54"));
    assert_eq!(views[0].range.start, idx.position(src, src.find('※').unwrap()));
    assert_eq!(views[0].range.end, idx.position(src, src.find('中').unwrap()));
}

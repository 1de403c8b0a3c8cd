use aozora_tools::doc_state::input_edit;
use aozora_tools::segmented_doc::{
    locate_segment, plan_edit, segment_ranges, ByteDelta, EditPlan, SegmentedDoc, TouchedSegments,
};

fn seg(s: &str) -> Vec<std::ops::Range<usize>> {
    segment_ranges(s.as_bytes())
}

#[test]
fn segment_ranges_empty_rope_yields_one_empty_range() {
    assert_eq!(seg(""), vec![0..0]);
}

#[test]
fn segment_ranges_single_paragraph_no_split() {
    let s = "ただの一段落だけ";
    let ranges = seg(s);
    assert_eq!(ranges.len(), 1);
    assert_eq!(ranges[0], 0..s.len());
}

#[test]
fn segment_ranges_splits_on_blank_line() {
    let s = "段落1\n\n段落2";
    let ranges = seg(s);
    assert_eq!(ranges.len(), 2);
    assert_eq!(ranges[0].start, 0);
    let blank_at = s.find("\n\n").unwrap();
    assert_eq!(ranges[0].end, blank_at + 1);
    assert_eq!(ranges[1].start, blank_at + 1);
    assert_eq!(ranges[1].end, s.len());
}

#[test]
fn segment_ranges_three_paragraphs() {
    let s = "一\n\n二\n\n三";
    let ranges = seg(s);
    assert_eq!(ranges.len(), 3, "{ranges:?}");
    assert_eq!(ranges[0].start, 0);
    assert_eq!(ranges.last().unwrap().end, s.len());
    for w in ranges.windows(2) {
        assert_eq!(w[0].end, w[1].start, "no gap or overlap");
    }
}

#[test]
fn delta_shifts_and_floors() {
    let grow = ByteDelta::from_edit(5, 8);
    assert_eq!(grow, ByteDelta(3));
    assert_eq!(grow.apply(10), 13);
    let shrink = ByteDelta::from_edit(8, 5);
    assert_eq!(shrink.apply(2), 0);
    assert_eq!(shrink.apply_clamped(4, 3), 3);
    assert_eq!(shrink.apply_clamped(10, 3), 7);
}

#[test]
fn boundary_belongs_to_the_left_segment() {
    let segs = vec![0..4, 4..9, 9..12];
    assert_eq!(locate_segment(&segs, 4, 4), TouchedSegments::Single(0));
    assert_eq!(locate_segment(&segs, 5, 9), TouchedSegments::Single(1));
    assert_eq!(locate_segment(&segs, 3, 6), TouchedSegments::Multiple);
    assert_eq!(locate_segment(&segs, 50, 50), TouchedSegments::Multiple);
    assert_eq!(locate_segment(&segs, 12, 12), TouchedSegments::Single(2));
}

#[test]
fn insert_inside_a_segment_widens_it_and_shifts_the_rest() {
    let s = "一\n\n二\n\n三";
    let segs = seg(s);
    match plan_edit(&segs, 0, 0, 1) {
        EditPlan::Reparse { index, ranges } => {
            assert_eq!(index, 0);
            assert_eq!(ranges[0].len(), segs[0].len() + 1);
            for i in 1..segs.len() {
                assert_eq!(ranges[i].start, segs[i].start + 1);
                assert_eq!(ranges[i].end, segs[i].end + 1);
            }
        }
        EditPlan::Resegment => panic!("single-segment edit must not re-segment"),
    }
}

#[test]
fn edit_across_segments_or_into_nothing_resegments() {
    let s = "一\n\n二\n\n三";
    let segs = seg(s);
    let blank1 = "一".len();
    let blank2 = "一\n\n二\n\n".len();
    assert_eq!(plan_edit(&segs, blank1, blank2, blank1), EditPlan::Resegment);
    assert_eq!(plan_edit(&[], 0, 0, 5), EditPlan::Resegment);
}

#[test]
fn growing_a_segment_past_the_cap_resegments() {
    let segs = vec![0..10];
    assert_eq!(plan_edit(&segs, 5, 5, 5 + 70_000), EditPlan::Resegment);
}

#[test]
fn planned_segments_tile_the_edited_text() {
    // Old text of 10 bytes in two segments; replace bytes 6..7 with three.
    let segs = vec![0..5, 5..10];
    match plan_edit(&segs, 6, 7, 9) {
        EditPlan::Reparse { index, ranges } => {
            assert_eq!(index, 1);
            assert_eq!(ranges, vec![0..5, 5..12]);
            assert_eq!(ranges[0].start, 0);
            assert_eq!(ranges.last().unwrap().end, 10 - 7 + 9);
        }
        other => panic!("expected a reparse, got {other:?}"),
    }
    // Delete the whole first segment's content: it shrinks to empty and
    // the second moves left; still no gap or overlap.
    match plan_edit(&segs, 0, 5, 0) {
        EditPlan::Reparse { index, ranges } => {
            assert_eq!(index, 0);
            assert_eq!(ranges, vec![0..0, 0..5]);
        }
        other => panic!("expected a reparse, got {other:?}"),
    }
}

#[test]
fn parse_full_yields_one_tree_per_segment() {
    let mut doc = SegmentedDoc::new();
    doc.parse_full("段落1\n\n段落2\n\n段落3");
    assert_eq!(doc.segment_count(), 3);
    for i in 0..doc.segment_count() {
        assert!(doc.segment_nodes(i).is_some(), "every non-empty segment has a tree");
    }
}

#[test]
fn apply_edit_inside_one_segment_does_not_touch_others() {
    let mut doc = SegmentedDoc::new();
    let text = "一段落\n\n二段落\n\n三段落";
    doc.parse_full(text);
    let before: Vec<_> = (0..3).map(|i| doc.segment_nodes(i)).collect();
    let mid = "一段落\n\n二段".len();
    let mut new_text = text.to_owned();
    new_text.insert(mid, 'X');
    doc.apply_edit(&new_text, input_edit(mid, mid, mid + 1));
    let after: Vec<_> = (0..3).map(|i| doc.segment_nodes(i)).collect();
    assert_eq!(before[0], after[0], "seg 0 untouched");
    assert_ne!(before[1], after[1], "seg 1 re-parsed");
    assert_eq!(before[2], after[2], "seg 2 untouched");
}

#[test]
fn apply_edit_shifts_byte_ranges_of_subsequent_segments() {
    let mut doc = SegmentedDoc::new();
    let text = "一\n\n二\n\n三";
    doc.parse_full(text);
    let ranges_before = doc.with_segments().clone();
    let mut new_text = text.to_owned();
    new_text.insert(0, 'X');
    doc.apply_edit(&new_text, input_edit(0, 0, 1));
    let ranges_after = doc.with_segments().clone();
    assert_eq!(ranges_after[0].len(), ranges_before[0].len() + 1);
    for i in 1..ranges_before.len() {
        assert_eq!(ranges_after[i].start, ranges_before[i].start + 1);
        assert_eq!(ranges_after[i].end, ranges_before[i].end + 1);
    }
}

#[test]
fn apply_edit_crossing_segments_falls_back_to_full_resegment() {
    let mut doc = SegmentedDoc::new();
    let text = "一\n\n二\n\n三";
    doc.parse_full(text);
    let blank1 = "一".len();
    let blank2 = "一\n\n二\n\n".len();
    let mut new_text = text.to_owned();
    new_text.replace_range(blank1..blank2, "");
    doc.apply_edit(&new_text, input_edit(blank1, blank2, blank1));
    assert_eq!(doc.segment_count(), 1);
    assert_eq!(doc.with_segments()[0], 0..new_text.len());
}

#[test]
fn empty_doc_then_edit_initialises_segments() {
    let mut doc = SegmentedDoc::new();
    doc.apply_edit("hello", input_edit(0, 0, 5));
    assert_eq!(doc.segment_count(), 1);
}

#[test]
fn segments_concatenate_to_full_rope_after_edits() {
    let mut doc = SegmentedDoc::new();
    let mut text = "first\n\nsecond\n\nthird".to_owned();
    doc.parse_full(&text);
    text.insert_str(0, "PRE-");
    doc.apply_edit(&text, input_edit(0, 0, "PRE-".len()));
    let len = text.len();
    text.push_str("-END");
    doc.apply_edit(&text, input_edit(len, len, len + "-END".len()));
    let segs = doc.with_segments();
    assert_eq!(segs[0].start, 0);
    assert_eq!(segs.last().unwrap().end, text.len());
    for w in segs.windows(2) {
        assert_eq!(w[0].end, w[1].start);
    }
}

#[test]
fn mismatched_edit_resegments_the_new_text() {
    let mut doc = SegmentedDoc::new();
    doc.parse_full("一\n\n二");
    // An edit whose reported offsets do not match the texts re-segments.
    doc.apply_edit("一\n\n二三", input_edit(0, 0, 9));
    let segs = doc.with_segments().clone();
    assert_eq!(segs.first().unwrap().start, 0);
    assert_eq!(segs.last().unwrap().end, "一\n\n二三".len());
    for i in 0..segs.len() {
        assert!(doc.segment_nodes(i).is_some());
    }
}

use aozora_tools::folding_range::{folding_ranges, FoldingRangeKind};

#[test]
fn empty_source_yields_no_ranges() {
    assert!(folding_ranges("").is_empty());
}

#[test]
fn single_block_pair_emits_one_range() {
    let src = "本文\n［＃ここから字下げ］\n字下げ内\n［＃ここで字下げ終わり］\n後\n";
    let ranges = folding_ranges(src);
    assert_eq!(ranges.len(), 1, "{ranges:?}");
    assert_eq!(ranges[0].start_line, 1);
    assert_eq!(ranges[0].end_line, 3);
}

#[test]
fn nested_blocks_pair_innermost_first() {
    let src = "［＃ここから罫囲い］\n外\n［＃ここから字下げ］\n中\n［＃ここで字下げ終わり］\n外2\n［＃ここで罫囲い終わり］\n";
    let ranges = folding_ranges(src);
    assert_eq!(ranges.len(), 2);
    let inner = ranges.iter().find(|r| r.start_line == 2).expect("inner block");
    assert_eq!(inner.end_line, 4);
    let outer = ranges.iter().find(|r| r.start_line == 0).expect("outer block");
    assert_eq!(outer.end_line, 6);
}

#[test]
fn unbalanced_opener_is_silently_dropped() {
    let src = "［＃ここから字下げ］\n中身だけ\n";
    let ranges = folding_ranges(src);
    assert!(ranges.is_empty(), "{ranges:?}");
}

#[test]
fn unbalanced_closer_is_silently_dropped() {
    let src = "中身だけ\n［＃ここで字下げ終わり］\n";
    let ranges = folding_ranges(src);
    assert!(ranges.is_empty(), "{ranges:?}");
}

#[test]
fn heading_lines_pair_with_next_heading() {
    let src = "［＃「序章」は大見出し］\n本文1\n本文2\n［＃「第一章」は中見出し］\n本文3\n本文4\n";
    let ranges = folding_ranges(src);
    assert_eq!(ranges.len(), 2);
    let first = &ranges[0];
    assert_eq!(first.start_line, 0);
    assert_eq!(first.end_line, 2);
    let tail = &ranges[1];
    assert_eq!(tail.start_line, 3);
    assert_eq!(tail.end_line, 5);
}

#[test]
fn ranges_are_sorted_by_start_line() {
    let src = "［＃ここから字下げ］\n中\n［＃ここで字下げ終わり］\n後\n［＃「章」は大見出し］\n本文\n";
    let ranges = folding_ranges(src);
    assert!(ranges.windows(2).all(|w| w[0].start_line <= w[1].start_line));
}

#[test]
fn fold_kind_is_region() {
    let src = "［＃ここから字下げ］\n中\n［＃ここで字下げ終わり］";
    let ranges = folding_ranges(src);
    assert_eq!(ranges[0].kind, Some(FoldingRangeKind::Region));
}

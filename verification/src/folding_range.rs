//! Folding ranges from a text scan: `［＃ここから…］ … ［＃…終わり］`
//! container blocks (paired last-in-first-out, so nested containers
//! match), and heading sections (a line holding `見出し］` folds to the
//! line before the next such line, the last one to the end). The
//! result is sorted by start line, stably.

use vstd::prelude::*;
use vstd::string::*;

use crate::line_index::{line_span, line_spans, text_line_count};
use crate::scan::{find_bytes, first_match_from, lemma_first_match_found};

verus! {

/// The kind of a fold.
#[derive(Debug, Clone, Copy, PartialEq, Eq, Structural)]
pub enum FoldingRangeKind {
    Comment,
    Imports,
    Region,
}

/// A fold over whole lines `start_line..=end_line`.
#[derive(Debug, Clone, Copy, PartialEq, Eq, Structural)]
pub struct FoldingRange {
    pub start_line: u32,
    pub end_line: u32,
    pub kind: Option<FoldingRangeKind>,
}

/// Every fold of `v` is a region.
pub open spec fn all_regions(v: Seq<FoldingRange>) -> bool {
    forall|i: int| 0 <= i < v.len() ==> (#[trigger] v[i]).kind == Some(FoldingRangeKind::Region)
}

/// `［＃ここから`
pub open spec fn open_marker() -> Seq<u8> {
    seq![0xefu8, 0xbcu8, 0xbbu8, 0xefu8, 0xbcu8, 0x83u8, 0xe3u8, 0x81u8, 0x93u8, 0xe3u8, 0x81u8, 0x93u8, 0xe3u8, 0x81u8, 0x8bu8, 0xe3u8, 0x82u8, 0x89u8]
}

/// `終わり］`
pub open spec fn close_marker() -> Seq<u8> {
    seq![0xe7u8, 0xb5u8, 0x82u8, 0xe3u8, 0x82u8, 0x8fu8, 0xe3u8, 0x82u8, 0x8au8, 0xefu8, 0xbcu8, 0xbdu8]
}

/// `見出し］`
pub open spec fn heading_marker() -> Seq<u8> {
    seq![0xe8u8, 0xa6u8, 0x8bu8, 0xe5u8, 0x87u8, 0xbau8, 0xe3u8, 0x81u8, 0x97u8, 0xefu8, 0xbcu8, 0xbdu8]
}

fn open_marker_bytes() -> (v: Vec<u8>)
    ensures
        v@ == open_marker(),
{
    let v = vec![0xefu8, 0xbcu8, 0xbbu8, 0xefu8, 0xbcu8, 0x83u8, 0xe3u8, 0x81u8, 0x93u8, 0xe3u8, 0x81u8, 0x93u8, 0xe3u8, 0x81u8, 0x8bu8, 0xe3u8, 0x82u8, 0x89u8];
    proof {
        assert(v@ =~= open_marker());
    }
    v
}

fn close_marker_bytes() -> (v: Vec<u8>)
    ensures
        v@ == close_marker(),
{
    let v = vec![0xe7u8, 0xb5u8, 0x82u8, 0xe3u8, 0x82u8, 0x8fu8, 0xe3u8, 0x82u8, 0x8au8, 0xefu8, 0xbcu8, 0xbdu8];
    proof {
        assert(v@ =~= close_marker());
    }
    v
}

fn heading_marker_bytes() -> (v: Vec<u8>)
    ensures
        v@ == heading_marker(),
{
    let v = vec![0xe8u8, 0xa6u8, 0x8bu8, 0xe5u8, 0x87u8, 0xbau8, 0xe3u8, 0x81u8, 0x97u8, 0xefu8, 0xbcu8, 0xbdu8];
    proof {
        assert(v@ =~= heading_marker());
    }
    v
}

/// Number of non-overlapping matches of `needle` in `p..end`, taken
/// leftmost first.
pub open spec fn count_greedy(b: Seq<u8>, p: int, end: int, needle: Seq<u8>) -> nat
    decreases end - p + 1,
{
    if needle.len() == 0 {
        0
    } else {
        match first_match_from(b, p, end, needle) {
            None => 0,
            Some(q) => if q >= p && q + needle.len() <= end {
                1 + count_greedy(b, q + needle.len(), end, needle)
            } else {
                0
            },
        }
    }
}

/// Count the non-overlapping matches of `needle` in `from..end`.
fn count_matches(bytes: &[u8], from: usize, end: usize, needle: &[u8]) -> (n: usize)
    requires
        from <= end <= bytes@.len(),
        needle@.len() > 0,
    ensures
        n == count_greedy(bytes@, from as int, end as int, needle@),
{
    let mut p = from;
    let mut n: usize = 0;
    while p <= end
        invariant
            from <= p,
            end <= bytes@.len(),
            needle@.len() > 0,
            n <= p - from,
            count_greedy(bytes@, from as int, end as int, needle@) == n + count_greedy(
                bytes@,
                p as int,
                end as int,
                needle@,
            ),
        decreases end + 1 - p,
    {
        match find_bytes(bytes, p, end, needle) {
            None => return n,
            Some(q) => {
                proof {
                    lemma_first_match_found(bytes@, p as int, end as int, needle@);
                }
                n = n + 1;
                p = q + needle.len();
            },
        }
    }
    n
}

/// `stack` with `n` copies of line `k` pushed.
pub open spec fn push_n(stack: Seq<int>, k: int, n: nat) -> Seq<int> {
    stack + Seq::new(n, |i: int| k)
}

/// Apply `n` closers on line `k`: each pops the innermost open line and
/// emits a fold when it lies above `k`.
pub open spec fn pop_closes(stack: Seq<int>, out: Seq<(int, int)>, k: int, n: nat) -> (Seq<int>, Seq<(int, int)>)
    decreases n,
{
    if n == 0 {
        (stack, out)
    } else if stack.len() == 0 {
        pop_closes(stack, out, k, (n - 1) as nat)
    } else {
        let top = stack.last();
        pop_closes(
            stack.drop_last(),
            if k > top {
                out.push((top, k))
            } else {
                out
            },
            k,
            (n - 1) as nat,
        )
    }
}

/// The open-line stack and emitted block folds after the first `n`
/// lines of `b`.
pub open spec fn block_state(b: Seq<u8>, n: int) -> (Seq<int>, Seq<(int, int)>)
    decreases n,
{
    if n <= 0 {
        (seq![], seq![])
    } else {
        let prev = block_state(b, n - 1);
        let k = n - 1;
        let (s, e) = line_span(b, k);
        pop_closes(
            push_n(prev.0, k, count_greedy(b, s, e, open_marker())),
            prev.1,
            k,
            count_greedy(b, s, e, close_marker()),
        )
    }
}

/// The block folds of `b`, in the order they close.
pub open spec fn block_folds(b: Seq<u8>) -> Seq<(int, int)> {
    block_state(b, text_line_count(b)).1
}

/// The lines among the first `n` of `b` that hold `見出し］`.
pub open spec fn anchors(b: Seq<u8>, n: int) -> Seq<int>
    decreases n,
{
    if n <= 0 {
        seq![]
    } else {
        let (s, e) = line_span(b, n - 1);
        if first_match_from(b, s, e, heading_marker()) is Some {
            anchors(b, n - 1).push(n - 1)
        } else {
            anchors(b, n - 1)
        }
    }
}

/// Folds from each anchor to the line before the next one, where that
/// spans more than the anchor line.
pub open spec fn pair_folds(a: Seq<int>) -> Seq<(int, int)>
    decreases a.len(),
{
    if a.len() < 2 {
        seq![]
    } else {
        let start = a[a.len() - 2];
        let end = a.last() - 1;
        pair_folds(a.drop_last()) + if end > start {
            seq![(start, end)]
        } else {
            seq![]
        }
    }
}

/// The heading folds of `b`: anchor to anchor, then the last anchor to
/// the last line.
pub open spec fn heading_folds(b: Seq<u8>) -> Seq<(int, int)> {
    let a = anchors(b, text_line_count(b));
    let last_line = if text_line_count(b) > 0 {
        text_line_count(b) - 1
    } else {
        0
    };
    pair_folds(a) + if a.len() > 0 && last_line > a.last() {
        seq![(a.last(), last_line)]
    } else {
        seq![]
    }
}

/// Number of leading items of sorted `s` whose start is at most `key`.
pub open spec fn insertion_index(s: Seq<(int, int)>, key: int) -> int
    decreases s.len(),
{
    if s.len() == 0 || s[0].0 > key {
        0
    } else {
        1 + insertion_index(s.drop_first(), key)
    }
}

/// `s` stably sorted by start: each item inserted after every earlier
/// one whose start is not greater.
pub open spec fn stable_sorted(s: Seq<(int, int)>) -> Seq<(int, int)>
    decreases s.len(),
{
    if s.len() == 0 {
        seq![]
    } else {
        let r = stable_sorted(s.drop_last());
        r.insert(insertion_index(r, s.last().0), s.last())
    }
}

/// The folds of `b`: block folds then heading folds, stably sorted by
/// start line.
pub open spec fn folds_spec(b: Seq<u8>) -> Seq<(int, int)> {
    stable_sorted(block_folds(b) + heading_folds(b))
}

/// The folds of `v` as `(start, end)` pairs.
pub open spec fn folds_view(v: Seq<FoldingRange>) -> Seq<(int, int)> {
    v.map_values(|r: FoldingRange| (r.start_line as int, r.end_line as int))
}

/// The open-line stack as integers.
pub open spec fn stack_view(v: Seq<u32>) -> Seq<int> {
    v.map_values(|x: u32| x as int)
}

/// `spans` are the line spans of `b`.
pub open spec fn spans_of(spans: Seq<(usize, usize)>, b: Seq<u8>) -> bool {
    &&& spans.len() == text_line_count(b)
    &&& forall|k: int| 0 <= k < spans.len() ==> (#[trigger] spans[k]).0 == line_span(b, k).0
        && spans[k].1 == line_span(b, k).1
}

proof fn lemma_span_bounds(b: Seq<u8>, k: int)
    requires
        0 <= k < text_line_count(b),
    ensures
        0 <= line_span(b, k).0 <= line_span(b, k).1 <= b.len(),
{
    crate::lines::lemma_line_starts_shape(b);
    crate::lines::lemma_line_starts_len(b);
    crate::position::lemma_line_end_boundary(b, line_span(b, k).0);
}

/// Pair container openers with closers, line by line.
fn block_ranges(bytes: &[u8], spans: &Vec<(usize, usize)>) -> (out: Vec<FoldingRange>)
    requires
        spans_of(spans@, bytes@),
        spans@.len() <= u32::MAX,
    ensures
        folds_view(out@) == block_folds(bytes@),
        all_regions(out@),
{
    let ghost b = bytes@;
    let open = open_marker_bytes();
    let close = close_marker_bytes();
    let mut stack: Vec<u32> = Vec::new();
    let mut out: Vec<FoldingRange> = Vec::new();
    let mut k: usize = 0;
    proof {
        assert(stack_view(stack@) =~= seq![]);
        assert(folds_view(out@) =~= seq![]);
    }
    while k < spans.len()
        invariant
            b == bytes@,
            open@ == open_marker(),
            close@ == close_marker(),
            spans_of(spans@, b),
            spans@.len() <= u32::MAX,
            k <= spans@.len(),
            stack_view(stack@) == block_state(b, k as int).0,
            folds_view(out@) == block_state(b, k as int).1,
            all_regions(out@),
            forall|i: int| 0 <= i < stack@.len() ==> stack@[i] < k,
        decreases spans@.len() - k,
    {
        let (s, e) = spans[k];
        proof {
            lemma_span_bounds(b, k as int);
        }
        let n_open = count_matches(bytes, s, e, open.as_slice());
        let n_close = count_matches(bytes, s, e, close.as_slice());
        let ghost st0 = stack_view(stack@);
        let mut j: usize = 0;
        while j < n_open
            invariant
                j <= n_open,
                k < spans@.len() <= u32::MAX,
                stack_view(stack@) == push_n(st0, k as int, j as nat),
                forall|i: int| 0 <= i < stack@.len() ==> stack@[i] <= k,
            decreases n_open - j,
        {
            let ghost before = stack@;
            stack.push(k as u32);
            proof {
                assert(stack_view(stack@) =~= stack_view(before).push(k as int));
                assert(push_n(st0, k as int, (j + 1) as nat) =~= push_n(st0, k as int, j as nat).push(
                    k as int,
                ));
            }
            j += 1;
        }
        let ghost target = pop_closes(push_n(st0, k as int, n_open as nat), folds_view(out@), k as int, n_close as nat);
        let mut j: usize = 0;
        while j < n_close
            invariant
                j <= n_close,
                k < spans@.len() <= u32::MAX,
                target == pop_closes(stack_view(stack@), folds_view(out@), k as int, (n_close - j) as nat),
                all_regions(out@),
                forall|i: int| 0 <= i < stack@.len() ==> stack@[i] <= k,
            decreases n_close - j,
        {
            let ghost sv = stack@;
            match stack.pop() {
                Some(top) => {
                    let ghost before = out@;
                    if top < k as u32 {
                        out.push(FoldingRange { start_line: top, end_line: k as u32, kind: Some(FoldingRangeKind::Region) });
                        proof {
                            assert(folds_view(out@) =~= folds_view(before).push((top as int, k as int)));
                        }
                    }
                    proof {
                        assert(stack_view(stack@) =~= stack_view(sv).drop_last());
                        assert(stack_view(sv).last() == top as int);
                    }
                },
                None => {},
            }
            j += 1;
        }
        k += 1;
        proof {
            assert(block_state(b, k as int) == target);
            assert forall|i: int| 0 <= i < stack@.len() implies stack@[i] < k by {}
        }
    }
    out
}

/// Pair every heading line with the next one (or the last line).
fn heading_ranges(bytes: &[u8], spans: &Vec<(usize, usize)>) -> (out: Vec<FoldingRange>)
    requires
        spans_of(spans@, bytes@),
        spans@.len() <= u32::MAX,
    ensures
        folds_view(out@) == heading_folds(bytes@),
        all_regions(out@),
{
    let ghost b = bytes@;
    let marker = heading_marker_bytes();
    let mut anchors_v: Vec<u32> = Vec::new();
    let mut k: usize = 0;
    proof {
        assert(stack_view(anchors_v@) =~= anchors(b, 0));
    }
    while k < spans.len()
        invariant
            b == bytes@,
            marker@ == heading_marker(),
            spans_of(spans@, b),
            spans@.len() <= u32::MAX,
            k <= spans@.len(),
            stack_view(anchors_v@) == anchors(b, k as int),
        decreases spans@.len() - k,
    {
        let (s, e) = spans[k];
        proof {
            lemma_span_bounds(b, k as int);
        }
        if find_bytes(bytes, s, e, marker.as_slice()).is_some() {
            let ghost before = anchors_v@;
            anchors_v.push(k as u32);
            proof {
                assert(stack_view(anchors_v@) =~= stack_view(before).push(k as int));
            }
        }
        k += 1;
    }
    let ghost a = stack_view(anchors_v@);
    let mut out: Vec<FoldingRange> = Vec::new();
    if anchors_v.len() > 0 {
        let mut i: usize = 1;
        proof {
            assert(folds_view(out@) =~= pair_folds(a.take(1)));
        }
        while i < anchors_v.len()
            invariant
                a == stack_view(anchors_v@),
                1 <= i <= anchors_v@.len(),
                folds_view(out@) == pair_folds(a.take(i as int)),
                all_regions(out@),
            decreases anchors_v@.len() - i,
        {
            let start = anchors_v[i - 1];
            let next = anchors_v[i];
            let end = if next >= 1 {
                next - 1
            } else {
                0
            };
            let ghost before = out@;
            proof {
                assert(a.take(i + 1).drop_last() =~= a.take(i as int));
                assert(a.take(i + 1)[i - 1] == start as int);
                assert(a.take(i + 1).last() == next as int);
            }
            if end > start {
                out.push(FoldingRange { start_line: start, end_line: end, kind: Some(FoldingRangeKind::Region) });
                proof {
                    assert(folds_view(out@) =~= folds_view(before).push((start as int, end as int)));
                }
            }
            proof {
                assert(folds_view(out@) =~= pair_folds(a.take(i + 1)));
            }
            i += 1;
        }
        proof {
            assert(a.take(anchors_v@.len() as int) =~= a);
        }
    } else {
        proof {
            assert(folds_view(out@) =~= pair_folds(a));
        }
    }
    let n_lines = spans.len();
    let last_line: u32 = if n_lines > 0 {
        (n_lines - 1) as u32
    } else {
        0
    };
    if anchors_v.len() > 0 {
        let last_anchor = anchors_v[anchors_v.len() - 1];
        if last_line > last_anchor {
            let ghost before = out@;
            out.push(FoldingRange { start_line: last_anchor, end_line: last_line, kind: Some(FoldingRangeKind::Region) });
            proof {
                assert(folds_view(out@) =~= folds_view(before).push((last_anchor as int, last_line as int)));
            }
        }
    }
    proof {
        assert(folds_view(out@) =~= heading_folds(b));
    }
    out
}

/// Insert each fold after every earlier one whose start is not greater.
fn stable_sort_by_start(v: Vec<FoldingRange>) -> (r: Vec<FoldingRange>)
    requires
        all_regions(v@),
    ensures
        folds_view(r@) == stable_sorted(folds_view(v@)),
        all_regions(r@),
{
    let mut r: Vec<FoldingRange> = Vec::new();
    let mut i: usize = 0;
    proof {
        assert(folds_view(v@).take(0) =~= seq![]);
        assert(folds_view(r@) =~= seq![]);
    }
    while i < v.len()
        invariant
            i <= v@.len(),
            folds_view(r@) == stable_sorted(folds_view(v@).take(i as int)),
            all_regions(v@),
            all_regions(r@),
        decreases v@.len() - i,
    {
        let x = v[i];
        let ghost rv = folds_view(r@);
        let mut j: usize = 0;
        proof {
            assert(rv.subrange(0, rv.len() as int) =~= rv);
        }
        while j < r.len() && r[j].start_line <= x.start_line
            invariant
                j <= r@.len(),
                rv == folds_view(r@),
                all_regions(r@),
                insertion_index(rv, x.start_line as int) == j + insertion_index(
                    rv.subrange(j as int, rv.len() as int),
                    x.start_line as int,
                ),
            decreases r@.len() - j,
        {
            proof {
                assert(rv.subrange(j as int, rv.len() as int).drop_first() =~= rv.subrange(
                    j + 1,
                    rv.len() as int,
                ));
            }
            j += 1;
        }
        proof {
            if j < r@.len() {
                assert(rv.subrange(j as int, rv.len() as int)[0] == rv[j as int]);
            }
            assert(insertion_index(rv, x.start_line as int) == j);
            let s = folds_view(v@).take(i + 1);
            assert(s.drop_last() =~= folds_view(v@).take(i as int));
            assert(s.last() == (x.start_line as int, x.end_line as int));
        }
        let ghost before = r@;
        r.insert(j, x);
        proof {
            assert(folds_view(r@) =~= rv.insert(j as int, (x.start_line as int, x.end_line as int)));
        }
        i += 1;
    }
    proof {
        assert(folds_view(v@).take(v@.len() as int) =~= folds_view(v@));
    }
    r
}

/// `s` is sorted by start.
pub open spec fn sorted_by_start(s: Seq<(int, int)>) -> bool {
    forall|i: int, j: int| 0 <= i < j < s.len() ==> s[i].0 <= s[j].0
}

proof fn lemma_insertion_index(s: Seq<(int, int)>, key: int)
    requires
        sorted_by_start(s),
    ensures
        0 <= insertion_index(s, key) <= s.len(),
        forall|i: int| 0 <= i < insertion_index(s, key) ==> s[i].0 <= key,
        forall|i: int| insertion_index(s, key) <= i < s.len() ==> s[i].0 > key,
    decreases s.len(),
{
    if s.len() > 0 && s[0].0 <= key {
        assert(sorted_by_start(s.drop_first()));
        lemma_insertion_index(s.drop_first(), key);
        let t = s.drop_first();
        assert forall|i: int| 0 <= i < insertion_index(s, key) implies s[i].0 <= key by {
            if i > 0 {
                assert(s[i] == t[i - 1]);
            }
        }
        assert forall|i: int| insertion_index(s, key) <= i < s.len() implies s[i].0 > key by {
            assert(s[i] == t[i - 1]);
        }
    }
}

/// A stable sort by start is sorted by start.
pub proof fn lemma_stable_sorted_sorted(s: Seq<(int, int)>)
    ensures
        sorted_by_start(stable_sorted(s)),
        stable_sorted(s).len() == s.len(),
    decreases s.len(),
{
    if s.len() > 0 {
        let r = stable_sorted(s.drop_last());
        lemma_stable_sorted_sorted(s.drop_last());
        let x = s.last();
        lemma_insertion_index(r, x.0);
        let k = insertion_index(r, x.0);
        let t = r.insert(k, x);
        assert forall|i: int, j: int| 0 <= i < j < t.len() implies t[i].0 <= t[j].0 by {
            if j < k {
                assert(t[i] == r[i] && t[j] == r[j]);
            } else if j == k {
                assert(t[i] == r[i]);
            } else if i < k {
                assert(t[i] == r[i] && t[j] == r[j - 1]);
            } else if i == k {
                assert(t[j] == r[j - 1]);
            } else {
                assert(t[i] == r[i - 1] && t[j] == r[j - 1]);
            }
        }
    }
}

/// Every folding range of `source`, sorted (stably) by start line.
pub fn folding_ranges(source: &str) -> (out: Vec<FoldingRange>)
    requires
        source.spec_bytes().len() <= u32::MAX,
    ensures
        folds_view(out@) == folds_spec(source.spec_bytes()),
        sorted_by_start(folds_view(out@)),
        all_regions(out@),
{
    let bytes = source.as_bytes();
    let spans = line_spans(bytes);
    proof {
        let b = bytes@;
        crate::line_index::lemma_text_line_count_bound(b);
    }
    let mut out = block_ranges(bytes, &spans);
    let mut heads = heading_ranges(bytes, &spans);
    let ghost bv = out@;
    let ghost hv = heads@;
    out.append(&mut heads);
    proof {
        assert(folds_view(out@) =~= folds_view(bv) + folds_view(hv));
    }
    let r = stable_sort_by_start(out);
    proof {
        lemma_stable_sorted_sorted(block_folds(bytes@) + heading_folds(bytes@));
    }
    r
}

} // verus!

//! Gaiji spans: one `※［＃description、mencode］` occurrence as plain
//! values, how a slug body splits into description and mencode, the
//! walk over a syntax tree's nodes that finds them, and the range query
//! over spans sorted by position.

use vstd::prelude::*;
use vstd::string::*;
use vstd::slice::slice_subrange;

use vstd::utf8::*;

use crate::chars::{chars_of, find_char, index_of_char, lemma_index_of_char, trim_chars, trim_spec};
use crate::hover::{gaiji_close, gaiji_close_bytes, gaiji_open, gaiji_open_bytes};
use crate::incremental::{node_kind_id, ts_kind_id, IncrementalDoc, NodeInfo};
use crate::paragraph::is_byte_char_boundary;
use crate::utf8_bytes::{at_boundary, bytes_match_at, lemma_boundary_iff, lemma_str_valid, matches_at, substr};

verus! {

/// One `※［＃description、mencode］` occurrence.
#[derive(Debug, Clone, PartialEq, Eq)]
pub struct GaijiSpan {
    /// Byte offset of the leading `※`.
    pub start_byte: u32,
    /// Byte offset just past the closing `］`.
    pub end_byte: u32,
    /// The description, brackets stripped.
    pub description: String,
    /// The mencode tail, when the source has a non-empty one.
    pub mencode: Option<String>,
}

/// `「` or `」`.
pub open spec fn is_quote(c: char) -> bool {
    c == '「' || c == '」'
}

/// How many quote chars `s` starts with.
pub open spec fn leading_quotes(s: Seq<char>) -> nat
    decreases s.len(),
{
    if s.len() == 0 || !is_quote(s[0]) {
        0
    } else {
        1 + leading_quotes(s.drop_first())
    }
}

/// How many quote chars `s` ends with.
pub open spec fn trailing_quotes(s: Seq<char>) -> nat
    decreases s.len(),
{
    if s.len() == 0 || !is_quote(s.last()) {
        0
    } else {
        1 + trailing_quotes(s.drop_last())
    }
}

/// `s` with every leading and trailing `「` / `」` removed.
pub open spec fn strip_quotes(s: Seq<char>) -> Seq<char> {
    if leading_quotes(s) == s.len() {
        seq![]
    } else {
        s.subrange(leading_quotes(s) as int, s.len() - trailing_quotes(s))
    }
}

proof fn lemma_leading_quotes(s: Seq<char>, i: int)
    requires
        0 <= i <= s.len(),
        forall|k: int| 0 <= k < i ==> is_quote(#[trigger] s[k]),
        i == s.len() || !is_quote(s[i]),
    ensures
        leading_quotes(s) == i,
    decreases i,
{
    if i > 0 {
        assert forall|k: int| 0 <= k < i - 1 implies is_quote(#[trigger] s.drop_first()[k]) by {
            assert(s.drop_first()[k] == s[k + 1]);
        }
        lemma_leading_quotes(s.drop_first(), i - 1);
    }
}

proof fn lemma_trailing_quotes(s: Seq<char>, j: int)
    requires
        0 <= j <= s.len(),
        forall|k: int| j <= k < s.len() ==> is_quote(#[trigger] s[k]),
        j == 0 || !is_quote(s[j - 1]),
    ensures
        trailing_quotes(s) == s.len() - j,
    decreases s.len() - j,
{
    if j < s.len() {
        lemma_trailing_quotes(s.drop_last(), j);
    }
}

/// `s` with its surrounding `「` / `」` removed.
fn strip_quote_chars<'a>(s: &'a str) -> (r: &'a str)
    ensures
        r@ == strip_quotes(s@),
{
    let cs = chars_of(s);
    let n = cs.len();
    let mut i: usize = 0;
    while i < n && (cs[i] == '「' || cs[i] == '」')
        invariant
            cs@ == s@,
            n == cs@.len(),
            i <= n,
            forall|k: int| 0 <= k < i ==> is_quote(#[trigger] cs@[k]),
        decreases n - i,
    {
        i += 1;
    }
    proof {
        lemma_leading_quotes(s@, i as int);
    }
    if i == n {
        return s.substring_char(0, 0);
    }
    let mut j: usize = n;
    while j > i && (cs[j - 1] == '「' || cs[j - 1] == '」')
        invariant
            cs@ == s@,
            n == cs@.len(),
            i < j <= n,
            i < n,
            !is_quote(cs@[i as int]),
            forall|k: int| j <= k < n ==> is_quote(#[trigger] cs@[k]),
        decreases j,
    {
        j -= 1;
    }
    proof {
        lemma_trailing_quotes(s@, j as int);
    }
    s.substring_char(i, j)
}

/// How a slug body splits: the first `、` delimits the description from
/// the mencode (both trimmed); without one the whole body is the
/// description. The description then loses surrounding whitespace and
/// `「` / `」`; an empty mencode counts as absent.
pub open spec fn parse_body_spec(body: Seq<char>) -> (Seq<char>, Option<Seq<char>>) {
    let i = index_of_char(body, '、');
    let description = if i == body.len() {
        body
    } else {
        trim_spec(body.subrange(0, i))
    };
    let mencode = if i == body.len() {
        None
    } else {
        let tail = trim_spec(body.subrange(i + 1, body.len() as int));
        if tail.len() == 0 {
            None
        } else {
            Some(tail)
        }
    };
    (strip_quotes(trim_spec(description)), mencode)
}

proof fn lemma_index_bound(s: Seq<char>, c: char)
    ensures
        0 <= index_of_char(s, c) <= s.len(),
        index_of_char(s, c) < s.len() ==> s[index_of_char(s, c)] == c,
    decreases s.len(),
{
    if s.len() > 0 && s[0] != c {
        lemma_index_bound(s.drop_first(), c);
        if index_of_char(s.drop_first(), c) < s.drop_first().len() {
            assert(s[index_of_char(s, c)] == s.drop_first()[index_of_char(s.drop_first(), c)]);
        }
    }
}

/// Split a slug body into `(description, mencode)`.
pub fn parse_body(body: &str) -> (r: (String, Option<String>))
    ensures
        r.0@ == parse_body_spec(body@).0,
        match (r.1, parse_body_spec(body@).1) {
            (Some(m), Some(t)) => m@ == t,
            (None, None) => true,
            _ => false,
        },
{
    let cs = chars_of(body);
    let n = cs.len();
    let i = find_char(&cs, '、');
    proof {
        lemma_index_bound(body@, '、');
    }
    if i == n {
        let d = strip_quote_chars(trim_chars(body));
        return (String::from_str(d), None);
    }
    let head = trim_chars(body.substring_char(0, i));
    let tail = trim_chars(body.substring_char(i + 1, n));
    let d = strip_quote_chars(trim_chars(head));
    let tail_len = tail.unicode_len();
    let mencode = if tail_len == 0 {
        None
    } else {
        Some(String::from_str(tail))
    };
    (String::from_str(d), mencode)
}

/// `n` as a `u32`, saturating.
pub open spec fn saturate_u32(n: nat) -> u32 {
    if n <= u32::MAX {
        n as u32
    } else {
        u32::MAX
    }
}

/// The span of a gaiji node covering bytes `start..end` whose slug body
/// reads `body`.
pub fn build_span(start: usize, end: usize, body: &str) -> (s: GaijiSpan)
    ensures
        s.start_byte == saturate_u32(start as nat),
        s.end_byte == saturate_u32(end as nat),
        s.description@ == parse_body_spec(body@).0,
        match (s.mencode, parse_body_spec(body@).1) {
            (Some(m), Some(t)) => m@ == t,
            (None, None) => true,
            _ => false,
        },
{
    let (description, mencode) = parse_body(body);
    let start_byte: u32 = if start <= 0xffff_ffffusize {
        start as u32
    } else {
        u32::MAX
    };
    let end_byte: u32 = if end <= 0xffff_ffffusize {
        end as u32
    } else {
        u32::MAX
    };
    GaijiSpan { start_byte, end_byte, description, mencode }
}

/// Spans ordered by position: starts and ends never decrease.
pub open spec fn spans_ordered(spans: Seq<GaijiSpan>) -> bool {
    forall|i: int, j: int|
        0 <= i <= j < spans.len() ==> spans[i].start_byte <= spans[j].start_byte
            && spans[i].end_byte <= spans[j].end_byte
}

/// How many leading spans start before `end` (the spans ordered).
pub open spec fn started_before(spans: Seq<GaijiSpan>, end: u32) -> int
    decreases spans.len(),
{
    if spans.len() == 0 || spans[0].start_byte >= end {
        0
    } else {
        1 + started_before(spans.drop_first(), end)
    }
}

/// The count lies within the list.
pub proof fn lemma_counts_bounded(spans: Seq<GaijiSpan>, x: u32)
    ensures
        0 <= started_before(spans, x) <= spans.len(),
    decreases spans.len(),
{
    if spans.len() > 0 {
        lemma_counts_bounded(spans.drop_first(), x);
    }
}

proof fn lemma_started_before(spans: Seq<GaijiSpan>, end: u32, k: int)
    requires
        spans_ordered(spans),
        0 <= k <= spans.len(),
        forall|i: int| 0 <= i < k ==> (#[trigger] spans[i]).start_byte < end,
        k == spans.len() || spans[k].start_byte >= end,
    ensures
        started_before(spans, end) == k,
    decreases k,
{
    if k > 0 {
        let t = spans.drop_first();
        assert forall|i: int, j: int| 0 <= i <= j < t.len() implies t[i].start_byte <= t[j].start_byte
            && t[i].end_byte <= t[j].end_byte by {
            assert(t[i] == spans[i + 1] && t[j] == spans[j + 1]);
        }
        assert forall|i: int| 0 <= i < k - 1 implies (#[trigger] t[i]).start_byte < end by {
            assert(t[i] == spans[i + 1]);
        }
        lemma_started_before(t, end, k - 1);
    }
}

/// The first index at which `start_byte >= end` (binary search).
fn partition_started(spans: &[GaijiSpan], end: u32) -> (k: usize)
    requires
        spans_ordered(spans@),
    ensures
        k == started_before(spans@, end),
        k <= spans@.len(),
        forall|i: int| 0 <= i < spans@.len() ==> (i < k <==> (#[trigger] spans@[i]).start_byte < end),
{
    let mut lo: usize = 0;
    let mut hi: usize = spans.len();
    while lo < hi
        invariant
            spans_ordered(spans@),
            0 <= lo <= hi <= spans@.len(),
            forall|i: int| 0 <= i < lo ==> (#[trigger] spans@[i]).start_byte < end,
            forall|i: int| hi <= i < spans@.len() ==> (#[trigger] spans@[i]).start_byte >= end,
        decreases hi - lo,
    {
        let mid = lo + (hi - lo) / 2;
        if spans[mid].start_byte < end {
            proof {
                assert forall|i: int| 0 <= i < mid + 1 implies (#[trigger] spans@[i]).start_byte < end by {
                    assert(spans@[i].start_byte <= spans@[mid as int].start_byte);
                }
            }
            lo = mid + 1;
        } else {
            proof {
                assert forall|i: int| mid <= i < spans@.len() implies (#[trigger] spans@[i]).start_byte >= end by {
                    assert(spans@[mid as int].start_byte <= spans@[i].start_byte);
                }
            }
            hi = mid;
        }
    }
    proof {
        lemma_started_before(spans@, end, lo as int);
    }
    lo
}

/// The spans whose `start_byte` lies in `[start_byte, end_byte)` (both
/// bounds saturated to `u32`): from the first that starts at or after
/// `start_byte` up to (not including) the first that starts at or after
/// `end_byte`.
pub fn spans_in_byte_range(spans: &[GaijiSpan], start_byte: usize, end_byte: usize) -> (r: &[GaijiSpan])
    requires
        spans_ordered(spans@),
    ensures
        ({
            let lo = started_before(spans@, saturate_u32(start_byte as nat));
            let hi = started_before(spans@, saturate_u32(end_byte as nat));
            &&& r@ == spans@.subrange(lo, if hi > lo { hi } else { lo })
            &&& forall|i: int|
                0 <= i < spans@.len() ==> ((lo <= i < (if hi > lo { hi } else { lo }))
                    <==> (saturate_u32(start_byte as nat) <= (#[trigger] spans@[i]).start_byte
                    < saturate_u32(end_byte as nat)))
        }),
{
    let start: u32 = if start_byte <= 0xffff_ffffusize {
        start_byte as u32
    } else {
        u32::MAX
    };
    let end: u32 = if end_byte <= 0xffff_ffffusize {
        end_byte as u32
    } else {
        u32::MAX
    };
    let lo = partition_started(spans, start);
    let hi = partition_started(spans, end);
    let hi = if hi > lo {
        hi
    } else {
        lo
    };
    slice_subrange(spans, lo, hi)
}


/// The span `build_span` makes of a gaiji node covering `start..end`
/// whose body reads `body`.
pub open spec fn span_built(s: GaijiSpan, start: int, end: int, body: Seq<char>) -> bool {
    &&& s.start_byte == saturate_u32(start as nat)
    &&& s.end_byte == saturate_u32(end as nat)
    &&& s.description@ == parse_body_spec(body).0
    &&& match (s.mencode, parse_body_spec(body).1) {
        (Some(m), Some(t)) => m@ == t,
        (None, None) => true,
        _ => false,
    }
}

/// A gaiji node covering `s..e` of `text` reads `※［＃body］`: it lies in
/// the text, opens with `※［＃`, closes with `］`, and its body starts and
/// ends on char boundaries.
pub open spec fn gaiji_body_in(text: Seq<u8>, s: int, e: int) -> bool {
    &&& 0 <= s
    &&& s + 12 <= e <= text.len()
    &&& matches_at(text, s, gaiji_open())
    &&& matches_at(text, e - 3, gaiji_close())
    &&& at_boundary(text, s + 9)
    &&& at_boundary(text, e - 3)
}

/// Walking `nodes` in order, the gaiji nodes (kind `gaiji`) whose text
/// reads `※［＃body］`, each as its byte range and body.
pub open spec fn gaiji_hits(text: Seq<u8>, nodes: Seq<NodeInfo>, gaiji: u16) -> Seq<(int, int, Seq<char>)>
    decreases nodes.len(),
{
    if nodes.len() == 0 {
        seq![]
    } else {
        let prev = gaiji_hits(text, nodes.drop_last(), gaiji);
        let n = nodes.last();
        let (s, e) = (n.start_byte as int, n.end_byte as int);
        if n.kind_id == gaiji && gaiji_body_in(text, s, e) {
            prev.push((s, e, decode_utf8(text.subrange(s + 9, e - 3))))
        } else {
            prev
        }
    }
}

/// The spans `gaiji_hits` describes, each moved by `base` bytes.
pub open spec fn spans_match_hits(spans: Seq<GaijiSpan>, hits: Seq<(int, int, Seq<char>)>, base: int) -> bool {
    &&& spans.len() == hits.len()
    &&& forall|i: int|
        0 <= i < hits.len() ==> span_built(#[trigger] spans[i], base + hits[i].0, base + hits[i].1, hits[i].2)
}

/// Every gaiji span among `nodes` (a syntax tree of `text`, in document
/// order), with byte offsets moved by `base`, for the grammar's gaiji
/// kind id `gaiji`. A gaiji node is a leaf whose text reads
/// `※［＃body］`; its body splits as [`parse_body`] does. A node whose
/// range does not read so is passed over.
pub fn gaiji_spans_with_kind(text: &str, nodes: &[NodeInfo], base: usize, gaiji: u16) -> (r: Vec<GaijiSpan>)
    ensures
        spans_match_hits(r@, gaiji_hits(text.spec_bytes(), nodes@, gaiji), base as int),
{
    let bytes = text.as_bytes();
    let open = gaiji_open_bytes();
    let close = gaiji_close_bytes();
    proof {
        lemma_str_valid(text);
    }
    let mut out: Vec<GaijiSpan> = Vec::new();
    let mut i: usize = 0;
    while i < nodes.len()
        invariant
            i <= nodes@.len(),
            bytes@ == text.spec_bytes(),
            valid_utf8(bytes@),
            open@ == gaiji_open(),
            close@ == gaiji_close(),
            spans_match_hits(out@, gaiji_hits(bytes@, nodes@.take(i as int), gaiji), base as int),
        decreases nodes@.len() - i,
    {
        let n = nodes[i];
        let s = n.start_byte;
        let e = n.end_byte;
        proof {
            assert(nodes@.take(i + 1).drop_last() =~= nodes@.take(i as int));
            assert(nodes@.take(i + 1).last() == n);
        }
        let ghost prev = gaiji_hits(bytes@, nodes@.take(i as int), gaiji);
        if n.kind_id == gaiji && s <= bytes.len() && 12 <= bytes.len() - s && s + 12 <= e
            && e <= bytes.len() && bytes_match_at(bytes, s, open.as_slice())
            && bytes_match_at(bytes, e - 3, close.as_slice()) && is_byte_char_boundary(bytes, s + 9)
            && is_byte_char_boundary(bytes, e - 3) {
            proof {
                lemma_boundary_iff(bytes@, s + 9);
                lemma_boundary_iff(bytes@, e - 3);
            }
            let body = substr(text, s + 9, e - 3);
            proof {
                encode_utf8_decode_utf8(body@);
            }
            let span = build_span(base.saturating_add(s), base.saturating_add(e), body);
            let ghost before = out@;
            out.push(span);
            proof {
                let hits = gaiji_hits(bytes@, nodes@.take(i + 1), gaiji);
                assert(hits == prev.push((s as int, e as int, body@)));
                assert forall|k: int| 0 <= k < hits.len() implies span_built(
                    #[trigger] out@[k],
                    base + hits[k].0,
                    base + hits[k].1,
                    hits[k].2,
                ) by {
                    if k < prev.len() {
                        assert(out@[k] == before[k]);
                    }
                }
            }
        } else {
            proof {
                let hits = gaiji_hits(bytes@, nodes@.take(i + 1), gaiji);
                assert(hits == prev);
            }
        }
        i = i + 1;
    }
    proof {
        assert(nodes@.take(nodes@.len() as int) =~= nodes@);
    }
    out
}

/// Node starts never decrease along `nodes`.
pub open spec fn starts_ascend(nodes: Seq<NodeInfo>) -> bool {
    forall|i: int, j: int| 0 <= i <= j < nodes.len() ==> nodes[i].start_byte <= nodes[j].start_byte
}

proof fn lemma_hits_follow_nodes(text: Seq<u8>, nodes: Seq<NodeInfo>, gaiji: u16)
    requires
        starts_ascend(nodes),
    ensures
        forall|k: int|
            0 <= k < gaiji_hits(text, nodes, gaiji).len() ==> exists|p: int|
                0 <= p < nodes.len() && #[trigger] gaiji_hits(text, nodes, gaiji)[k].0
                    == nodes[p].start_byte,
        forall|i: int, j: int|
            0 <= i <= j < gaiji_hits(text, nodes, gaiji).len() ==> gaiji_hits(text, nodes, gaiji)[i].0
                <= gaiji_hits(text, nodes, gaiji)[j].0,
    decreases nodes.len(),
{
    if nodes.len() > 0 {
        let u = nodes.drop_last();
        let n = nodes.len() - 1;
        assert forall|i: int, j: int| 0 <= i <= j < u.len() implies u[i].start_byte <= u[j].start_byte by {
            assert(u[i] == nodes[i] && u[j] == nodes[j]);
        }
        lemma_hits_follow_nodes(text, u, gaiji);
        let prev = gaiji_hits(text, u, gaiji);
        let hits = gaiji_hits(text, nodes, gaiji);
        assert forall|k: int| 0 <= k < prev.len() implies exists|p: int|
            0 <= p < nodes.len() && #[trigger] prev[k].0 == nodes[p].start_byte && prev[k].0
                <= nodes[n].start_byte by {
            let p = choose|p: int| 0 <= p < u.len() && #[trigger] prev[k].0 == u[p].start_byte;
            assert(u[p] == nodes[p]);
        }
        if hits != prev {
            assert(hits == prev.push(hits[hits.len() - 1]));
            assert(hits[hits.len() - 1].0 == nodes[n].start_byte);
            assert forall|k: int| 0 <= k < hits.len() implies exists|p: int|
                0 <= p < nodes.len() && #[trigger] hits[k].0 == nodes[p].start_byte by {
                if k < prev.len() {
                    assert(hits[k] == prev[k]);
                } else {
                    assert(hits[k].0 == nodes[n].start_byte);
                }
            }
            assert forall|i: int, j: int| 0 <= i <= j < hits.len() implies hits[i].0 <= hits[j].0 by {
                if j < prev.len() {
                    assert(hits[i] == prev[i] && hits[j] == prev[j]);
                } else if i < prev.len() {
                    assert(hits[i] == prev[i]);
                }
            }
        }
    }
}

/// Spans read off nodes in document order come out in document order:
/// when the nodes' starts never decrease, neither do the starts of the
/// spans found among them.
pub proof fn law_spans_follow_node_order(
    text: Seq<u8>,
    nodes: Seq<NodeInfo>,
    gaiji: u16,
    spans: Seq<GaijiSpan>,
    base: int,
)
    requires
        starts_ascend(nodes),
        spans_match_hits(spans, gaiji_hits(text, nodes, gaiji), base),
        base >= 0,
    ensures
        forall|i: int, j: int| 0 <= i <= j < spans.len() ==> spans[i].start_byte <= spans[j].start_byte,
{
    let hits = gaiji_hits(text, nodes, gaiji);
    lemma_hits_follow_nodes(text, nodes, gaiji);
    assert forall|i: int, j: int| 0 <= i <= j < spans.len() implies spans[i].start_byte
        <= spans[j].start_byte by {
        assert(span_built(spans[i], base + hits[i].0, base + hits[i].1, hits[i].2));
        assert(span_built(spans[j], base + hits[j].0, base + hits[j].1, hits[j].2));
        let p = choose|p: int| 0 <= p < nodes.len() && #[trigger] hits[i].0 == nodes[p].start_byte;
        assert(hits[i].0 >= 0);
        assert(hits[i].0 <= hits[j].0);
    }
}

/// The grammar's id for gaiji nodes.
pub open spec fn gaiji_kind() -> u16 {
    ts_kind_id(seq!['g', 'a', 'i', 'j', 'i'])
}

/// Every gaiji span among `nodes`, a syntax tree of `text` in document
/// order, with byte offsets moved by `base`.
pub fn gaiji_spans_of_nodes(text: &str, nodes: &[NodeInfo], base: usize) -> (r: Vec<GaijiSpan>)
    ensures
        spans_match_hits(r@, gaiji_hits(text.spec_bytes(), nodes@, gaiji_kind()), base as int),
{
    let gaiji = node_kind_id("gaiji");
    proof {
        reveal_strlit("gaiji");
        assert("gaiji"@ =~= seq!['g', 'a', 'i', 'j', 'i']);
    }
    gaiji_spans_with_kind(text, nodes, base, gaiji)
}

/// Every gaiji span of the document's current tree, in source order,
/// with offsets into its text; none before the first parse.
pub fn extract_gaiji_spans_from_tree(doc: &IncrementalDoc) -> (r: Vec<GaijiSpan>)
    ensures
        match doc.nodes() {
            Some(n) => spans_match_hits(r@, gaiji_hits(encode_utf8(doc.text_view()), n, gaiji_kind()), 0),
            None => r@.len() == 0,
        },
{
    match doc.with_tree() {
        Some(nodes) => gaiji_spans_of_nodes(doc.text(), nodes.as_slice(), 0),
        None => Vec::new(),
    }
}

} // verus!

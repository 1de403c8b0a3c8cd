//! The document outline: every line declaring a heading (`大見出し` /
//! `中見出し` / `小見出し`) becomes a symbol titled from its quoted text
//! or the text after its slug, and the symbols nest by level — a
//! heading's children are the headings after it up to the next one of
//! the same or a higher level.

use vstd::prelude::*;
use vstd::string::*;
use vstd::utf8::*;

use crate::chars::{chars_of, find_char, index_of_char, trim_chars, trim_spec};
use crate::line_index::{line_span, line_spans, text_line_count, LineIndex};
use crate::position::{clamp_to_u32, clamp_u32, utf16_span, Position, Range};
use crate::scan::{find_bytes, first_match_from};
use crate::utf8_bytes::{at_boundary, lemma_boundary_iff, lemma_str_valid, substr, utf16_len};

verus! {

/// A heading level, outermost first.
#[derive(Debug, Clone, Copy, PartialEq, Eq, Structural)]
pub enum HeadingLevel {
    /// 大見出し
    Major,
    /// 中見出し
    Middle,
    /// 小見出し
    Minor,
}

/// Depth of a level: 大 0, 中 1, 小 2.
pub open spec fn rank(l: HeadingLevel) -> nat {
    match l {
        HeadingLevel::Major => 0,
        HeadingLevel::Middle => 1,
        HeadingLevel::Minor => 2,
    }
}

/// The kind an outline entry is shown with.
#[derive(Debug, Clone, Copy, PartialEq, Eq, Structural)]
pub enum SymbolKind {
    Class,
    Namespace,
    Function,
}

/// The label of each level.
pub open spec fn level_label(l: HeadingLevel) -> Seq<char> {
    match l {
        HeadingLevel::Major => "大見出し"@,
        HeadingLevel::Middle => "中見出し"@,
        HeadingLevel::Minor => "小見出し"@,
    }
}

/// The symbol kind of each level.
pub open spec fn level_kind(l: HeadingLevel) -> SymbolKind {
    match l {
        HeadingLevel::Major => SymbolKind::Class,
        HeadingLevel::Middle => SymbolKind::Namespace,
        HeadingLevel::Minor => SymbolKind::Function,
    }
}

impl HeadingLevel {
    /// The level's label, e.g. `大見出し`.
    pub fn as_str(self) -> (r: &'static str)
        ensures
            r@ == level_label(self),
    {
        match self {
            HeadingLevel::Major => "大見出し",
            HeadingLevel::Middle => "中見出し",
            HeadingLevel::Minor => "小見出し",
        }
    }

    /// The level's symbol kind: 大 a class, 中 a namespace, 小 a function.
    pub fn symbol_kind(self) -> (k: SymbolKind)
        ensures
            k == level_kind(self),
    {
        match self {
            HeadingLevel::Major => SymbolKind::Class,
            HeadingLevel::Middle => SymbolKind::Namespace,
            HeadingLevel::Minor => SymbolKind::Function,
        }
    }

    /// Whether `self` is at the same or a higher (outer) level than
    /// `other`.
    pub fn at_or_above(self, other: HeadingLevel) -> (r: bool)
        ensures
            r == (rank(self) <= rank(other)),
    {
        let a: u8 = match self {
            HeadingLevel::Major => 0,
            HeadingLevel::Middle => 1,
            HeadingLevel::Minor => 2,
        };
        let b: u8 = match other {
            HeadingLevel::Major => 0,
            HeadingLevel::Middle => 1,
            HeadingLevel::Minor => 2,
        };
        a <= b
    }
}

/// An outline entry.
#[derive(Debug)]
pub struct DocumentSymbol {
    /// The heading's title; never empty.
    pub name: String,
    /// The level's label.
    pub detail: Option<String>,
    /// The level's kind.
    pub kind: SymbolKind,
    /// The whole heading line.
    pub range: Range,
    /// Same as `range`.
    pub selection_range: Range,
    /// The headings nested under this one.
    pub children: Option<Vec<DocumentSymbol>>,
}

/// `見出し`
pub open spec fn heading_word() -> Seq<u8> {
    seq![0xe8u8, 0xa6u8, 0x8bu8, 0xe5u8, 0x87u8, 0xbau8, 0xe3u8, 0x81u8, 0x97u8]
}

/// `大見出し`, `中見出し`, `小見出し`.
pub open spec fn level_word(l: HeadingLevel) -> Seq<u8> {
    match l {
        HeadingLevel::Major => seq![0xe5u8, 0xa4u8, 0xa7u8] + heading_word(),
        HeadingLevel::Middle => seq![0xe4u8, 0xb8u8, 0xadu8] + heading_word(),
        HeadingLevel::Minor => seq![0xe5u8, 0xb0u8, 0x8fu8] + heading_word(),
    }
}

/// `b` contains `needle`.
pub open spec fn contains(b: Seq<u8>, needle: Seq<u8>) -> bool {
    first_match_from(b, 0, b.len() as int, needle) is Some
}

/// The level a line declares: none without `見出し`; otherwise the first
/// of 大 / 中 / 小 whose `…見出し` occurs, and 中 for a bare `見出し`.
pub open spec fn level_of(line: Seq<u8>) -> Option<HeadingLevel> {
    if !contains(line, heading_word()) {
        None
    } else if contains(line, level_word(HeadingLevel::Major)) {
        Some(HeadingLevel::Major)
    } else if contains(line, level_word(HeadingLevel::Middle)) {
        Some(HeadingLevel::Middle)
    } else if contains(line, level_word(HeadingLevel::Minor)) {
        Some(HeadingLevel::Minor)
    } else {
        Some(HeadingLevel::Middle)
    }
}

fn word_bytes(prefix: Option<HeadingLevel>) -> (v: Vec<u8>)
    ensures
        v@ == match prefix {
            None => heading_word(),
            Some(l) => level_word(l),
        },
{
    let mut v: Vec<u8> = match prefix {
        None => Vec::new(),
        Some(HeadingLevel::Major) => vec![0xe5u8, 0xa4u8, 0xa7u8],
        Some(HeadingLevel::Middle) => vec![0xe4u8, 0xb8u8, 0xadu8],
        Some(HeadingLevel::Minor) => vec![0xe5u8, 0xb0u8, 0x8fu8],
    };
    let ghost head = v@;
    v.push(0xe8u8);
    v.push(0xa6u8);
    v.push(0x8bu8);
    v.push(0xe5u8);
    v.push(0x87u8);
    v.push(0xbau8);
    v.push(0xe3u8);
    v.push(0x81u8);
    v.push(0x97u8);
    proof {
        assert(v@ =~= head + heading_word());
        match prefix {
            None => {
                assert(head =~= seq![]);
                assert(v@ =~= heading_word());
            },
            Some(_) => {},
        }
    }
    v
}

fn contains_exec(bytes: &[u8], needle: &Vec<u8>) -> (r: bool)
    ensures
        r == contains(bytes@, needle@),
{
    find_bytes(bytes, 0, bytes.len(), needle.as_slice()).is_some()
}

/// The heading level `line` declares, if any.
pub fn heading_level_in(line: &str) -> (r: Option<HeadingLevel>)
    ensures
        r == level_of(line.spec_bytes()),
{
    let b = line.as_bytes();
    if !contains_exec(b, &word_bytes(None)) {
        return None;
    }
    if contains_exec(b, &word_bytes(Some(HeadingLevel::Major))) {
        Some(HeadingLevel::Major)
    } else if contains_exec(b, &word_bytes(Some(HeadingLevel::Middle))) {
        Some(HeadingLevel::Middle)
    } else if contains_exec(b, &word_bytes(Some(HeadingLevel::Minor))) {
        Some(HeadingLevel::Minor)
    } else {
        Some(HeadingLevel::Middle)
    }
}

/// The placeholder name of a heading with no usable title.
pub const UNTITLED: &'static str = "(無題)";

/// The trimmed text inside the first `「…」` of `l`, if it has one.
pub open spec fn quoted_title(l: Seq<char>) -> Option<Seq<char>> {
    let q = index_of_char(l, '「');
    if q < l.len() {
        let after = l.subrange(q + 1, l.len() as int);
        let e = index_of_char(after, '」');
        if e < after.len() {
            Some(trim_spec(after.subrange(0, e)))
        } else {
            None
        }
    } else {
        None
    }
}

/// The trimmed text after the first `］` of `l`, up to the next `［`.
pub open spec fn trailing_title(l: Seq<char>) -> Option<Seq<char>> {
    let c = index_of_char(l, '］');
    if c < l.len() {
        let after = l.subrange(c + 1, l.len() as int);
        Some(trim_spec(after.subrange(0, index_of_char(after, '［'))))
    } else {
        None
    }
}

/// A heading line's title: the quoted text, else the text after the
/// slug, the first of them that is not empty; else the placeholder.
pub open spec fn title_spec(l: Seq<char>) -> Seq<char> {
    if quoted_title(l) matches Some(t) && t.len() > 0 {
        quoted_title(l)->0
    } else if trailing_title(l) matches Some(t) && t.len() > 0 {
        trailing_title(l)->0
    } else {
        UNTITLED@
    }
}

proof fn lemma_index_bound(s: Seq<char>, c: char)
    ensures
        0 <= index_of_char(s, c) <= s.len(),
    decreases s.len(),
{
    if s.len() > 0 && s[0] != c {
        lemma_index_bound(s.drop_first(), c);
    }
}

/// The title of a heading line.
pub fn extract_title(line: &str) -> (r: String)
    ensures
        r@ == title_spec(line@),
{
    let cs = chars_of(line);
    let n = cs.len();
    let q = find_char(&cs, '「');
    proof {
        lemma_index_bound(line@, '「');
    }
    if q < n {
        let after = line.substring_char(q + 1, n);
        let ac = chars_of(after);
        let e = find_char(&ac, '」');
        proof {
            lemma_index_bound(after@, '」');
        }
        if e < ac.len() {
            let body = trim_chars(after.substring_char(0, e));
            if body.unicode_len() > 0 {
                return String::from_str(body);
            }
        }
    }
    let c = find_char(&cs, '］');
    proof {
        lemma_index_bound(line@, '］');
    }
    if c < n {
        let after = line.substring_char(c + 1, n);
        let ac = chars_of(after);
        let stop = find_char(&ac, '［');
        proof {
            lemma_index_bound(after@, '［');
        }
        let t = trim_chars(after.substring_char(0, stop));
        if t.unicode_len() > 0 {
            return String::from_str(t);
        }
    }
    String::from_str(UNTITLED)
}

/// The range of line `line` from column 0 to `width`.
pub open spec fn line_range(line: u32, width: u32) -> Range {
    Range { start: Position { line, character: 0 }, end: Position { line, character: width } }
}

/// The symbol fields a heading line yields: its name (the title, or the
/// placeholder for a blank one), label, kind and range.
pub open spec fn leaf_is(
    s: DocumentSymbol,
    level: HeadingLevel,
    name: Seq<char>,
    line: u32,
    width: u32,
) -> bool {
    &&& s.name@ == (if trim_spec(name).len() == 0 {
        UNTITLED@
    } else {
        name
    })
    &&& s.detail matches Some(d) && d@ == level_label(level)
    &&& s.kind == level_kind(level)
    &&& s.range == line_range(line, width)
    &&& s.selection_range == line_range(line, width)
}

/// The outline entry of a heading on line `line_idx` whose text is
/// `line_text`: its range spans the line's UTF-16 length.
pub fn build_symbol(line_idx: u32, line_text: &str, level: HeadingLevel, title: String) -> (s: DocumentSymbol)
    ensures
        leaf_is(s, level, title@, line_idx, clamp_u32(utf16_len(line_text.spec_bytes()) as int)),
        s.children matches Some(c) && c@.len() == 0,
{
    let b = line_text.as_bytes();
    let width = clamp_to_u32(utf16_span(b, 0, b.len()));
    proof {
        assert(b@.subrange(0, b@.len() as int) =~= b@);
    }
    let range = Range::new(Position::new(line_idx, 0), Position::new(line_idx, width));
    let name = if trim_chars(title.as_str()).unicode_len() == 0 {
        String::from_str(UNTITLED)
    } else {
        title
    };
    DocumentSymbol {
        name,
        detail: Some(String::from_str(level.as_str())),
        kind: level.symbol_kind(),
        range,
        selection_range: range,
        children: Some(Vec::new()),
    }
}

/// A heading found on a line: its level, the symbol's leaf fields.
pub struct Heading {
    pub level: HeadingLevel,
    pub symbol: DocumentSymbol,
}

/// The leaf fields of `a` and `b` agree.
pub open spec fn same_leaf(a: DocumentSymbol, b: DocumentSymbol) -> bool {
    &&& a.name@ == b.name@
    &&& match (a.detail, b.detail) {
        (Some(x), Some(y)) => x@ == y@,
        (None, None) => true,
        _ => false,
    }
    &&& a.kind == b.kind
    &&& a.range == b.range
    &&& a.selection_range == b.selection_range
}

/// The end of heading `i`'s span within `[i, end)`: the first later
/// heading of the same or a higher level, else `end`.
pub open spec fn span_end(f: Seq<Heading>, i: int, j: int, end: int) -> int
    decreases end - j,
{
    if j >= end {
        end
    } else if rank(f[j].level) <= rank(f[i].level) {
        j
    } else {
        span_end(f, i, j + 1, end)
    }
}

pub proof fn lemma_span_end_bounds(f: Seq<Heading>, i: int, j: int, end: int)
    requires
        j <= end,
    ensures
        j <= span_end(f, i, j, end) <= end,
    decreases end - j,
{
    if j < end && rank(f[j].level) > rank(f[i].level) {
        lemma_span_end_bounds(f, i, j + 1, end);
    }
}

/// `s` is heading `i` with, as children, the forest of the headings in
/// its span.
pub open spec fn node_ok(s: DocumentSymbol, f: Seq<Heading>, i: int, end: int) -> bool
    decreases f.len() - i, 1int,
{
    if 0 <= i < end <= f.len() {
        let e = span_end(f, i, i + 1, end);
        proof {
            lemma_span_end_bounds(f, i, i + 1, end);
        }
        &&& same_leaf(s, f[i].symbol)
        &&& s.children matches Some(c) && forest_ok(c@, f, i + 1, e)
    } else {
        false
    }
}

/// `v` is the forest of the headings `f[i..end)`: heading `i` with its
/// span, then the forest of what follows the span.
pub open spec fn forest_ok(v: Seq<DocumentSymbol>, f: Seq<Heading>, i: int, end: int) -> bool
    decreases f.len() - i, 2int,
{
    if i < 0 || end > f.len() {
        false
    } else if i >= end {
        v.len() == 0
    } else {
        let e = span_end(f, i, i + 1, end);
        proof {
            lemma_span_end_bounds(f, i, i + 1, end);
        }
        &&& v.len() > 0
        &&& node_ok(v[0], f, i, end)
        &&& e > i
        &&& forest_ok(v.drop_first(), f, e, end)
    }
}

/// `e` ends heading `i`'s run in `[i, end)`: every heading strictly
/// between is of a lower level, and the one at `e`, if any, is of the
/// same or a higher level.
pub open spec fn run_ends_at(f: Seq<Heading>, i: int, e: int, end: int) -> bool {
    &&& i < e <= end
    &&& forall|j: int| i < j < e ==> rank(#[trigger] f[j].level) > rank(f[i].level)
    &&& (e == end || rank(f[e].level) <= rank(f[i].level))
}

proof fn lemma_span_end_ends_the_run(f: Seq<Heading>, i: int, j: int, end: int)
    requires
        0 <= i < j <= end <= f.len(),
        forall|k: int| i < k < j ==> rank(#[trigger] f[k].level) > rank(f[i].level),
    ensures
        run_ends_at(f, i, span_end(f, i, j, end), end),
    decreases end - j,
{
    if j < end && rank(f[j].level) > rank(f[i].level) {
        lemma_span_end_ends_the_run(f, i, j + 1, end);
    }
}

/// Headings nest by level: a heading's children are exactly the
/// headings after it up to the next heading of the same or a higher
/// level (each nested under its nearest earlier heading of a strictly
/// higher level), and its next sibling is that heading.
pub proof fn law_headings_nest_under_the_nearest_higher(v: Seq<DocumentSymbol>, f: Seq<Heading>, i: int, end: int)
    requires
        forest_ok(v, f, i, end),
        i < end,
    ensures
        exists|e: int|
            #![trigger run_ends_at(f, i, e, end)]
            run_ends_at(f, i, e, end) && same_leaf(v[0], f[i].symbol) && v[0].children is Some
                && forest_ok(v[0].children->0@, f, i + 1, e) && forest_ok(v.drop_first(), f, e, end),
{
    let e = span_end(f, i, i + 1, end);
    assert(0 <= i && end <= f.len());
    assert(node_ok(v[0], f, i, end) && forest_ok(v.drop_first(), f, e, end));
    assert(same_leaf(v[0], f[i].symbol) && v[0].children is Some && forest_ok(
        v[0].children->0@,
        f,
        i + 1,
        e,
    ));
    lemma_span_end_ends_the_run(f, i, i + 1, end);
    assert(run_ends_at(f, i, e, end));
}

/// A copy of `s`'s leaf fields over `children`.
fn leaf_copy(s: &DocumentSymbol, children: Vec<DocumentSymbol>) -> (r: DocumentSymbol)
    ensures
        same_leaf(r, *s),
        r.children == Some(children),
{
    let detail = match &s.detail {
        Some(d) => Some(d.clone()),
        None => None,
    };
    DocumentSymbol {
        name: s.name.clone(),
        detail,
        kind: s.kind,
        range: s.range,
        selection_range: s.selection_range,
        children: Some(children),
    }
}

/// Nest the headings `f[i..end)`.
fn build_forest(f: &Vec<Heading>, i: usize, end: usize) -> (v: Vec<DocumentSymbol>)
    requires
        i <= end <= f@.len(),
    ensures
        forest_ok(v@, f@, i as int, end as int),
    decreases end - i, 0nat,
{
    let mut v: Vec<DocumentSymbol> = Vec::new();
    let mut k: usize = i;
    proof {
        assert forall|w: Seq<DocumentSymbol>| forest_ok(w, f@, k as int, end as int) implies #[trigger] forest_ok(
            v@ + w,
            f@,
            i as int,
            end as int,
        ) by {
            assert(v@ + w =~= w);
        }
    }
    while k < end
        invariant
            i <= k <= end <= f@.len(),
            forall|w: Seq<DocumentSymbol>|
                forest_ok(w, f@, k as int, end as int) ==> #[trigger] forest_ok(
                    v@ + w,
                    f@,
                    i as int,
                    end as int,
                ),
        decreases end - k,
    {
        let mut e = k + 1;
        proof {
            lemma_span_end_bounds(f@, k as int, k + 1, end as int);
        }
        while e < end && !f[e].level.at_or_above(f[k].level)
            invariant
                k < e <= end <= f@.len(),
                span_end(f@, k as int, k + 1, end as int) == span_end(f@, k as int, e as int, end as int),
            decreases end - e,
        {
            e += 1;
        }
        let children = build_forest(f, k + 1, e);
        let node = leaf_copy(&f[k].symbol, children);
        proof {
            assert(node_ok(node, f@, k as int, end as int));
            assert forall|w: Seq<DocumentSymbol>| forest_ok(w, f@, e as int, end as int) implies #[trigger] forest_ok(
                v@.push(node) + w,
                f@,
                i as int,
                end as int,
            ) by {
                let w2 = seq![node] + w;
                assert(w2[0] == node);
                assert(w2.drop_first() =~= w);
                assert(forest_ok(w2, f@, k as int, end as int));
                assert(v@.push(node) + w =~= v@ + w2);
            }
        }
        v.push(node);
        k = e;
    }
    proof {
        assert(v@ + seq![] =~= v@);
        assert(forest_ok(seq![], f@, end as int, end as int));
    }
    v
}

/// Nest a flat run of headings into a tree: each heading's children are
/// the headings after it up to the next one of the same or a higher
/// level.
pub fn nest_by_level(flat: Vec<Heading>) -> (v: Vec<DocumentSymbol>)
    ensures
        forest_ok(v@, flat@, 0, flat@.len() as int),
{
    build_forest(&flat, 0, flat.len())
}

/// Where the text of line `k` ends: before its `\n`, and before a `\r`
/// that precedes that `\n`.
pub open spec fn content_end(b: Seq<u8>, k: int) -> int {
    let (s, e) = line_span(b, k);
    if e < b.len() && e > s && b[e - 1] == 0x0du8 {
        e - 1
    } else {
        e
    }
}

/// The bytes of line `k` as `str::lines` yields it.
pub open spec fn line_bytes(b: Seq<u8>, k: int) -> Seq<u8> {
    b.subrange(line_span(b, k).0, content_end(b, k))
}

/// The heading lines among the first `k` lines: index and level.
pub open spec fn heading_lines(b: Seq<u8>, k: int) -> Seq<(int, HeadingLevel)>
    decreases k,
{
    if k <= 0 {
        seq![]
    } else {
        let before = heading_lines(b, k - 1);
        match level_of(line_bytes(b, k - 1)) {
            Some(l) => before.push((k - 1, l)),
            None => before,
        }
    }
}

/// `f` holds, in order, one entry per heading line of `b`, with the
/// line's level, title, line number and UTF-16 width.
pub open spec fn headings_of(f: Seq<Heading>, b: Seq<u8>) -> bool {
    let h = heading_lines(b, text_line_count(b));
    &&& f.len() == h.len()
    &&& forall|j: int|
        0 <= j < f.len() ==> {
            let k = h[j].0;
            let line = line_bytes(b, k);
            &&& (#[trigger] f[j]).level == h[j].1
            &&& leaf_is(
                f[j].symbol,
                h[j].1,
                title_spec(decode_utf8(line)),
                clamp_u32(k),
                clamp_u32(utf16_len(line) as int),
            )
        }
}

proof fn lemma_line_bounds(b: Seq<u8>, k: int)
    requires
        valid_utf8(b),
        0 <= k < text_line_count(b),
    ensures
        0 <= line_span(b, k).0 <= content_end(b, k) <= line_span(b, k).1 <= b.len(),
        at_boundary(b, line_span(b, k).0),
        at_boundary(b, content_end(b, k)),
{
    crate::lines::lemma_line_starts_shape(b);
    crate::lines::lemma_line_starts_len(b);
    let s = line_span(b, k).0;
    crate::position::lemma_line_end_boundary(b, s);
    if k > 0 {
        crate::utf8_bytes::lemma_boundary_after_ascii(b, s - 1);
    } else {
        if b.len() > 0 {
            crate::utf8_bytes::lemma_boundary_iff(b, 0);
            is_char_boundary_start_end_of_seq(b);
        }
    }
    let e = line_span(b, k).1;
    if e < b.len() && e > s && b[e - 1] == 0x0du8 {
        crate::utf8_bytes::lemma_boundary_after_ascii(b, e - 1);
    }
}

/// The outline of `source`: one symbol per heading line, nested by
/// level (a heading's children are the headings after it up to the
/// next one of the same or a higher level).
pub fn document_symbols(source: &str, line_index: &LineIndex) -> (v: Vec<DocumentSymbol>)
    ensures
        exists|f: Seq<Heading>| headings_of(f, source.spec_bytes()) && forest_ok(v@, f, 0, f.len() as int),
{
    let bytes = source.as_bytes();
    let ghost b = bytes@;
    let spans = line_spans(bytes);
    proof {
        lemma_str_valid(source);
        crate::line_index::lemma_text_line_count_bound(b);
    }
    let mut flat: Vec<Heading> = Vec::new();
    let mut k: usize = 0;
    while k < spans.len()
        invariant
            b == source.spec_bytes(),
            b == bytes@,
            valid_utf8(b),
            spans@.len() == text_line_count(b),
            forall|q: int| 0 <= q < spans@.len() ==> (#[trigger] spans@[q]).0 == line_span(b, q).0
                && spans@[q].1 == line_span(b, q).1,
            k <= spans@.len(),
            ({
                let h = heading_lines(b, k as int);
                &&& flat@.len() == h.len()
                &&& forall|j: int|
                    0 <= j < flat@.len() ==> {
                        let q = h[j].0;
                        let line = line_bytes(b, q);
                        &&& (#[trigger] flat@[j]).level == h[j].1
                        &&& leaf_is(
                            flat@[j].symbol,
                            h[j].1,
                            title_spec(decode_utf8(line)),
                            clamp_u32(q),
                            clamp_u32(utf16_len(line) as int),
                        )
                    }
            }),
        decreases spans@.len() - k,
    {
        let (s, e) = spans[k];
        proof {
            lemma_line_bounds(b, k as int);
        }
        let ce = if e < bytes.len() && e > s && bytes[e - 1] == 0x0du8 {
            e - 1
        } else {
            e
        };
        proof {
            lemma_boundary_iff(b, s as int);
            lemma_boundary_iff(b, ce as int);
        }
        let line = substr(source, s, ce);
        let level = heading_level_in(line);
        let ghost before = flat@;
        match level {
            Some(l) => {
                let title = extract_title(line);
                let idx: u32 = if k <= 0xffff_ffffusize {
                    k as u32
                } else {
                    u32::MAX
                };
                proof {
                    encode_utf8_decode_utf8(line@);
                }
                let symbol = build_symbol(idx, line, l, title);
                flat.push(Heading { level: l, symbol });
                proof {
                    let h = heading_lines(b, k + 1);
                    assert(h == heading_lines(b, k as int).push((k as int, l)));
                    assert forall|j: int| 0 <= j < flat@.len() implies {
                        let q = h[j].0;
                        let line = line_bytes(b, q);
                        &&& (#[trigger] flat@[j]).level == h[j].1
                        &&& leaf_is(
                            flat@[j].symbol,
                            h[j].1,
                            title_spec(decode_utf8(line)),
                            clamp_u32(q),
                            clamp_u32(utf16_len(line) as int),
                        )
                    } by {
                        if j < before.len() {
                            assert(flat@[j] == before[j]);
                            assert(h[j] == heading_lines(b, k as int)[j]);
                        }
                    }
                }
            },
            None => {
                proof {
                    assert(heading_lines(b, k + 1) == heading_lines(b, k as int));
                }
            },
        }
        k += 1;
    }
    let ghost fv = flat@;
    let out = nest_by_level(flat);
    proof {
        assert(headings_of(fv, b));
    }
    out
}

} // verus!

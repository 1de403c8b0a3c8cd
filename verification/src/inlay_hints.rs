//! `textDocument/inlayHint`: a `→ glyph` hint just after every gaiji
//! span in the requested range whose reference the gaiji dictionary
//! resolves, with the glyph's codepoints in the tooltip; and the list of
//! every resolvable gaiji span that the `aozora/gaijiSpans` request
//! returns.

use vstd::prelude::*;
use vstd::string::*;

use crate::diagnostics::char_string;
use crate::gaiji_spans::{saturate_u32, spans_in_byte_range, spans_ordered, started_before, GaijiSpan};
use crate::hover::{gaiji_lookup, lookup_gaiji, opt_view};
use crate::line_index::{starts_u32, LineIndex};
use crate::position::{clamp_offset, offset_at, position_at, Position, Range};
use crate::text_fmt::{hex_digits, push_hex4, zero_pad};
use crate::utf8_bytes::at_boundary;

verus! {

/// The kind of an inlay hint.
#[derive(Debug, Clone, Copy, PartialEq, Eq, Structural)]
pub enum InlayHintKind {
    Type,
    Parameter,
}

/// An inlay hint: a label at a position, with a Markdown tooltip.
#[derive(Debug, Clone)]
pub struct InlayHint {
    pub position: Position,
    /// The label text.
    pub label: String,
    /// The label's Markdown tooltip.
    pub tooltip: String,
    pub kind: Option<InlayHintKind>,
    pub padding_left: Option<bool>,
    pub padding_right: Option<bool>,
}

/// `U+XXXX` for each char of `s`, joined by ` + `.
pub open spec fn codepoints(s: Seq<char>) -> Seq<char>
    decreases s.len(),
{
    if s.len() == 0 {
        seq![]
    } else if s.len() == 1 {
        "U+"@ + zero_pad(hex_digits((s[0] as u32) as nat), 4)
    } else {
        codepoints(s.drop_last()) + " + "@ + "U+"@ + zero_pad(hex_digits((s.last() as u32) as nat), 4)
    }
}

fn codepoints_of(s: &str) -> (r: String)
    ensures
        r@ == codepoints(s@),
{
    let n = s.unicode_len();
    let mut out = String::new();
    let mut i: usize = 0;
    proof {
        assert(s@.take(0) =~= seq![]);
    }
    while i < n
        invariant
            n == s@.len(),
            i <= n,
            out@ == codepoints(s@.take(i as int)),
        decreases n - i,
    {
        let c = s.get_char(i);
        let ghost before = out@;
        if i > 0 {
            out.append(" + ");
        }
        out.append("U+");
        let code: u32 = c as u32;
        push_hex4(&mut out, code as u64);
        proof {
            let t = s@.take(i + 1);
            assert(t.drop_last() =~= s@.take(i as int));
            assert(t.last() == c);
            if i > 0 {
                assert(out@ =~= before + " + "@ + "U+"@ + zero_pad(hex_digits((c as u32) as nat), 4));
            } else {
                assert(before =~= seq![]);
                assert(out@ =~= "U+"@ + zero_pad(hex_digits((c as u32) as nat), 4));
            }
        }
        i += 1;
    }
    proof {
        assert(s@.take(n as int) =~= s@);
    }
    out
}

/// The label and tooltip of the hint for a span resolving to `glyph`.
pub open spec fn hint_texts(description: Seq<char>, glyph: Seq<char>) -> (Seq<char>, Seq<char>) {
    (
        " → "@ + glyph,
        "**外字**: `"@ + description + "`\n\n- 解決: `"@ + glyph + "` ("@ + codepoints(glyph) + ")"@,
    )
}

/// `h` is the hint of span `s` resolving to `glyph`, over the text `b`.
pub open spec fn hint_of(h: InlayHint, s: GaijiSpan, glyph: Seq<char>, b: Seq<u8>) -> bool {
    &&& h.position == position_at(b, s.end_byte as int)
    &&& h.label@ == hint_texts(s.description@, glyph).0
    &&& h.tooltip@ == hint_texts(s.description@, glyph).1
    &&& h.kind == Some(InlayHintKind::Type)
    &&& h.padding_left == Some(true)
    &&& h.padding_right == Some(false)
}

/// What the dictionary resolves span `s` to.
pub open spec fn resolution(s: GaijiSpan) -> Option<Seq<char>> {
    gaiji_lookup(opt_view(s.mencode), s.description@)
}

fn build_hint(span: &GaijiSpan, source: &str, line_index: &LineIndex) -> (r: Option<InlayHint>)
    requires
        line_index@ == starts_u32(source.spec_bytes()),
        source.spec_bytes().len() <= u32::MAX,
        at_boundary(source.spec_bytes(), clamp_offset(source.spec_bytes(), span.end_byte as int)),
    ensures
        resolution(*span) is None <==> r is None,
        r matches Some(h) ==> hint_of(h, *span, resolution(*span)->0, source.spec_bytes()),
{
    let glyph = match lookup_gaiji(&span.mencode, span.description.as_str()) {
        Some(g) => g,
        None => {
            return None;
        },
    };
    let cps = codepoints_of(glyph.as_str());
    let position = line_index.position(source, span.end_byte as usize);
    let mut label = String::from_str(" → ");
    label.append(glyph.as_str());
    let mut tooltip = String::from_str("**外字**: `");
    tooltip.append(span.description.as_str());
    tooltip.append("`\n\n- 解決: `");
    tooltip.append(glyph.as_str());
    tooltip.append("` (");
    tooltip.append(cps.as_str());
    tooltip.append(")");
    let h = InlayHint {
        position,
        label,
        tooltip,
        kind: Some(InlayHintKind::Type),
        padding_left: Some(true),
        padding_right: Some(false),
    };
    proof {
        assert(h.label@ =~= hint_texts(span.description@, glyph@).0);
        assert(h.tooltip@ =~= hint_texts(span.description@, glyph@).1);
    }
    Some(h)
}

/// How many of the first `k` spans of `v` resolve.
pub open spec fn resolved_count(v: Seq<GaijiSpan>, k: int) -> int
    decreases k,
{
    if k <= 0 {
        0
    } else {
        resolved_count(v, k - 1) + if resolution(v[k - 1]) is Some {
            1int
        } else {
            0int
        }
    }
}

proof fn lemma_resolved_count_mono(v: Seq<GaijiSpan>, j: int, k: int)
    requires
        0 <= j <= k,
    ensures
        resolved_count(v, j) <= resolved_count(v, k),
        j < k && resolution(v[j]) is Some ==> resolved_count(v, j) < resolved_count(v, k),
    decreases k - j,
{
    if j < k {
        lemma_resolved_count_mono(v, j, k - 1);
    }
}

/// The spans of `spans` visible in the byte range `[s, e)`.
pub open spec fn visible(spans: Seq<GaijiSpan>, s: int, e: int) -> Seq<GaijiSpan> {
    let lo = started_before(spans, saturate_u32(s as nat));
    let hi = started_before(spans, saturate_u32(e as nat));
    spans.subrange(lo, if hi > lo { hi } else { lo })
}

/// Every inlay hint in `range`: none when an end of the range lies past
/// the text; otherwise one per visible span that resolves, in order.
pub fn inlay_hints(source: &str, spans: &[GaijiSpan], line_index: &LineIndex, range: Range) -> (v: Vec<InlayHint>)
    requires
        line_index@ == starts_u32(source.spec_bytes()),
        source.spec_bytes().len() <= u32::MAX,
        spans_ordered(spans@),
        forall|i: int| 0 <= i < spans@.len() ==> at_boundary(
            source.spec_bytes(),
            clamp_offset(source.spec_bytes(), (#[trigger] spans@[i]).end_byte as int),
        ),
    ensures
        ({
            let b = source.spec_bytes();
            match (offset_at(b, range.start), offset_at(b, range.end)) {
                (Some(s), Some(e)) => {
                    let vis = visible(spans@, s, e);
                    &&& v@.len() == resolved_count(vis, vis.len() as int)
                    &&& forall|i: int|
                        0 <= i < vis.len() && resolution(#[trigger] vis[i]) is Some ==> hint_of(
                            v@[resolved_count(vis, i)],
                            vis[i],
                            resolution(vis[i])->0,
                            b,
                        )
                },
                _ => v@.len() == 0,
            }
        }),
{
    let start_byte = match line_index.byte_offset(source, range.start) {
        Some(s) => s,
        None => {
            return Vec::new();
        },
    };
    let end_byte = match line_index.byte_offset(source, range.end) {
        Some(e) => e,
        None => {
            return Vec::new();
        },
    };
    let vis = spans_in_byte_range(spans, start_byte, end_byte);
    let ghost vs = vis@;
    proof {
        assert(vs == visible(spans@, start_byte as int, end_byte as int));
        let lo = started_before(spans@, saturate_u32(start_byte as nat));
        crate::gaiji_spans::lemma_counts_bounded(spans@, saturate_u32(start_byte as nat));
        crate::gaiji_spans::lemma_counts_bounded(spans@, saturate_u32(end_byte as nat));
        assert forall|k: int| 0 <= k < vs.len() implies at_boundary(
            source.spec_bytes(),
            clamp_offset(source.spec_bytes(), (#[trigger] vs[k]).end_byte as int),
        ) by {
            assert(vs[k] == spans@[lo + k]);
        }
    }
    let mut out: Vec<InlayHint> = Vec::new();
    let mut i: usize = 0;
    while i < vis.len()
        invariant
            vs == vis@,
            line_index@ == starts_u32(source.spec_bytes()),
            source.spec_bytes().len() <= u32::MAX,
            forall|k: int| 0 <= k < vs.len() ==> at_boundary(
                source.spec_bytes(),
                clamp_offset(source.spec_bytes(), (#[trigger] vs[k]).end_byte as int),
            ),
            i <= vs.len(),
            out@.len() == resolved_count(vs, i as int),
            forall|k: int|
                0 <= k < i && resolution(#[trigger] vs[k]) is Some ==> hint_of(
                    out@[resolved_count(vs, k)],
                    vs[k],
                    resolution(vs[k])->0,
                    source.spec_bytes(),
                ),
        decreases vs.len() - i,
    {
        let ghost before = out@;
        let h = build_hint(&vis[i], source, line_index);
        match h {
            Some(x) => {
                out.push(x);
            },
            None => {},
        }
        proof {
            assert(forall|j: int| 0 <= j < before.len() ==> out@[j] == before[j]);
            assert forall|k: int|
                0 <= k < i + 1 && resolution(#[trigger] vs[k]) is Some implies hint_of(
                out@[resolved_count(vs, k)],
                vs[k],
                resolution(vs[k])->0,
                source.spec_bytes(),
            ) by {
                if k < i {
                    lemma_resolved_count_mono(vs, k, i as int);
                    lemma_resolved_count_mono(vs, 0, k);
                    assert(out@[resolved_count(vs, k)] == before[resolved_count(vs, k)]);
                }
            }
        }
        i += 1;
    }
    out
}

/// A gaiji span the dictionary resolves, in editor coordinates.
#[derive(Debug, Clone)]
pub struct ResolvedGaiji {
    pub range: Range,
    /// The glyph the reference resolves to.
    pub resolved: String,
    pub description: String,
    pub mencode: Option<String>,
}

/// `g` reports span `s`, resolving to `glyph`, over the text `b`.
pub open spec fn resolved_as(g: ResolvedGaiji, s: GaijiSpan, glyph: Seq<char>, b: Seq<u8>) -> bool {
    &&& g.range == Range { start: position_at(b, s.start_byte as int), end: position_at(b, s.end_byte as int) }
    &&& g.resolved@ == glyph
    &&& g.description@ == s.description@
    &&& opt_view(g.mencode) == opt_view(s.mencode)
}

/// Every span of `spans` that the gaiji dictionary resolves, in order,
/// with its range and its glyph; the others are left out.
pub fn resolved_spans(source: &str, spans: &[GaijiSpan], line_index: &LineIndex) -> (v: Vec<ResolvedGaiji>)
    requires
        line_index@ == starts_u32(source.spec_bytes()),
        source.spec_bytes().len() <= u32::MAX,
        forall|i: int| 0 <= i < spans@.len() ==> at_boundary(
            source.spec_bytes(),
            clamp_offset(source.spec_bytes(), (#[trigger] spans@[i]).start_byte as int),
        ),
        forall|i: int| 0 <= i < spans@.len() ==> at_boundary(
            source.spec_bytes(),
            clamp_offset(source.spec_bytes(), (#[trigger] spans@[i]).end_byte as int),
        ),
    ensures
        v@.len() == resolved_count(spans@, spans@.len() as int),
        forall|i: int|
            0 <= i < spans@.len() && resolution(#[trigger] spans@[i]) is Some ==> resolved_as(
                v@[resolved_count(spans@, i)],
                spans@[i],
                resolution(spans@[i])->0,
                source.spec_bytes(),
            ),
{
    let ghost vs = spans@;
    let mut out: Vec<ResolvedGaiji> = Vec::new();
    let mut i: usize = 0;
    while i < spans.len()
        invariant
            vs == spans@,
            line_index@ == starts_u32(source.spec_bytes()),
            source.spec_bytes().len() <= u32::MAX,
            forall|k: int| 0 <= k < vs.len() ==> at_boundary(
                source.spec_bytes(),
                clamp_offset(source.spec_bytes(), (#[trigger] vs[k]).start_byte as int),
            ),
            forall|k: int| 0 <= k < vs.len() ==> at_boundary(
                source.spec_bytes(),
                clamp_offset(source.spec_bytes(), (#[trigger] vs[k]).end_byte as int),
            ),
            i <= vs.len(),
            out@.len() == resolved_count(vs, i as int),
            forall|k: int|
                0 <= k < i && resolution(#[trigger] vs[k]) is Some ==> resolved_as(
                    out@[resolved_count(vs, k)],
                    vs[k],
                    resolution(vs[k])->0,
                    source.spec_bytes(),
                ),
        decreases vs.len() - i,
    {
        let ghost before = out@;
        let span = &spans[i];
        match lookup_gaiji(&span.mencode, span.description.as_str()) {
            Some(glyph) => {
                let start = line_index.position(source, span.start_byte as usize);
                let end = line_index.position(source, span.end_byte as usize);
                let mencode = match &span.mencode {
                    Some(m) => Some(m.clone()),
                    None => None,
                };
                proof {
                    assert(opt_view(mencode) == opt_view(span.mencode));
                }
                out.push(ResolvedGaiji {
                    range: Range { start, end },
                    resolved: glyph,
                    description: span.description.clone(),
                    mencode,
                });
            },
            None => {},
        }
        proof {
            assert(forall|j: int| 0 <= j < before.len() ==> out@[j] == before[j]);
            assert forall|k: int|
                0 <= k < i + 1 && resolution(#[trigger] vs[k]) is Some implies resolved_as(
                out@[resolved_count(vs, k)],
                vs[k],
                resolution(vs[k])->0,
                source.spec_bytes(),
            ) by {
                if k < i {
                    lemma_resolved_count_mono(vs, k, i as int);
                    lemma_resolved_count_mono(vs, 0, k);
                    assert(out@[resolved_count(vs, k)] == before[resolved_count(vs, k)]);
                }
            }
        }
        i += 1;
    }
    out
}

} // verus!

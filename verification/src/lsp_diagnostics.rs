//! Lexer diagnostics in the language server's shape: each described
//! diagnostic becomes an LSP diagnostic over the line/UTF-16 range of its
//! byte span, tagged with the server's source name, carrying the
//! quick-fix payload.

use vstd::prelude::*;
use vstd::string::*;

use crate::diagnostics::{
    describe, described_as, fits_lexer, lex_diagnostics, lexed_diagnostics, lexer_room, Described, DiagnosticPayload,
    InternalCheck, LexDiagnostic, Severity, Span,
};
use crate::line_index::{starts_u32, LineIndex};
use crate::position::{clamp_offset, position_at, Range};
use crate::utf8_bytes::at_boundary;

verus! {

/// LSP diagnostic severity.
#[derive(Debug, Clone, Copy, PartialEq, Eq, Structural)]
pub enum DiagnosticSeverity {
    Error,
    Warning,
    Information,
    Hint,
}

/// LSP diagnostic tag.
#[derive(Debug, Clone, Copy, PartialEq, Eq, Structural)]
pub enum DiagnosticTag {
    Unnecessary,
}

/// An LSP diagnostic.
#[derive(Debug, Clone)]
pub struct LspDiagnostic {
    pub range: Range,
    pub severity: Option<DiagnosticSeverity>,
    pub code: Option<String>,
    pub source: Option<String>,
    pub message: String,
    pub tags: Option<Vec<DiagnosticTag>>,
    /// The quick-fix payload (sent as JSON).
    pub data: Option<DiagnosticPayload>,
}

/// The source name every diagnostic carries.
pub const SOURCE_TAG: &'static str = "aozora-lsp";

/// The LSP severity of a catalogue severity.
pub open spec fn lsp_severity(s: Severity) -> DiagnosticSeverity {
    match s {
        Severity::Error => DiagnosticSeverity::Error,
        Severity::Warning => DiagnosticSeverity::Warning,
    }
}

/// Map a catalogue severity onto the LSP severity.
pub fn to_lsp_severity(severity: Severity) -> (r: DiagnosticSeverity)
    ensures
        r == lsp_severity(severity),
{
    match severity {
        Severity::Error => DiagnosticSeverity::Error,
        Severity::Warning => DiagnosticSeverity::Warning,
    }
}

/// The byte span a diagnostic is described at.
pub open spec fn described_span(d: LexDiagnostic) -> Span {
    match d {
        LexDiagnostic::SourceContainsPua { span, .. } => span,
        LexDiagnostic::UnclosedBracket { span, .. } => span,
        LexDiagnostic::UnmatchedClose { span, .. } => span,
        LexDiagnostic::Internal { span, check, .. } => match check {
            Some(_) => span,
            None => Span { start: 0, end: 0 },
        },
        LexDiagnostic::Unknown { .. } => Span { start: 0, end: 0 },
    }
}

proof fn lemma_described_span(r: Described, d: LexDiagnostic)
    requires
        described_as(r, d),
    ensures
        r.span == described_span(d),
{
}

/// Both ends of the span of `d` (clamped to the text) are char
/// boundaries of `b`.
pub open spec fn span_on_boundaries(b: Seq<u8>, d: LexDiagnostic) -> bool {
    &&& at_boundary(b, clamp_offset(b, described_span(d).start as int))
    &&& at_boundary(b, clamp_offset(b, described_span(d).end as int))
}

/// `l` is the LSP form of the description `r` over the text `b`.
pub open spec fn lsp_of(l: LspDiagnostic, r: Described, b: Seq<u8>) -> bool {
    &&& l.range == Range {
        start: position_at(b, r.span.start as int),
        end: position_at(b, r.span.end as int),
    }
    &&& l.severity == Some(lsp_severity(r.severity))
    &&& l.code matches Some(c) && c@ == r.code@
    &&& l.source matches Some(s) && s@ == SOURCE_TAG@
    &&& l.message@ == r.message@
    &&& (if r.unnecessary {
        l.tags matches Some(t) && t@ == seq![DiagnosticTag::Unnecessary]
    } else {
        l.tags is None
    })
    &&& l.data == r.payload
}

/// `l` is the LSP form of the lexer diagnostic `d` over `b`.
pub open spec fn lsp_form(l: LspDiagnostic, d: LexDiagnostic, b: Seq<u8>) -> bool {
    exists|r: Described| #[trigger] described_as(r, d) && lsp_of(l, r, b)
}

fn to_lsp(source: &str, line_index: &LineIndex, d: &LexDiagnostic) -> (l: LspDiagnostic)
    requires
        line_index@ == starts_u32(source.spec_bytes()),
        source.spec_bytes().len() <= u32::MAX,
        span_on_boundaries(source.spec_bytes(), *d),
    ensures
        lsp_form(l, *d, source.spec_bytes()),
{
    let described = describe(d);
    proof {
        lemma_described_span(described, *d);
    }
    let start = line_index.position(source, described.span.start as usize);
    let end = line_index.position(source, described.span.end as usize);
    let tags = if described.unnecessary {
        let t = vec![DiagnosticTag::Unnecessary];
        proof {
            assert(t@ =~= seq![DiagnosticTag::Unnecessary]);
        }
        Some(t)
    } else {
        None
    };
    let l = LspDiagnostic {
        range: Range::new(start, end),
        severity: Some(to_lsp_severity(described.severity)),
        code: Some(String::from_str(described.code)),
        source: Some(String::from_str(SOURCE_TAG)),
        message: described.message,
        tags,
        data: described.payload,
    };
    proof {
        assert(lsp_of(l, described, source.spec_bytes()));
    }
    l
}

/// Map lexer diagnostics of `source` onto LSP diagnostics, in order.
pub fn diagnostics_from_aozora(source: &str, diagnostics: &[LexDiagnostic]) -> (v: Vec<LspDiagnostic>)
    requires
        source.spec_bytes().len() <= u32::MAX,
        forall|i: int| 0 <= i < diagnostics@.len() ==> span_on_boundaries(source.spec_bytes(), #[trigger] diagnostics@[i]),
    ensures
        v@.len() == diagnostics@.len(),
        forall|i: int| 0 <= i < v@.len() ==> lsp_form(#[trigger] v@[i], diagnostics@[i], source.spec_bytes()),
{
    let line_index = LineIndex::new(source);
    let mut out: Vec<LspDiagnostic> = Vec::new();
    let mut i: usize = 0;
    while i < diagnostics.len()
        invariant
            line_index@ == starts_u32(source.spec_bytes()),
            source.spec_bytes().len() <= u32::MAX,
            forall|k: int| 0 <= k < diagnostics@.len() ==> span_on_boundaries(source.spec_bytes(), #[trigger] diagnostics@[k]),
            i <= diagnostics@.len(),
            out@.len() == i,
            forall|k: int| 0 <= k < i ==> lsp_form(#[trigger] out@[k], diagnostics@[k], source.spec_bytes()),
        decreases diagnostics@.len() - i,
    {
        out.push(to_lsp(source, &line_index, &diagnostics[i]));
        i += 1;
    }
    out
}

/// Whether byte `off` of `bytes`, clamped to its length, starts a char.
fn clamped_boundary(bytes: &[u8], off: u32) -> (r: bool)
    ensures
        r == at_boundary(bytes@, clamp_offset(bytes@, off as int)),
{
    let o = off as usize;
    if o >= bytes.len() {
        return true;
    }
    let x = bytes[o];
    let r = !(0x80u8 <= x && x <= 0xbfu8);
    r
}

/// The span a diagnostic is described at.
fn span_of(d: &LexDiagnostic) -> (s: Span)
    ensures
        s == described_span(*d),
{
    match d {
        LexDiagnostic::SourceContainsPua { span, .. } => *span,
        LexDiagnostic::UnclosedBracket { span, .. } => *span,
        LexDiagnostic::UnmatchedClose { span, .. } => *span,
        LexDiagnostic::Internal { span, check, .. } => match check {
            Some(_) => *span,
            None => Span { start: 0, end: 0 },
        },
        LexDiagnostic::Unknown { .. } => Span { start: 0, end: 0 },
    }
}

/// The LSP form of `diagnostics`, lexed from `source`: `None` when the
/// source is over `u32::MAX` bytes or a diagnostic's span does not fall
/// on char boundaries.
pub fn lsp_diagnostics_checked(source: &str, diagnostics: &[LexDiagnostic]) -> (r: Option<Vec<LspDiagnostic>>)
    ensures
        ({
            let d = diagnostics@;
            let b = source.spec_bytes();
            let ok = b.len() <= u32::MAX && forall|i: int| 0 <= i < d.len() ==> span_on_boundaries(b, #[trigger] d[i]);
            &&& ok <==> r is Some
            &&& r matches Some(v) ==> v@.len() == d.len() && forall|i: int|
                0 <= i < v@.len() ==> lsp_form(#[trigger] v@[i], d[i], b)
        }),
{
    let bytes = source.as_bytes();
    if bytes.len() > 0xffff_ffffusize {
        return None;
    }
    let mut i: usize = 0;
    while i < diagnostics.len()
        invariant
            bytes@ == source.spec_bytes(),
            i <= diagnostics@.len(),
            forall|k: int| 0 <= k < i ==> span_on_boundaries(bytes@, #[trigger] diagnostics@[k]),
        decreases diagnostics@.len() - i,
    {
        let s = span_of(&diagnostics[i]);
        if !clamped_boundary(bytes, s.start) || !clamped_boundary(bytes, s.end) {
            return None;
        }
        i += 1;
    }
    Some(diagnostics_from_aozora(source, diagnostics))
}

/// Parse `source` and return its diagnostics in LSP shape; `None` when
/// the text is too long for the lexer (`lexer_room`) or a diagnostic's
/// span does not fall on char boundaries.
pub fn diagnostics_for_source(source: &str) -> (r: Option<Vec<LspDiagnostic>>)
    ensures
        ({
            let d = lexed_diagnostics(source@);
            let b = source.spec_bytes();
            let ok = lexer_room(b.len()) && forall|i: int| 0 <= i < d.len() ==> span_on_boundaries(b, #[trigger] d[i]);
            &&& ok <==> r is Some
            &&& r matches Some(v) ==> v@.len() == d.len() && forall|i: int|
                0 <= i < v@.len() ==> lsp_form(#[trigger] v@[i], d[i], b)
        }),
{
    if !fits_lexer(source) {
        return None;
    }
    let diagnostics = lex_diagnostics(source);
    lsp_diagnostics_checked(source, diagnostics.as_slice())
}

} // verus!

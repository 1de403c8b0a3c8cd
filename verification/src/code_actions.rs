//! `textDocument/codeAction`: the wrap-selection menu (ruby, double
//! ruby, 「」, 〔〕, ［＃…］, forward 傍点) and the quick fixes a
//! diagnostic's payload asks for (insert the missing close, delete a
//! stray close, delete a private-use char).

use vstd::prelude::*;
use vstd::string::*;
use vstd::utf8::*;

use crate::commands::WorkspaceEdit;
use crate::diagnostics::{close_spec, open_spec, DiagnosticPayload, SerializablePairKind};
use crate::line_index::{starts_u32, LineIndex};
use crate::lsp_diagnostics::{DiagnosticTag, LspDiagnostic};
use crate::position::{offset_at, Position, Range, TextEdit};
use crate::text_fmt::{hex_digits, push_hex4, zero_pad};
use crate::utf8_bytes::{at_boundary, lemma_boundary_iff, lemma_str_valid, substr};

verus! {

/// The kind of a code action.
#[derive(Debug, Clone, Copy, PartialEq, Eq, Structural)]
pub enum CodeActionKind {
    /// `refactor.rewrite`
    RefactorRewrite,
    /// `quickfix`
    QuickFix,
}

/// A code action.
#[derive(Debug)]
pub struct CodeAction {
    pub title: String,
    pub kind: Option<CodeActionKind>,
    /// The diagnostic a quick fix resolves.
    pub diagnostics: Option<Vec<LspDiagnostic>>,
    pub edit: Option<WorkspaceEdit>,
    pub is_preferred: Option<bool>,
}

/// The edits of `a` on `uri` as (range, text) pairs.
pub open spec fn edits_are(a: CodeAction, uri: Seq<char>, edits: Seq<(Range, Seq<char>)>) -> bool {
    a.edit matches Some(w) && w.changes@.len() == 1 && w.changes@[0].0@ == uri
        && w.changes@[0].1@.len() == edits.len() && forall|i: int|
        0 <= i < edits.len() ==> (#[trigger] w.changes@[0].1@[i]).range == edits[i].0
            && w.changes@[0].1@[i].new_text@ == edits[i].1
}

/// A refactoring action with `title` and `edits`.
pub open spec fn refactor_is(a: CodeAction, uri: Seq<char>, title: Seq<char>, edits: Seq<(Range, Seq<char>)>) -> bool {
    &&& a.title@ == title
    &&& a.kind == Some(CodeActionKind::RefactorRewrite)
    &&& a.diagnostics is None
    &&& a.is_preferred is None
    &&& edits_are(a, uri, edits)
}

/// The empty range at `p`.
pub open spec fn at(p: Position) -> Range {
    Range { start: p, end: p }
}

fn one_file_edit(uri: &str, edits: Vec<TextEdit>) -> (w: WorkspaceEdit)
    ensures
        w.changes@.len() == 1,
        w.changes@[0].0@ == uri@,
        w.changes@[0].1@ == edits@,
{
    let changes = vec![(String::from_str(uri), edits)];
    WorkspaceEdit { changes }
}

fn build_action(uri: &str, edits: Vec<TextEdit>, title: &str) -> (a: CodeAction)
    ensures
        a.title@ == title@,
        a.kind == Some(CodeActionKind::RefactorRewrite),
        a.diagnostics is None,
        a.is_preferred is None,
        a.edit matches Some(w) && w.changes@.len() == 1 && w.changes@[0].0@ == uri@
            && w.changes@[0].1@ == edits@,
{
    CodeAction {
        title: String::from_str(title),
        kind: Some(CodeActionKind::RefactorRewrite),
        diagnostics: None,
        edit: Some(one_file_edit(uri, edits)),
        is_preferred: None,
    }
}

/// Insert `open` before the selection and `close` after it.
fn wrap_pair(uri: &str, selection: Range, open: &str, close: &str, title: &str) -> (a: CodeAction)
    ensures
        refactor_is(a, uri@, title@, seq![(at(selection.start), open@), (at(selection.end), close@)]),
{
    let edits = vec![
        TextEdit { range: Range::new(selection.start, selection.start), new_text: String::from_str(open) },
        TextEdit { range: Range::new(selection.end, selection.end), new_text: String::from_str(close) },
    ];
    build_action(uri, edits, title)
}

/// The selection as a ruby base: `｜` before it, the empty reading
/// brackets after it.
fn ruby_wrap(uri: &str, selection: Range, reading_brackets: &str, title: &str) -> (a: CodeAction)
    ensures
        refactor_is(
            a,
            uri@,
            title@,
            seq![(at(selection.start), "｜"@), (at(selection.end), reading_brackets@)],
        ),
{
    wrap_pair(uri, selection, "｜", reading_brackets, title)
}

/// `［＃「SEL」に傍点］`
pub open spec fn bouten_text(selected: Seq<char>) -> Seq<char> {
    "［＃「"@ + selected + "」に傍点］"@
}

/// Append a forward `［＃「SEL」に傍点］` after the selection.
fn forward_bouten_action(uri: &str, selection: Range, selected: &str) -> (a: CodeAction)
    ensures
        refactor_is(
            a,
            uri@,
            "傍点を付ける ［＃「SEL」に傍点］"@,
            seq![(at(selection.end), bouten_text(selected@))],
        ),
{
    let mut new_text = String::from_str("［＃「");
    new_text.append(selected);
    new_text.append("」に傍点］");
    let edits = vec![TextEdit { range: Range::new(selection.end, selection.end), new_text }];
    build_action(uri, edits, "傍点を付ける ［＃「SEL」に傍点］")
}

/// The six wrap actions for a selection whose text is `selected`, in
/// menu order.
pub open spec fn wrap_menu_ok(v: Seq<CodeAction>, uri: Seq<char>, s: Range, selected: Seq<char>) -> bool {
    &&& v.len() == 6
    &&& refactor_is(v[0], uri, "ルビをふる ｜SEL《》"@, seq![(at(s.start), "｜"@), (at(s.end), "《》"@)])
    &&& refactor_is(v[1], uri, "二重ルビをふる ｜SEL《《》》"@, seq![(at(s.start), "｜"@), (at(s.end), "《《》》"@)])
    &&& refactor_is(v[2], uri, "「」 で囲む"@, seq![(at(s.start), "「"@), (at(s.end), "」"@)])
    &&& refactor_is(v[3], uri, "〔〕 で囲む (アクセント分解)"@, seq![(at(s.start), "〔"@), (at(s.end), "〕"@)])
    &&& refactor_is(v[4], uri, "［＃...］ 注記にする"@, seq![(at(s.start), "［＃"@), (at(s.end), "］"@)])
    &&& refactor_is(v[5], uri, "傍点を付ける ［＃「SEL」に傍点］"@, seq![(at(s.end), bouten_text(selected))])
}

/// Every wrap action for `selection` in `source`: none when an end of
/// the selection lies past the text or the selection is empty or
/// reversed; otherwise the six, in menu order.
pub fn wrap_selection_actions(source: &str, line_index: &LineIndex, uri: &str, selection: Range) -> (v: Vec<CodeAction>)
    requires
        line_index@ == starts_u32(source.spec_bytes()),
        source.spec_bytes().len() <= u32::MAX,
    ensures
        ({
            let b = source.spec_bytes();
            match (offset_at(b, selection.start), offset_at(b, selection.end)) {
                (Some(s), Some(e)) => if e <= s {
                    v@.len() == 0
                } else {
                    wrap_menu_ok(v@, uri@, selection, decode_utf8(b.subrange(s, e)))
                },
                _ => v@.len() == 0,
            }
        }),
{
    let start = match line_index.byte_offset(source, selection.start) {
        Some(s) => s,
        None => {
            return Vec::new();
        },
    };
    let end = match line_index.byte_offset(source, selection.end) {
        Some(e) => e,
        None => {
            return Vec::new();
        },
    };
    if end <= start {
        return Vec::new();
    }
    proof {
        lemma_str_valid(source);
        lemma_boundary_iff(source.spec_bytes(), start as int);
        lemma_boundary_iff(source.spec_bytes(), end as int);
    }
    let selected = substr(source, start, end);
    proof {
        encode_utf8_decode_utf8(selected@);
    }
    let mut actions: Vec<CodeAction> = Vec::new();
    actions.push(ruby_wrap(uri, selection, "《》", "ルビをふる ｜SEL《》"));
    actions.push(ruby_wrap(uri, selection, "《《》》", "二重ルビをふる ｜SEL《《》》"));
    actions.push(wrap_pair(uri, selection, "「", "」", "「」 で囲む"));
    actions.push(wrap_pair(uri, selection, "〔", "〕", "〔〕 で囲む (アクセント分解)"));
    actions.push(wrap_pair(uri, selection, "［＃", "］", "［＃...］ 注記にする"));
    actions.push(forward_bouten_action(uri, selection, selected));
    actions
}

/// A copy of a payload.
fn copy_payload(p: &DiagnosticPayload) -> (r: DiagnosticPayload)
    ensures
        r == *p,
{
    match p {
        DiagnosticPayload::UnclosedBracket { pair_kind, expected_close } => DiagnosticPayload::UnclosedBracket {
            pair_kind: *pair_kind,
            expected_close: expected_close.clone(),
        },
        DiagnosticPayload::UnmatchedClose { pair_kind } => DiagnosticPayload::UnmatchedClose {
            pair_kind: *pair_kind,
        },
        DiagnosticPayload::SourceContainsPua { codepoint } => DiagnosticPayload::SourceContainsPua {
            codepoint: *codepoint,
        },
        DiagnosticPayload::ResidualAnnotationMarker => DiagnosticPayload::ResidualAnnotationMarker,
    }
}

fn copy_opt_string(s: &Option<String>) -> (r: Option<String>)
    ensures
        r == *s,
{
    match s {
        Some(x) => Some(x.clone()),
        None => None,
    }
}

/// A copy of an LSP diagnostic.
fn copy_diagnostic(d: &LspDiagnostic) -> (r: LspDiagnostic)
    ensures
        r.range == d.range,
        r.severity == d.severity,
        r.code == d.code,
        r.source == d.source,
        r.message == d.message,
        r.data == d.data,
        match (r.tags, d.tags) {
            (Some(x), Some(y)) => x@ == y@,
            (None, None) => true,
            _ => false,
        },
{
    let tags = match &d.tags {
        Some(t) => {
            let mut c: Vec<DiagnosticTag> = Vec::new();
            let mut i: usize = 0;
            while i < t.len()
                invariant
                    i <= t@.len(),
                    c@ == t@.take(i as int),
                decreases t@.len() - i,
            {
                c.push(t[i]);
                proof {
                    assert(t@.take(i + 1) =~= t@.take(i as int).push(t@[i as int]));
                }
                i += 1;
            }
            proof {
                assert(t@.take(t@.len() as int) =~= t@);
            }
            Some(c)
        },
        None => None,
    };
    let data = match &d.data {
        Some(p) => Some(copy_payload(p)),
        None => None,
    };
    LspDiagnostic {
        range: d.range,
        severity: d.severity,
        code: copy_opt_string(&d.code),
        source: copy_opt_string(&d.source),
        message: d.message.clone(),
        tags,
        data,
    }
}

/// `a` is a preferred quick fix for `d` titled `title` with `edits`.
pub open spec fn quick_fix_is(
    a: CodeAction,
    d: LspDiagnostic,
    uri: Seq<char>,
    title: Seq<char>,
    edits: Seq<(Range, Seq<char>)>,
) -> bool {
    &&& a.title@ == title
    &&& a.kind == Some(CodeActionKind::QuickFix)
    &&& a.is_preferred == Some(true)
    &&& a.diagnostics matches Some(ds) && ds@.len() == 1 && ds@[0].range == d.range && ds@[0].message
        == d.message && ds@[0].data == d.data
    &&& edits_are(a, uri, edits)
}

fn quick_fix(uri: &str, diag: &LspDiagnostic, edits: Vec<TextEdit>, title: String) -> (a: CodeAction)
    ensures
        a.title == title,
        a.kind == Some(CodeActionKind::QuickFix),
        a.is_preferred == Some(true),
        a.diagnostics matches Some(ds) && ds@.len() == 1 && ds@[0].range == diag.range && ds@[0].message
            == diag.message && ds@[0].data == diag.data,
        a.edit matches Some(w) && w.changes@.len() == 1 && w.changes@[0].0@ == uri@
            && w.changes@[0].1@ == edits@,
{
    CodeAction {
        title,
        kind: Some(CodeActionKind::QuickFix),
        diagnostics: Some(vec![copy_diagnostic(diag)]),
        edit: Some(one_file_edit(uri, edits)),
        is_preferred: Some(true),
    }
}

/// The quick fix a payload asks for on `d`: insert the expected close at
/// the end of its range, delete a stray close, delete a private-use
/// char; nothing for a residual marker.
pub open spec fn fix_ok(a: CodeAction, d: LspDiagnostic, uri: Seq<char>, p: DiagnosticPayload) -> bool {
    match p {
        DiagnosticPayload::UnclosedBracket { pair_kind, expected_close } => quick_fix_is(
            a,
            d,
            uri,
            "`"@ + expected_close@ + "` を補って閉じる ("@ + open_spec(pair_kind) + " ペア)"@,
            seq![(at(d.range.end), expected_close@)],
        ),
        DiagnosticPayload::UnmatchedClose { pair_kind } => quick_fix_is(
            a,
            d,
            uri,
            "対応のない `"@ + close_spec(pair_kind) + "` を削除する"@,
            seq![(d.range, ""@)],
        ),
        DiagnosticPayload::SourceContainsPua { codepoint } => quick_fix_is(
            a,
            d,
            uri,
            "私用領域文字 U+"@ + zero_pad(hex_digits(codepoint as nat), 4) + " を削除する"@,
            seq![(d.range, ""@)],
        ),
        DiagnosticPayload::ResidualAnnotationMarker => false,
    }
}

/// A quick fix makes one edit in the diagnostic's document: deleting a
/// stray close or a private-use char removes exactly the diagnostic's
/// span (its range replaced by nothing), and closing an unclosed bracket
/// inserts the expected close, and only it, where the span ends.
pub proof fn law_quick_fix_edits_the_diagnosed_span(
    a: CodeAction,
    d: LspDiagnostic,
    uri: Seq<char>,
    p: DiagnosticPayload,
)
    requires
        fix_ok(a, d, uri, p),
    ensures
        a.edit matches Some(w) && w.changes@.len() == 1 && w.changes@[0].0@ == uri
            && w.changes@[0].1@.len() == 1 && ({
            let te = w.changes@[0].1@[0];
            match p {
                DiagnosticPayload::UnmatchedClose { .. } => te.range == d.range && te.new_text@.len() == 0,
                DiagnosticPayload::SourceContainsPua { .. } => te.range == d.range && te.new_text@.len() == 0,
                DiagnosticPayload::UnclosedBracket { expected_close, .. } => te.range.start == d.range.end
                    && te.range.end == d.range.end && te.new_text@ == expected_close@,
                DiagnosticPayload::ResidualAnnotationMarker => false,
            }
        }),
{
    reveal_strlit("");
    let w = a.edit->0;
    assert(w.changes@[0].1@[0].range == w.changes@[0].1@[0].range);
}

/// Whether a payload has a quick fix.
pub open spec fn has_fix(d: LspDiagnostic) -> bool {
    d.data matches Some(p) && !(p is ResidualAnnotationMarker)
}

/// How many of the first `k` diagnostics have a quick fix.
pub open spec fn fix_count(ds: Seq<LspDiagnostic>, k: int) -> int
    decreases k,
{
    if k <= 0 {
        0
    } else {
        fix_count(ds, k - 1) + if has_fix(ds[k - 1]) {
            1int
        } else {
            0int
        }
    }
}

proof fn lemma_fix_count_mono(ds: Seq<LspDiagnostic>, j: int, k: int)
    requires
        0 <= j <= k,
    ensures
        fix_count(ds, j) <= fix_count(ds, k),
        j < k && has_fix(ds[j]) ==> fix_count(ds, j) < fix_count(ds, k),
    decreases k - j,
{
    if j < k {
        lemma_fix_count_mono(ds, j, k - 1);
        if j == k - 1 {
        }
    }
}

fn build_quick_fix(uri: &str, diag: &LspDiagnostic, payload: &DiagnosticPayload) -> (r: Option<CodeAction>)
    ensures
        payload is ResidualAnnotationMarker <==> r is None,
        r matches Some(a) ==> fix_ok(a, *diag, uri@, *payload),
{
    match payload {
        DiagnosticPayload::UnclosedBracket { pair_kind, expected_close } => {
            let edits = vec![
                TextEdit { range: Range::new(diag.range.end, diag.range.end), new_text: expected_close.clone() },
            ];
            let mut title = String::from_str("`");
            title.append(expected_close.as_str());
            title.append("` を補って閉じる (");
            title.append(pair_kind.open_str());
            title.append(" ペア)");
            let a = quick_fix(uri, diag, edits, title);
            proof {
                assert(a.title@ =~= "`"@ + expected_close@ + "` を補って閉じる ("@ + open_spec(*pair_kind) + " ペア)"@);
                let w = a.edit->0;
                assert(w.changes@[0].1@.len() == 1);
                assert(w.changes@[0].1@[0].range == at(diag.range.end));
                assert(w.changes@[0].1@[0].new_text@ == expected_close@);
                assert(edits_are(a, uri@, seq![(at(diag.range.end), expected_close@)]));
                assert(quick_fix_is(a, *diag, uri@, "`"@ + expected_close@ + "` を補って閉じる ("@ + open_spec(*pair_kind) + " ペア)"@, seq![(at(diag.range.end), expected_close@)]));
                assert(*payload == DiagnosticPayload::UnclosedBracket { pair_kind: *pair_kind, expected_close: *expected_close });
                assert(fix_ok(a, *diag, uri@, *payload));
            }
            Some(a)
        },
        DiagnosticPayload::UnmatchedClose { pair_kind } => {
            let edits = vec![TextEdit { range: diag.range, new_text: String::new() }];
            let mut title = String::from_str("対応のない `");
            title.append(pair_kind.close_str());
            title.append("` を削除する");
            let a = quick_fix(uri, diag, edits, title);
            proof {
                reveal_strlit("");
                assert(a.title@ =~= "対応のない `"@ + close_spec(*pair_kind) + "` を削除する"@);
                let w = a.edit->0;
                assert(w.changes@[0].1@.len() == 1);
                assert(w.changes@[0].1@[0].new_text@ =~= ""@);
                assert(edits_are(a, uri@, seq![(diag.range, ""@)]));
                assert(fix_ok(a, *diag, uri@, *payload));
            }
            Some(a)
        },
        DiagnosticPayload::SourceContainsPua { codepoint } => {
            let edits = vec![TextEdit { range: diag.range, new_text: String::new() }];
            let mut title = String::from_str("私用領域文字 U+");
            push_hex4(&mut title, *codepoint as u64);
            title.append(" を削除する");
            let a = quick_fix(uri, diag, edits, title);
            proof {
                reveal_strlit("");
                assert(a.title@ =~= "私用領域文字 U+"@ + zero_pad(hex_digits(*codepoint as nat), 4) + " を削除する"@);
                let w = a.edit->0;
                assert(w.changes@[0].1@.len() == 1);
                assert(w.changes@[0].1@[0].new_text@ =~= ""@);
                assert(edits_are(a, uri@, seq![(diag.range, ""@)]));
                assert(fix_ok(a, *diag, uri@, *payload));
            }
            Some(a)
        },
        DiagnosticPayload::ResidualAnnotationMarker => None,
    }
}

/// The quick fixes for `diagnostics`: one per diagnostic whose payload
/// has a fix, in order.
pub fn quick_fix_actions(uri: &str, diagnostics: &[LspDiagnostic]) -> (v: Vec<CodeAction>)
    ensures
        v@.len() == fix_count(diagnostics@, diagnostics@.len() as int),
        forall|i: int|
            0 <= i < diagnostics@.len() && has_fix(#[trigger] diagnostics@[i]) ==> fix_ok(
                v@[fix_count(diagnostics@, i)],
                diagnostics@[i],
                uri@,
                diagnostics@[i].data->0,
            ),
{
    let mut out: Vec<CodeAction> = Vec::new();
    let mut i: usize = 0;
    while i < diagnostics.len()
        invariant
            i <= diagnostics@.len(),
            out@.len() == fix_count(diagnostics@, i as int),
            forall|k: int|
                0 <= k < i && has_fix(#[trigger] diagnostics@[k]) ==> fix_ok(
                    out@[fix_count(diagnostics@, k)],
                    diagnostics@[k],
                    uri@,
                    diagnostics@[k].data->0,
                ),
        decreases diagnostics@.len() - i,
    {
        let d = &diagnostics[i];
        let ghost before = out@;
        let fix = match &d.data {
            Some(p) => build_quick_fix(uri, d, p),
            None => None,
        };
        match fix {
            Some(a) => {
                out.push(a);
            },
            None => {},
        }
        proof {
            assert(forall|j: int| 0 <= j < before.len() ==> out@[j] == before[j]);
        }
        proof {
            assert forall|k: int|
                0 <= k < i + 1 && has_fix(#[trigger] diagnostics@[k]) implies fix_ok(
                out@[fix_count(diagnostics@, k)],
                diagnostics@[k],
                uri@,
                diagnostics@[k].data->0,
            ) by {
                if k < i {
                    lemma_fix_count_mono(diagnostics@, k, i as int);
                    lemma_fix_count_mono(diagnostics@, 0, k);
                    assert(fix_count(diagnostics@, k) < before.len());
                    assert(out@[fix_count(diagnostics@, k)] == before[fix_count(diagnostics@, k)]);
                }
            }
        }
        i += 1;
    }
    out
}

} // verus!

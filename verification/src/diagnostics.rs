//! Renderer-agnostic catalogue of lexer diagnostics.
//!
//! [`describe`] turns one lexer diagnostic into a [`Described`] record:
//! its stable code, a Japanese message written for the typesetter (what
//! happened, why it matters, how to fix it), the byte span, the severity,
//! and a quick-fix payload. [`catalogue`] / [`lookup`] back the
//! long-form `explain` command with one entry per code.

use vstd::prelude::*;
use vstd::string::*;

use crate::text_fmt::{hex_digits, push_hex4, zero_pad};
use crate::utf8_bytes::str_eq;
use aozora::Diagnostic as AozoraDiagnostic;

verus! {

/// Byte range `start..end` into the source a diagnostic points at.
#[derive(Debug, Clone, Copy, PartialEq, Eq, Structural)]
pub struct Span {
    pub start: u32,
    pub end: u32,
}

/// Severity of a diagnostic, independent of any client's severity enum.
#[derive(Debug, Clone, Copy, PartialEq, Eq, Structural)]
pub enum Severity {
    Error,
    Warning,
}

/// A delimiter pair the lexer balances.
#[derive(Debug, Clone, Copy, PartialEq, Eq, Structural)]
pub enum SerializablePairKind {
    /// `［` … `］`
    Bracket,
    /// `《` … `》`
    Ruby,
    /// `《《` … `》》`
    DoubleRuby,
    /// `〔` … `〕`
    Tortoise,
    /// `「` … `」`
    Quote,
}

/// A pipeline-internal consistency check the lexer can report.
#[derive(Debug, Clone, Copy, PartialEq, Eq, Structural)]
pub enum InternalCheck {
    ResidualAnnotationMarker,
    UnregisteredSentinel,
    RegistryOutOfOrder,
    RegistryPositionMismatch,
}

/// One lexer diagnostic, as plain values.
#[derive(Debug, Clone, PartialEq, Eq)]
pub enum LexDiagnostic {
    /// A private-use codepoint that clashes with the lexer's sentinels.
    SourceContainsPua { span: Span, codepoint: char },
    /// An open delimiter with no matching close.
    UnclosedBracket { span: Span, kind: SerializablePairKind },
    /// A close delimiter with no matching open.
    UnmatchedClose { span: Span, kind: SerializablePairKind },
    /// A pipeline-internal check; `check` is `None` for a check this
    /// library does not know, `rendered` the lexer's own debug form.
    Internal { span: Span, check: Option<InternalCheck>, rendered: String },
    /// A diagnostic of a kind this library does not know.
    Unknown { rendered: String },
}

/// Context a quick-fix needs, attached to a diagnostic.
#[derive(Debug, Clone, PartialEq, Eq)]
pub enum DiagnosticPayload {
    UnclosedBracket { pair_kind: SerializablePairKind, expected_close: String },
    UnmatchedClose { pair_kind: SerializablePairKind },
    SourceContainsPua { codepoint: u32 },
    ResidualAnnotationMarker,
}

/// One fully described diagnostic.
#[derive(Debug, Clone)]
pub struct Described {
    pub span: Span,
    pub message: String,
    pub code: &'static str,
    pub severity: Severity,
    pub unnecessary: bool,
    pub payload: Option<DiagnosticPayload>,
}

pub open spec fn open_spec(k: SerializablePairKind) -> Seq<char> {
    match k {
        SerializablePairKind::Bracket => "［"@,
        SerializablePairKind::Ruby => "《"@,
        SerializablePairKind::DoubleRuby => "《《"@,
        SerializablePairKind::Tortoise => "〔"@,
        SerializablePairKind::Quote => "「"@,
    }
}

pub open spec fn close_spec(k: SerializablePairKind) -> Seq<char> {
    match k {
        SerializablePairKind::Bracket => "］"@,
        SerializablePairKind::Ruby => "》"@,
        SerializablePairKind::DoubleRuby => "》》"@,
        SerializablePairKind::Tortoise => "〕"@,
        SerializablePairKind::Quote => "」"@,
    }
}

pub open spec fn example_spec(k: SerializablePairKind) -> Seq<char> {
    match k {
        SerializablePairKind::Bracket => "［＃改ページ］"@,
        SerializablePairKind::Ruby => "｜青空《あおぞら》"@,
        SerializablePairKind::DoubleRuby => "《《重要》》"@,
        SerializablePairKind::Tortoise => "〔Crevez chiens〕"@,
        SerializablePairKind::Quote => "［＃「青空」に傍点］"@,
    }
}

impl SerializablePairKind {
    /// The open delimiter (`［`, `《`, `《《`, `〔`, `「`).
    pub fn open_str(self) -> (r: &'static str)
        ensures
            r@ == open_spec(self),
    {
        match self {
            SerializablePairKind::Bracket => "［",
            SerializablePairKind::Ruby => "《",
            SerializablePairKind::DoubleRuby => "《《",
            SerializablePairKind::Tortoise => "〔",
            SerializablePairKind::Quote => "「",
        }
    }

    /// The close delimiter (`］`, `》`, `》》`, `〕`, `」`).
    pub fn close_str(self) -> (r: &'static str)
        ensures
            r@ == close_spec(self),
    {
        match self {
            SerializablePairKind::Bracket => "］",
            SerializablePairKind::Ruby => "》",
            SerializablePairKind::DoubleRuby => "》》",
            SerializablePairKind::Tortoise => "〕",
            SerializablePairKind::Quote => "」",
        }
    }
}

/// The canonical example of a balanced pair of `kind`, quoted in the
/// unclosed-bracket message.
pub fn example_for(kind: SerializablePairKind) -> (r: &'static str)
    ensures
        r@ == example_spec(kind),
{
    match kind {
        SerializablePairKind::Bracket => "［＃改ページ］",
        SerializablePairKind::Ruby => "｜青空《あおぞら》",
        SerializablePairKind::DoubleRuby => "《《重要》》",
        SerializablePairKind::Tortoise => "〔Crevez chiens〕",
        SerializablePairKind::Quote => "［＃「青空」に傍点］",
    }
}

pub const PUA_1: &'static str = "私用領域文字 `U+";
pub const PUA_2: &'static str = "` がソースに紛れ込んでいます。\n\nこの文字 (`";
pub const PUA_3: &'static str = "`) は青空文庫の通常テキストには現れない予約コードポイントで、aozora-lex の内部マーカー (U+E001..U+E004) と衝突します。\n通常はテキストエディタの非表示文字設定や、コピペ時の不可視サニタイズで混入します。\n\n直し方: 該当の 1 文字を削除してください。";
pub const UNCLOSED_1: &'static str = "閉じられていない `";
pub const UNCLOSED_2: &'static str = "` があります。\n\nどこかに対応する `";
pub const UNCLOSED_3: &'static str = "` を必ず置いてください。aozora 記法では一行内で閉じるのが基本です。\n\n例: `";
pub const UNCLOSED_4: &'static str = "`";
pub const UNMATCHED_1: &'static str = "対応する `";
pub const UNMATCHED_2: &'static str = "` のない `";
pub const UNMATCHED_3: &'static str = "` です。\n\n考えられる原因:\n1. 余分な `";
pub const UNMATCHED_4: &'static str = "` を打ってしまった → 削除する\n2. 前にあるはずの `";
pub const UNMATCHED_5: &'static str = "` が欠けている → 適切な位置に追加する\n3. その間に別の `";
pub const UNMATCHED_6: &'static str = "` があり、ペアが一段ずれた → 該当箇所のペアを見直す\n\n右クリックの Quick Fix から「`";
pub const UNMATCHED_7: &'static str = "` を削除する」を選べます。";
pub const RESIDUAL_MESSAGE: &'static str = "未分類の `［＃...］` 注記です。\n\n注記辞典 (`gaiji_chuki.pdf`) のキーワードに合致しなかったか、誤字の可能性があります。\n\n確認手順:\n1. ［＃ の中身が `改ページ` / `中央揃え` などの登録済みキーワードと一致するか確認\n2. `第3水準1-...` のような JIS X 0213 mencode を付け忘れていないか確認\n3. それでも不明な場合は description-only 形式 (`※［＃「説明」］`) でひとまず通せます";
pub const UNREGISTERED_MESSAGE: &'static str = "未登録の私用領域 sentinel が検出されました (pipeline 内部の整合性エラー)。\n\nこれは aozora-pipeline のバグの可能性が高いです。再現手順を添えて issue で報告してください。";
pub const OUT_OF_ORDER_MESSAGE: &'static str = "プレースホルダーレジストリの順序が崩れています (pipeline 内部の整合性エラー)。\n\naozora-pipeline のバグの可能性があります。";
pub const MISMATCH_MESSAGE: &'static str = "プレースホルダーレジストリの位置情報が期待と異なっています (pipeline 内部の整合性エラー)。\n\naozora-pipeline のバグの可能性があります。";
pub const UNKNOWN_1: &'static str = "未対応の aozora 診断です: ";
pub const UNKNOWN_2: &'static str = "\n\naozora-lsp と aozora-lex のバージョンが揃っていない可能性があります。";

pub const CODE_PUA: &'static str = "aozora::source-contains-pua";
pub const CODE_UNCLOSED: &'static str = "aozora::unclosed-bracket";
pub const CODE_UNMATCHED: &'static str = "aozora::unmatched-close";
pub const CODE_RESIDUAL: &'static str = "aozora::residual-annotation-marker";
pub const CODE_UNREGISTERED: &'static str = "aozora::unregistered-sentinel";
pub const CODE_OUT_OF_ORDER: &'static str = "aozora::registry-out-of-order";
pub const CODE_MISMATCH: &'static str = "aozora::registry-position-mismatch";
pub const CODE_UNKNOWN: &'static str = "aozora::unknown-diagnostic";

/// Message for a stray private-use codepoint.
pub open spec fn pua_message(codepoint: char) -> Seq<char> {
    PUA_1@ + zero_pad(hex_digits(codepoint as nat), 4) + PUA_2@ + seq![codepoint] + PUA_3@
}

/// Message for an open delimiter left unclosed.
pub open spec fn unclosed_message(k: SerializablePairKind) -> Seq<char> {
    UNCLOSED_1@ + open_spec(k) + UNCLOSED_2@ + close_spec(k) + UNCLOSED_3@ + example_spec(k)
        + UNCLOSED_4@
}

/// Message for a close delimiter with no open.
pub open spec fn unmatched_message(k: SerializablePairKind) -> Seq<char> {
    UNMATCHED_1@ + open_spec(k) + UNMATCHED_2@ + close_spec(k) + UNMATCHED_3@ + close_spec(k)
        + UNMATCHED_4@ + open_spec(k) + UNMATCHED_5@ + close_spec(k) + UNMATCHED_6@ + close_spec(
        k,
    ) + UNMATCHED_7@
}

/// Message for a diagnostic of a kind this library does not know.
pub open spec fn unknown_message(rendered: Seq<char>) -> Seq<char> {
    UNKNOWN_1@ + rendered + UNKNOWN_2@
}

/// `r` is the description of `d`: its span, message, code, severity,
/// unnecessary flag and payload.
pub open spec fn described_as(r: Described, d: LexDiagnostic) -> bool {
    match d {
        LexDiagnostic::SourceContainsPua { span, codepoint } => {
            &&& r.span == span
            &&& r.message@ == pua_message(codepoint)
            &&& r.code@ == CODE_PUA@
            &&& r.severity == Severity::Warning
            &&& r.unnecessary
            &&& r.payload == Some(
                DiagnosticPayload::SourceContainsPua { codepoint: codepoint as u32 },
            )
        },
        LexDiagnostic::UnclosedBracket { span, kind } => {
            &&& r.span == span
            &&& r.message@ == unclosed_message(kind)
            &&& r.code@ == CODE_UNCLOSED@
            &&& r.severity == Severity::Error
            &&& !r.unnecessary
            &&& r.payload matches Some(
                DiagnosticPayload::UnclosedBracket { pair_kind, expected_close },
            ) && pair_kind == kind && expected_close@ == close_spec(kind)
        },
        LexDiagnostic::UnmatchedClose { span, kind } => {
            &&& r.span == span
            &&& r.message@ == unmatched_message(kind)
            &&& r.code@ == CODE_UNMATCHED@
            &&& r.severity == Severity::Error
            &&& !r.unnecessary
            &&& r.payload == Some(DiagnosticPayload::UnmatchedClose { pair_kind: kind })
        },
        LexDiagnostic::Internal { span, check, rendered } => match check {
            Some(InternalCheck::ResidualAnnotationMarker) => {
                &&& r.span == span
                &&& r.message@ == RESIDUAL_MESSAGE@
                &&& r.code@ == CODE_RESIDUAL@
                &&& r.severity == Severity::Warning
                &&& !r.unnecessary
                &&& r.payload == Some(DiagnosticPayload::ResidualAnnotationMarker)
            },
            Some(InternalCheck::UnregisteredSentinel) => {
                &&& r.span == span
                &&& r.message@ == UNREGISTERED_MESSAGE@
                &&& r.code@ == CODE_UNREGISTERED@
                &&& r.severity == Severity::Error
                &&& !r.unnecessary
                &&& r.payload is None
            },
            Some(InternalCheck::RegistryOutOfOrder) => {
                &&& r.span == span
                &&& r.message@ == OUT_OF_ORDER_MESSAGE@
                &&& r.code@ == CODE_OUT_OF_ORDER@
                &&& r.severity == Severity::Error
                &&& !r.unnecessary
                &&& r.payload is None
            },
            Some(InternalCheck::RegistryPositionMismatch) => {
                &&& r.span == span
                &&& r.message@ == MISMATCH_MESSAGE@
                &&& r.code@ == CODE_MISMATCH@
                &&& r.severity == Severity::Error
                &&& !r.unnecessary
                &&& r.payload is None
            },
            None => unknown_described(r, rendered@),
        },
        LexDiagnostic::Unknown { rendered } => unknown_described(r, rendered@),
    }
}

/// The generic description of a diagnostic this library does not know.
pub open spec fn unknown_described(r: Described, rendered: Seq<char>) -> bool {
    &&& r.span == Span { start: 0, end: 0 }
    &&& r.message@ == unknown_message(rendered)
    &&& r.code@ == CODE_UNKNOWN@
    &&& r.severity == Severity::Warning
    &&& !r.unnecessary
    &&& r.payload is None
}

/// The one-char string of `c`.
#[verifier::external_body]
pub(crate) fn char_string(c: char) -> (s: String)
    ensures
        s@ == seq![c],
{
    c.to_string()
}

fn describe_source_contains_pua(span: Span, codepoint: char) -> (r: Described)
    ensures
        described_as(r, LexDiagnostic::SourceContainsPua { span, codepoint }),
{
    let mut message = String::new();
    message.append(PUA_1);
    push_hex4(&mut message, codepoint as u32 as u64);
    message.append(PUA_2);
    let ch = char_string(codepoint);
    message.append(ch.as_str());
    message.append(PUA_3);
    Described {
        span,
        message,
        code: CODE_PUA,
        severity: Severity::Warning,
        unnecessary: true,
        payload: Some(DiagnosticPayload::SourceContainsPua { codepoint: codepoint as u32 }),
    }
}

fn describe_unclosed_bracket(span: Span, kind: SerializablePairKind) -> (r: Described)
    ensures
        described_as(r, LexDiagnostic::UnclosedBracket { span, kind }),
{
    let open = kind.open_str();
    let close = kind.close_str();
    let example = example_for(kind);
    let mut message = String::new();
    message.append(UNCLOSED_1);
    message.append(open);
    message.append(UNCLOSED_2);
    message.append(close);
    message.append(UNCLOSED_3);
    message.append(example);
    message.append(UNCLOSED_4);
    Described {
        span,
        message,
        code: CODE_UNCLOSED,
        severity: Severity::Error,
        unnecessary: false,
        payload: Some(
            DiagnosticPayload::UnclosedBracket { pair_kind: kind, expected_close: close.to_owned() },
        ),
    }
}

fn describe_unmatched_close(span: Span, kind: SerializablePairKind) -> (r: Described)
    ensures
        described_as(r, LexDiagnostic::UnmatchedClose { span, kind }),
{
    let open = kind.open_str();
    let close = kind.close_str();
    let mut message = String::new();
    message.append(UNMATCHED_1);
    message.append(open);
    message.append(UNMATCHED_2);
    message.append(close);
    message.append(UNMATCHED_3);
    message.append(close);
    message.append(UNMATCHED_4);
    message.append(open);
    message.append(UNMATCHED_5);
    message.append(close);
    message.append(UNMATCHED_6);
    message.append(close);
    message.append(UNMATCHED_7);
    Described {
        span,
        message,
        code: CODE_UNMATCHED,
        severity: Severity::Error,
        unnecessary: false,
        payload: Some(DiagnosticPayload::UnmatchedClose { pair_kind: kind }),
    }
}

/// Description of a fixed-text diagnostic.
fn fixed_described(
    span: Span,
    message: &'static str,
    code: &'static str,
    severity: Severity,
    payload: Option<DiagnosticPayload>,
) -> (r: Described)
    ensures
        r.span == span,
        r.message@ == message@,
        r.code == code,
        r.severity == severity,
        !r.unnecessary,
        r.payload == payload,
{
    Described { span, message: message.to_owned(), code, severity, unnecessary: false, payload }
}

fn describe_unknown(rendered: &String) -> (r: Described)
    ensures
        unknown_described(r, rendered@),
{
    let mut message = String::new();
    message.append(UNKNOWN_1);
    message.append(rendered.as_str());
    message.append(UNKNOWN_2);
    Described {
        span: Span { start: 0, end: 0 },
        message,
        code: CODE_UNKNOWN,
        severity: Severity::Warning,
        unnecessary: false,
        payload: None,
    }
}

/// Describe one lexer diagnostic.
pub fn describe(d: &LexDiagnostic) -> (r: Described)
    ensures
        described_as(r, *d),
{
    match d {
        LexDiagnostic::SourceContainsPua { span, codepoint } => describe_source_contains_pua(
            *span,
            *codepoint,
        ),
        LexDiagnostic::UnclosedBracket { span, kind } => describe_unclosed_bracket(*span, *kind),
        LexDiagnostic::UnmatchedClose { span, kind } => describe_unmatched_close(*span, *kind),
        LexDiagnostic::Internal { span, check, rendered } => match check {
            Some(InternalCheck::ResidualAnnotationMarker) => fixed_described(
                *span,
                RESIDUAL_MESSAGE,
                CODE_RESIDUAL,
                Severity::Warning,
                Some(DiagnosticPayload::ResidualAnnotationMarker),
            ),
            Some(InternalCheck::UnregisteredSentinel) => fixed_described(
                *span,
                UNREGISTERED_MESSAGE,
                CODE_UNREGISTERED,
                Severity::Error,
                None,
            ),
            Some(InternalCheck::RegistryOutOfOrder) => fixed_described(
                *span,
                OUT_OF_ORDER_MESSAGE,
                CODE_OUT_OF_ORDER,
                Severity::Error,
                None,
            ),
            Some(InternalCheck::RegistryPositionMismatch) => fixed_described(
                *span,
                MISMATCH_MESSAGE,
                CODE_MISMATCH,
                Severity::Error,
                None,
            ),
            None => describe_unknown(rendered),
        },
        LexDiagnostic::Unknown { rendered } => describe_unknown(rendered),
    }
}

/// A long-form explanation of one diagnostic code.
#[derive(Debug, Clone, Copy)]
pub struct CatalogueEntry {
    /// The stable diagnostic code this entry explains.
    pub code: &'static str,
    /// One-line title.
    pub title: &'static str,
    /// Long-form why/how prose.
    pub explain: &'static str,
    /// A minimal reproduction in aozora notation.
    pub repro: &'static str,
    /// The corrected form.
    pub fixed: &'static str,
}

pub const PUA_TITLE: &'static str = "私用領域文字がソースに紛れ込んでいる";
pub const PUA_EXPLAIN: &'static str = "aozora-lex は変換処理の途中で U+E001..U+E004 の私用領域 (PUA) コードポイントを内部マーカー (sentinel) として予約しています。ソース中に同じ領域の文字が含まれていると、この内部マーカーと衝突し、解析が破綻します。\n\n\
                  この文字は通常の青空文庫テキストには現れません。多くはエディタの不可視文字設定や、別アプリからのコピー&ペーストで紛れ込みます。\n\n\
                  直し方: 該当の 1 文字を削除してください。エディタの「不可視文字を表示」機能で位置を特定できます。";
pub const PUA_REPRO: &'static str = "（不可視の U+E001 などが混入した行）";
pub const PUA_FIXED: &'static str = "（その 1 文字を削除した行）";
pub const UNCLOSED_TITLE: &'static str = "閉じられていない開き括弧";
pub const UNCLOSED_EXPLAIN: &'static str = "aozora 記法では `［` … `］`、`《` … `》`、`「` … `」` などの括弧ペアは原則として同じ行の中で閉じる必要があります。閉じ括弧が見つからないまま行が終わると、注記やルビの範囲が確定できず、後段の整形・HTML 化が破綻します。\n\n\
                  ヒント: 注記 `［＃…］` の中身が `改ページ` などの登録済みキーワードか確認してください。未登録の場合は aozora::residual-annotation-marker も併せて出ることがあります。";
pub const UNCLOSED_REPRO: &'static str = "本文［＃改ページ";
pub const UNCLOSED_FIXED: &'static str = "本文［＃改ページ］";
pub const UNMATCHED_TITLE: &'static str = "対応する開き括弧のない閉じ括弧";
pub const UNMATCHED_EXPLAIN: &'static str = "閉じ括弧 (`］` `》` `」` など) に対応する開き括弧が見つかりません。\n\n\
                  考えられる原因:\n\
                  1. 余分な閉じ括弧を打ってしまった → 削除する\n\
                  2. 前にあるはずの開き括弧が欠けている → 適切な位置に追加する\n\
                  3. 途中に別の閉じ括弧があり、ペアが一段ずれた → 該当箇所のペアを見直す";
pub const UNMATCHED_REPRO: &'static str = "本文 ］";
pub const UNMATCHED_FIXED: &'static str = "本文";
pub const RESIDUAL_TITLE: &'static str = "未分類の ［＃…］ 注記";
pub const RESIDUAL_EXPLAIN: &'static str = "`［＃…］` の注記が、注記辞典 (gaiji_chuki) のどのキーワードにも一致しませんでした。誤字か、未対応の注記の可能性があります。\n\n\
                  確認手順:\n\
                  1. ［＃ の中身が `改ページ` `中央揃え` などの登録済みキーワードと一致するか確認\n\
                  2. `第3水準1-…` のような JIS X 0213 面区点コードを付け忘れていないか確認\n\
                  3. それでも不明なら、説明のみ形式 (`※［＃「説明」］`) でひとまず通せます";
pub const RESIDUAL_REPRO: &'static str = "本文［＃なぞの注記］";
pub const RESIDUAL_FIXED: &'static str = "本文［＃改ページ］";
pub const UNREGISTERED_TITLE: &'static str = "未登録の内部 sentinel（パイプライン内部エラー）";
pub const UNREGISTERED_EXPLAIN: &'static str = "解析パイプライン内部の整合性チェックが、レジストリに登録されていない私用領域 sentinel を検出しました。通常のソースからは到達しないコードで、aozora のパイプライン側のバグである可能性が高いです。\n\n\
                  再現手順を添えて issue で報告してください: https://github.com/P4suta/aozora-tools/issues";
pub const UNREGISTERED_REPRO: &'static str = "（通常のソースからは発生しません）";
pub const UNREGISTERED_FIXED: &'static str = "（パイプラインのバグ。手元の修正では直せません）";
pub const OUT_OF_ORDER_TITLE: &'static str = "プレースホルダーレジストリの順序破壊（パイプライン内部エラー）";
pub const OUT_OF_ORDER_EXPLAIN: &'static str = "プレースホルダーレジストリの並び順が、期待される昇順から崩れています。通常のソースからは到達しない内部整合性エラーで、aozora のパイプライン側のバグである可能性が高いです。\n\n\
                  再現手順を添えて issue で報告してください: https://github.com/P4suta/aozora-tools/issues";
pub const OUT_OF_ORDER_REPRO: &'static str = "（通常のソースからは発生しません）";
pub const OUT_OF_ORDER_FIXED: &'static str = "（パイプラインのバグ。手元の修正では直せません）";
pub const MISMATCH_TITLE: &'static str = "プレースホルダーレジストリの位置不一致（パイプライン内部エラー）";
pub const MISMATCH_EXPLAIN: &'static str = "プレースホルダーが記録していた位置情報が、復元時の実際の位置と一致しませんでした。通常のソースからは到達しない内部整合性エラーで、aozora のパイプライン側のバグである可能性が高いです。\n\n\
                  再現手順を添えて issue で報告してください: https://github.com/P4suta/aozora-tools/issues";
pub const MISMATCH_REPRO: &'static str = "（通常のソースからは発生しません）";
pub const MISMATCH_FIXED: &'static str = "（パイプラインのバグ。手元の修正では直せません）";
pub const UNKNOWN_TITLE: &'static str = "未対応の診断";
pub const UNKNOWN_EXPLAIN: &'static str = "aozora-tools が認識していない種類の診断を、upstream の aozora パーサが返しました。aozora-tools と aozora パーサのバージョンが揃っていない可能性があります。\n\n\
                  ツールを最新版に更新するか、バージョンの不一致がないか確認してください。";
pub const UNKNOWN_REPRO: &'static str = "（バージョン不一致時に発生）";
pub const UNKNOWN_FIXED: &'static str = "（ツールのバージョンを揃えて再実行）";

/// Every diagnostic code [`describe`] can emit, with its explanation,
/// in a fixed order.
pub open spec fn catalogue_spec() -> Seq<CatalogueEntry> {
    seq![
        CatalogueEntry { code: CODE_PUA, title: PUA_TITLE, explain: PUA_EXPLAIN, repro: PUA_REPRO, fixed: PUA_FIXED },
        CatalogueEntry { code: CODE_UNCLOSED, title: UNCLOSED_TITLE, explain: UNCLOSED_EXPLAIN, repro: UNCLOSED_REPRO, fixed: UNCLOSED_FIXED },
        CatalogueEntry { code: CODE_UNMATCHED, title: UNMATCHED_TITLE, explain: UNMATCHED_EXPLAIN, repro: UNMATCHED_REPRO, fixed: UNMATCHED_FIXED },
        CatalogueEntry { code: CODE_RESIDUAL, title: RESIDUAL_TITLE, explain: RESIDUAL_EXPLAIN, repro: RESIDUAL_REPRO, fixed: RESIDUAL_FIXED },
        CatalogueEntry { code: CODE_UNREGISTERED, title: UNREGISTERED_TITLE, explain: UNREGISTERED_EXPLAIN, repro: UNREGISTERED_REPRO, fixed: UNREGISTERED_FIXED },
        CatalogueEntry { code: CODE_OUT_OF_ORDER, title: OUT_OF_ORDER_TITLE, explain: OUT_OF_ORDER_EXPLAIN, repro: OUT_OF_ORDER_REPRO, fixed: OUT_OF_ORDER_FIXED },
        CatalogueEntry { code: CODE_MISMATCH, title: MISMATCH_TITLE, explain: MISMATCH_EXPLAIN, repro: MISMATCH_REPRO, fixed: MISMATCH_FIXED },
        CatalogueEntry { code: CODE_UNKNOWN, title: UNKNOWN_TITLE, explain: UNKNOWN_EXPLAIN, repro: UNKNOWN_REPRO, fixed: UNKNOWN_FIXED },
    ]
}

/// Every catalogue entry, in catalogue order.
pub fn catalogue() -> (v: Vec<CatalogueEntry>)
    ensures
        v@ == catalogue_spec(),
{
    let mut v: Vec<CatalogueEntry> = Vec::new();
    v.push(CatalogueEntry { code: CODE_PUA, title: PUA_TITLE, explain: PUA_EXPLAIN, repro: PUA_REPRO, fixed: PUA_FIXED });
    v.push(CatalogueEntry { code: CODE_UNCLOSED, title: UNCLOSED_TITLE, explain: UNCLOSED_EXPLAIN, repro: UNCLOSED_REPRO, fixed: UNCLOSED_FIXED });
    v.push(CatalogueEntry { code: CODE_UNMATCHED, title: UNMATCHED_TITLE, explain: UNMATCHED_EXPLAIN, repro: UNMATCHED_REPRO, fixed: UNMATCHED_FIXED });
    v.push(CatalogueEntry { code: CODE_RESIDUAL, title: RESIDUAL_TITLE, explain: RESIDUAL_EXPLAIN, repro: RESIDUAL_REPRO, fixed: RESIDUAL_FIXED });
    v.push(CatalogueEntry { code: CODE_UNREGISTERED, title: UNREGISTERED_TITLE, explain: UNREGISTERED_EXPLAIN, repro: UNREGISTERED_REPRO, fixed: UNREGISTERED_FIXED });
    v.push(CatalogueEntry { code: CODE_OUT_OF_ORDER, title: OUT_OF_ORDER_TITLE, explain: OUT_OF_ORDER_EXPLAIN, repro: OUT_OF_ORDER_REPRO, fixed: OUT_OF_ORDER_FIXED });
    v.push(CatalogueEntry { code: CODE_MISMATCH, title: MISMATCH_TITLE, explain: MISMATCH_EXPLAIN, repro: MISMATCH_REPRO, fixed: MISMATCH_FIXED });
    v.push(CatalogueEntry { code: CODE_UNKNOWN, title: UNKNOWN_TITLE, explain: UNKNOWN_EXPLAIN, repro: UNKNOWN_REPRO, fixed: UNKNOWN_FIXED });
    proof {
        assert(v@ =~= catalogue_spec());
    }
    v
}

/// The first entry of `entries` whose code is `code`.
pub open spec fn first_with_code(entries: Seq<CatalogueEntry>, code: Seq<char>) -> Option<
    CatalogueEntry,
>
    decreases entries.len(),
{
    if entries.len() == 0 {
        None
    } else if entries[0].code@ == code {
        Some(entries[0])
    } else {
        first_with_code(entries.drop_first(), code)
    }
}

/// Look up the catalogue entry whose code is exactly `code`.
pub fn lookup(code: &str) -> (r: Option<CatalogueEntry>)
    ensures
        r == first_with_code(catalogue_spec(), code@),
{
    let entries = catalogue();
    let mut i: usize = 0;
    proof {
        assert(entries@.subrange(0, entries@.len() as int) =~= entries@);
    }
    while i < entries.len()
        invariant
            entries@ == catalogue_spec(),
            i <= entries@.len(),
            first_with_code(catalogue_spec(), code@) == first_with_code(
                entries@.subrange(i as int, entries@.len() as int),
                code@,
            ),
        decreases entries@.len() - i,
    {
        let e = entries[i];
        proof {
            let rest = entries@.subrange(i as int, entries@.len() as int);
            assert(rest.drop_first() =~= entries@.subrange(i + 1, entries@.len() as int));
            assert(rest[0] == e);
        }
        if str_eq(e.code, code) {
            return Some(e);
        }
        i += 1;
    }
    None
}

impl Span {
    pub fn new(start: u32, end: u32) -> (r: Self)
        ensures
            r.start == start,
            r.end == end,
    {
        Span { start, end }
    }
}

/// The lexer's own diagnostic value.
#[verifier::external_type_specification]
#[verifier::external_body]
pub struct ExAozoraDiagnostic(aozora::Diagnostic);

/// The lexer's delimiter-pair kind.
#[verifier::external_type_specification]
#[verifier::external_body]
pub struct ExPairKind(aozora::PairKind);

/// The lexer's internal-check identifier.
#[verifier::external_type_specification]
#[verifier::external_body]
pub struct ExInternalCheckCode(aozora::InternalCheckCode);

/// Tells the variants of `aozora::PairKind` apart, one arm each; a kind
/// added in a later release of the lexer maps to `Bracket`. Nothing is
/// claimed of the result: the lexer's type is opaque here.
#[verifier::external_body]
fn pair_kind_from_lexer(k: aozora::PairKind) -> SerializablePairKind {
    match k {
        aozora::PairKind::Ruby => SerializablePairKind::Ruby,
        aozora::PairKind::DoubleRuby => SerializablePairKind::DoubleRuby,
        aozora::PairKind::Tortoise => SerializablePairKind::Tortoise,
        aozora::PairKind::Quote => SerializablePairKind::Quote,
        _ => SerializablePairKind::Bracket,
    }
}

/// Tells the variants of `aozora::InternalCheckCode` apart, one arm
/// each; a check added in a later release maps to `None`. Nothing is
/// claimed of the result: the lexer's type is opaque here.
#[verifier::external_body]
fn internal_check_from_lexer(c: aozora::InternalCheckCode) -> Option<InternalCheck> {
    match c {
        aozora::InternalCheckCode::ResidualAnnotationMarker => Some(InternalCheck::ResidualAnnotationMarker),
        aozora::InternalCheckCode::UnregisteredSentinel => Some(InternalCheck::UnregisteredSentinel),
        aozora::InternalCheckCode::RegistryOutOfOrder => Some(InternalCheck::RegistryOutOfOrder),
        aozora::InternalCheckCode::RegistryPositionMismatch => Some(InternalCheck::RegistryPositionMismatch),
        _ => None,
    }
}

/// Tells the variants of `aozora::Diagnostic` apart, one arm each,
/// moving each field into the library's plain form: spans by their two
/// offsets, pair kinds and check codes through the one-arm-per-variant
/// conversions above, and the debug rendering for internal and unknown
/// ones. Nothing is claimed of the result: the lexer's type is opaque here.
#[verifier::external_body]
fn lex_diagnostic_from_lexer(d: &AozoraDiagnostic) -> LexDiagnostic {
    match d {
        AozoraDiagnostic::SourceContainsPua { span, codepoint, .. } => LexDiagnostic::SourceContainsPua { span: Span { start: span.start, end: span.end }, codepoint: *codepoint },
        AozoraDiagnostic::UnclosedBracket { span, kind, .. } => LexDiagnostic::UnclosedBracket { span: Span { start: span.start, end: span.end }, kind: pair_kind_from_lexer(*kind) },
        AozoraDiagnostic::UnmatchedClose { span, kind, .. } => LexDiagnostic::UnmatchedClose { span: Span { start: span.start, end: span.end }, kind: pair_kind_from_lexer(*kind) },
        AozoraDiagnostic::Internal { span, check, .. } => LexDiagnostic::Internal { span: Span { start: span.start, end: span.end }, check: internal_check_from_lexer(*check), rendered: format!("{d:?}") },
        _ => LexDiagnostic::Unknown { rendered: format!("{d:?}") },
    }
}

impl SerializablePairKind {
    /// The library's form of the lexer's pair kind.
    pub fn from_pair_kind(k: aozora::PairKind) -> (r: Self) {
        pair_kind_from_lexer(k)
    }
}

impl InternalCheck {
    /// The library's form of the lexer's check code; `None` for a check
    /// this library does not know.
    pub fn from_code(c: aozora::InternalCheckCode) -> (r: Option<Self>) {
        internal_check_from_lexer(c)
    }
}

impl LexDiagnostic {
    /// The library's form of one lexer diagnostic.
    pub fn from_lexer(d: &AozoraDiagnostic) -> (r: Self) {
        lex_diagnostic_from_lexer(d)
    }
}

/// Room for the lexer's cleaned copy of a source of `len` bytes. Its
/// first pass may insert a newline before a rule line (at most one per
/// line, so the text at most doubles, plus one) and then decomposes
/// accent digraphs (two bytes become at most three); the cleaned text
/// must fit `u32` byte offsets, or the lexer panics.
pub open spec fn lexer_room(len: nat) -> bool {
    3 * len + 2 <= u32::MAX
}

/// Whether `source` is short enough for the lexer (`lexer_room`).
pub fn fits_lexer(source: &str) -> (r: bool)
    ensures
        r == lexer_room(source.spec_bytes().len()),
{
    source.as_bytes().len() <= 1431655764usize
}

/// The diagnostics the lexer reports for `source`, in its order.
pub uninterp spec fn lexed_diagnostics(source: Seq<char>) -> Seq<LexDiagnostic>;

/// Parses `source` with `aozora::Document::new(source).parse()` (default
/// options) and returns its `diagnostics()` in the library's form. The
/// list is named, not stated: what the lexer reports is its own logic.
/// The lexer asserts that its cleaned copy of the source fits `u32` byte
/// offsets, so `requires` keeps sources without `lexer_room` out.
#[verifier::external_body]
pub(crate) fn lex_diagnostics(source: &str) -> (r: Vec<LexDiagnostic>)
    requires
        lexer_room(source.spec_bytes().len()),
    ensures
        r@ == lexed_diagnostics(source@),
{
    let document = aozora::Document::new(source);
    let tree = document.parse();
    tree.diagnostics().iter().map(lex_diagnostic_from_lexer).collect()
}

/// Describe every diagnostic in `diagnostics`, in order.
pub fn describe_all(diagnostics: &[LexDiagnostic]) -> (r: Vec<Described>)
    ensures
        r@.len() == diagnostics@.len(),
        forall|i: int| 0 <= i < r@.len() ==> described_as(#[trigger] r@[i], diagnostics@[i]),
{
    let mut out: Vec<Described> = Vec::new();
    let mut i: usize = 0;
    while i < diagnostics.len()
        invariant
            i <= diagnostics@.len(),
            out@.len() == i,
            forall|j: int| 0 <= j < i ==> described_as(#[trigger] out@[j], diagnostics@[j]),
        decreases diagnostics@.len() - i,
    {
        out.push(describe(&diagnostics[i]));
        i += 1;
    }
    out
}

/// Parse `source` and describe every diagnostic the lexer reports.
pub fn describe_source(source: &str) -> (r: Vec<Described>)
    requires
        lexer_room(source.spec_bytes().len()),
    ensures
        r@.len() == lexed_diagnostics(source@).len(),
        forall|i: int|
            0 <= i < r@.len() ==> described_as(#[trigger] r@[i], lexed_diagnostics(source@)[i]),
{
    let diagnostics = lex_diagnostics(source);
    describe_all(diagnostics.as_slice())
}

/// Every code that `describe` can give a diagnostic has an entry in the
/// catalogue, so `aozora explain` can explain whatever the tools report.
pub proof fn law_every_described_code_is_catalogued(r: Described, d: LexDiagnostic)
    requires
        described_as(r, d),
    ensures
        first_with_code(catalogue_spec(), r.code@) matches Some(e) && e.code@ == r.code@,
{
    reveal_strlit("aozora::source-contains-pua");
    reveal_strlit("aozora::unclosed-bracket");
    reveal_strlit("aozora::unmatched-close");
    reveal_strlit("aozora::residual-annotation-marker");
    reveal_strlit("aozora::unregistered-sentinel");
    reveal_strlit("aozora::registry-out-of-order");
    reveal_strlit("aozora::registry-position-mismatch");
    reveal_strlit("aozora::unknown-diagnostic");
    reveal_with_fuel(first_with_code, 9);
}

/// Every catalogue entry has a title and an explanation.
proof fn lemma_catalogue_texts_present()
    ensures
        forall|i: int|
            0 <= i < catalogue_spec().len() ==> (#[trigger] catalogue_spec()[i]).title@.len() > 0
                && catalogue_spec()[i].explain@.len() > 0,
{
    reveal_strlit("私用領域文字がソースに紛れ込んでいる");
    reveal_strlit("aozora-lex は変換処理の途中で U+E001..U+E004 の私用領域 (PUA) コードポイントを内部マーカー (sentinel) として予約しています。ソース中に同じ領域の文字が含まれていると、この内部マーカーと衝突し、解析が破綻します。\n\n\
                  この文字は通常の青空文庫テキストには現れません。多くはエディタの不可視文字設定や、別アプリからのコピー&ペーストで紛れ込みます。\n\n\
                  直し方: 該当の 1 文字を削除してください。エディタの「不可視文字を表示」機能で位置を特定できます。");
    reveal_strlit("閉じられていない開き括弧");
    reveal_strlit("aozora 記法では `［` … `］`、`《` … `》`、`「` … `」` などの括弧ペアは原則として同じ行の中で閉じる必要があります。閉じ括弧が見つからないまま行が終わると、注記やルビの範囲が確定できず、後段の整形・HTML 化が破綻します。\n\n\
                  ヒント: 注記 `［＃…］` の中身が `改ページ` などの登録済みキーワードか確認してください。未登録の場合は aozora::residual-annotation-marker も併せて出ることがあります。");
    reveal_strlit("対応する開き括弧のない閉じ括弧");
    reveal_strlit("閉じ括弧 (`］` `》` `」` など) に対応する開き括弧が見つかりません。\n\n\
                  考えられる原因:\n\
                  1. 余分な閉じ括弧を打ってしまった → 削除する\n\
                  2. 前にあるはずの開き括弧が欠けている → 適切な位置に追加する\n\
                  3. 途中に別の閉じ括弧があり、ペアが一段ずれた → 該当箇所のペアを見直す");
    reveal_strlit("未分類の ［＃…］ 注記");
    reveal_strlit("`［＃…］` の注記が、注記辞典 (gaiji_chuki) のどのキーワードにも一致しませんでした。誤字か、未対応の注記の可能性があります。\n\n\
                  確認手順:\n\
                  1. ［＃ の中身が `改ページ` `中央揃え` などの登録済みキーワードと一致するか確認\n\
                  2. `第3水準1-…` のような JIS X 0213 面区点コードを付け忘れていないか確認\n\
                  3. それでも不明なら、説明のみ形式 (`※［＃「説明」］`) でひとまず通せます");
    reveal_strlit("未登録の内部 sentinel（パイプライン内部エラー）");
    reveal_strlit("解析パイプライン内部の整合性チェックが、レジストリに登録されていない私用領域 sentinel を検出しました。通常のソースからは到達しないコードで、aozora のパイプライン側のバグである可能性が高いです。\n\n\
                  再現手順を添えて issue で報告してください: https://github.com/P4suta/aozora-tools/issues");
    reveal_strlit("プレースホルダーレジストリの順序破壊（パイプライン内部エラー）");
    reveal_strlit("プレースホルダーレジストリの並び順が、期待される昇順から崩れています。通常のソースからは到達しない内部整合性エラーで、aozora のパイプライン側のバグである可能性が高いです。\n\n\
                  再現手順を添えて issue で報告してください: https://github.com/P4suta/aozora-tools/issues");
    reveal_strlit("プレースホルダーレジストリの位置不一致（パイプライン内部エラー）");
    reveal_strlit("プレースホルダーが記録していた位置情報が、復元時の実際の位置と一致しませんでした。通常のソースからは到達しない内部整合性エラーで、aozora のパイプライン側のバグである可能性が高いです。\n\n\
                  再現手順を添えて issue で報告してください: https://github.com/P4suta/aozora-tools/issues");
    reveal_strlit("未対応の診断");
    reveal_strlit("aozora-tools が認識していない種類の診断を、upstream の aozora パーサが返しました。aozora-tools と aozora パーサのバージョンが揃っていない可能性があります。\n\n\
                  ツールを最新版に更新するか、バージョンの不一致がないか確認してください。");
    let c = catalogue_spec();
    assert(c.len() == 8);
}

/// The catalogue's codes are pairwise distinct and all live under the
/// `aozora::` namespace, and every entry has a title and an explanation.
pub proof fn law_catalogue_codes_unique_and_namespaced()
    ensures
        forall|i: int, j: int|
            0 <= i < j < catalogue_spec().len() ==> catalogue_spec()[i].code@
                != catalogue_spec()[j].code@,
        forall|i: int|
            0 <= i < catalogue_spec().len() ==> (#[trigger] catalogue_spec()[i].code@).subrange(0, 8)
                == "aozora::"@,
        forall|i: int|
            0 <= i < catalogue_spec().len() ==> (#[trigger] catalogue_spec()[i]).title@.len() > 0
                && catalogue_spec()[i].explain@.len() > 0,
{
    lemma_catalogue_texts_present();
    reveal_strlit("aozora::");
    reveal_strlit("aozora::source-contains-pua");
    reveal_strlit("aozora::unclosed-bracket");
    reveal_strlit("aozora::unmatched-close");
    reveal_strlit("aozora::residual-annotation-marker");
    reveal_strlit("aozora::unregistered-sentinel");
    reveal_strlit("aozora::registry-out-of-order");
    reveal_strlit("aozora::registry-position-mismatch");
    reveal_strlit("aozora::unknown-diagnostic");
    let c = catalogue_spec();
    assert(c.len() == 8);
    assert forall|i: int| 0 <= i < c.len() implies (#[trigger] c[i].code@).subrange(0, 8) == "aozora::"@ by {
        assert(c[i].code@.subrange(0, 8) =~= "aozora::"@);
    }
    assert forall|i: int, j: int| 0 <= i < j < c.len() implies c[i].code@ != c[j].code@ by {
        if c[i].code@.len() == c[j].code@.len() {
            assert(c[i].code@[8] != c[j].code@[8] || c[i].code@[9] != c[j].code@[9]
                || c[i].code@[10] != c[j].code@[10] || c[i].code@[11] != c[j].code@[11]
                || c[i].code@[12] != c[j].code@[12]);
        }
    }
}

} // verus!

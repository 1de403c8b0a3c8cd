//! How the language server keeps a document in sync: what each content
//! change of a `didChange` batch does to the buffer, when a debounced
//! re-parse publishes, and what an oversized document publishes in
//! place of its diagnostics.

use vstd::prelude::*;
use vstd::string::*;

use crate::lsp_diagnostics::{DiagnosticSeverity, LspDiagnostic, SOURCE_TAG};
use crate::parse_cache::MAX_DOCUMENT_BYTES;
use crate::position::{offset_at, position_to_byte_offset, Position, Range};
use crate::render::{oversize_notice_message, oversize_notice_spec};
use crate::text_edit::LocalTextEdit;

verus! {

/// The byte edit a ranged change makes: its range's ends as byte offsets
/// of `source`; none when an end lies past the text or the range is
/// reversed.
pub open spec fn change_edit_spec(b: Seq<u8>, range: Range) -> Option<(int, int)> {
    match (offset_at(b, range.start), offset_at(b, range.end)) {
        (Some(s), Some(e)) => if e < s {
            None
        } else {
            Some((s, e))
        },
        _ => None,
    }
}

/// Convert a ranged content change into a byte edit of `source`.
pub fn lsp_change_to_edit(source: &str, range: Option<Range>, text: &str) -> (r: Option<LocalTextEdit>)
    ensures
        range is None ==> r is None,
        range matches Some(rg) ==> match (r, change_edit_spec(source.spec_bytes(), rg)) {
            (Some(e), Some(x)) => e.range.start == x.0 && e.range.end == x.1 && e.new_text@ == text@,
            (None, None) => true,
            _ => false,
        },
{
    let rg = match range {
        Some(r) => r,
        None => {
            return None;
        },
    };
    let start = match position_to_byte_offset(source, rg.start) {
        Some(s) => s,
        None => {
            return None;
        },
    };
    let end = match position_to_byte_offset(source, rg.end) {
        Some(e) => e,
        None => {
            return None;
        },
    };
    if end < start {
        return None;
    }
    Some(LocalTextEdit::new(start..end, String::from_str(text)))
}

/// What one content change does to the buffer.
#[derive(Debug)]
pub enum ChangeAction {
    /// Apply this byte edit.
    Edit(LocalTextEdit),
    /// Replace the whole text.
    Replace(String),
    /// Skip a change whose range does not resolve.
    Skip,
}

/// The action for a content change against the current text: a change
/// without a range replaces the text; a ranged one is applied as a byte
/// edit, or skipped when its range does not resolve.
pub fn change_action(source: &str, range: Option<Range>, text: &str) -> (a: ChangeAction)
    ensures
        range is None ==> (a matches ChangeAction::Replace(t) && t@ == text@),
        range matches Some(rg) ==> match change_edit_spec(source.spec_bytes(), rg) {
            Some(x) => a matches ChangeAction::Edit(e) && e.range.start == x.0 && e.range.end == x.1
                && e.new_text@ == text@,
            None => a is Skip,
        },
{
    match lsp_change_to_edit(source, range, text) {
        Some(edit) => ChangeAction::Edit(edit),
        None => {
            if range.is_none() {
                ChangeAction::Replace(String::from_str(text))
            } else {
                ChangeAction::Skip
            }
        },
    }
}

/// What a debounced re-parse does when it wakes.
#[derive(Debug, Clone, Copy, PartialEq, Eq, Structural)]
pub enum PublishStep {
    /// A newer edit arrived; its own task publishes.
    Stale,
    /// The document is too large to analyse: publish the notice.
    Oversize,
    /// Parse and publish.
    Parse,
}

/// The step a re-parse scheduled at `target_version` takes on waking,
/// with the document at `current_version` and `byte_len` bytes.
pub open spec fn publish_plan(current_version: u64, target_version: u64, byte_len: nat) -> PublishStep {
    if current_version != target_version {
        PublishStep::Stale
    } else if byte_len > MAX_DOCUMENT_BYTES {
        PublishStep::Oversize
    } else {
        PublishStep::Parse
    }
}

/// The step for a re-parse scheduled at `target_version`, now that the
/// document is at `current_version` with `byte_len` bytes.
pub fn publish_step(current_version: u64, target_version: u64, byte_len: usize) -> (s: PublishStep)
    ensures
        s == publish_plan(current_version, target_version, byte_len as nat),
        current_version != target_version ==> s == PublishStep::Stale,
        current_version == target_version && byte_len > MAX_DOCUMENT_BYTES ==> s == PublishStep::Oversize,
        current_version == target_version && byte_len <= MAX_DOCUMENT_BYTES ==> s == PublishStep::Parse,
{
    if current_version != target_version {
        PublishStep::Stale
    } else if byte_len > MAX_DOCUMENT_BYTES {
        PublishStep::Oversize
    } else {
        PublishStep::Parse
    }
}

/// What a re-parse does once its parse has finished.
#[derive(Debug, Clone, Copy, PartialEq, Eq, Structural)]
pub enum AfterParse {
    /// A newer edit arrived during the parse: install nothing, publish
    /// nothing.
    Drop,
    /// Install the diagnostics into the document's cache, then publish
    /// them once.
    InstallThenPublish,
}

/// The step after the parse, with the document at `current_version`.
pub open spec fn after_parse_plan(current_version: u64, target_version: u64) -> AfterParse {
    if current_version == target_version {
        AfterParse::InstallThenPublish
    } else {
        AfterParse::Drop
    }
}

/// The step for a re-parse scheduled at `target_version` whose parse
/// has finished, now that the document is at `current_version`.
pub fn after_parse(current_version: u64, target_version: u64) -> (a: AfterParse)
    ensures
        a == after_parse_plan(current_version, target_version),
        current_version != target_version ==> a == AfterParse::Drop,
        current_version == target_version ==> a == AfterParse::InstallThenPublish,
{
    if current_version == target_version {
        AfterParse::InstallThenPublish
    } else {
        AfterParse::Drop
    }
}

/// A debounced re-parse installs and publishes parsed diagnostics only
/// for the version it was scheduled for: the document was at that version
/// when it woke and still is after the parse, and the text was within the
/// analysis limit. Otherwise it publishes the oversize notice (and never
/// parses), or nothing.
pub proof fn law_publish_only_for_the_scheduled_version(
    at_wake: u64,
    after: u64,
    target: u64,
    byte_len: nat,
)
    ensures
        publish_plan(at_wake, target, byte_len) == PublishStep::Parse && after_parse_plan(after, target)
            == AfterParse::InstallThenPublish ==> at_wake == target && after == target && byte_len
            <= MAX_DOCUMENT_BYTES,
        publish_plan(at_wake, target, byte_len) == PublishStep::Oversize ==> at_wake == target
            && byte_len > MAX_DOCUMENT_BYTES,
        at_wake != target ==> publish_plan(at_wake, target, byte_len) == PublishStep::Stale,
        after != target ==> after_parse_plan(after, target) == AfterParse::Drop,
{
}

/// The single informational diagnostic published for an oversized
/// document, anchored at the start of the file.
pub fn oversize_notice(byte_len: usize) -> (d: LspDiagnostic)
    ensures
        d.range == (Range { start: Position { line: 0, character: 0 }, end: Position { line: 0, character: 0 } }),
        d.severity == Some(DiagnosticSeverity::Information),
        d.source matches Some(s) && s@ == SOURCE_TAG@,
        d.message@ == oversize_notice_spec(byte_len as nat),
        d.code is None,
        d.tags is None,
        d.data is None,
{
    LspDiagnostic {
        range: Range::new(Position::new(0, 0), Position::new(0, 0)),
        severity: Some(DiagnosticSeverity::Information),
        code: None,
        source: Some(String::from_str(SOURCE_TAG)),
        message: oversize_notice_message(byte_len),
        tags: None,
        data: None,
    }
}

/// The characters that trigger completion: the slug catalogue's `＃`,
/// `#` and `「`, the half-width shortcuts, and the structured snippets'
/// full-width triggers.
pub fn completion_trigger_characters() -> (v: Vec<&'static str>)
    ensures
        v@ == seq!["＃", "#", "「", "[", "]", "<", ">", "|", "*", "｜", "《", "※"],
{
    let v = vec!["＃", "#", "「", "[", "]", "<", ">", "|", "*", "｜", "《", "※"];
    proof {
        assert(v@ =~= seq!["＃", "#", "「", "[", "]", "<", ">", "|", "*", "｜", "《", "※"]);
    }
    v
}

} // verus!

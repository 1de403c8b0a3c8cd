//! Half-width → full-width completion ("emmet") items: with a
//! half-width trigger (`<`, `>`, `[`, `]`, `|`) just before the cursor,
//! offer the one full-width form it stands for (`《${0}》`, `》`, `［`,
//! `］`, `｜`). Inside a `[#` / `［＃` prefix the slug catalogue owns
//! the cursor, so nothing is offered there.

use vstd::prelude::*;
use vstd::string::*;
use vstd::utf8::*;

use crate::completion::{CompletionItem, CompletionItemKind, InsertTextFormat};
use crate::lines::NL;
use crate::position::{byte_offset_to_position, offset_at, position_at, position_to_byte_offset, Position, Range, TextEdit};
use crate::scan::{find_bytes, first_match_from};
use crate::utf8_bytes::{at_boundary, bytes_match_at, lemma_str_valid, matches_at};

verus! {

/// One half-width → full-width substitution.
#[derive(Debug, Clone, Copy)]
pub struct EmmetRule {
    /// Half-width prefix typed just before the cursor.
    pub prefix: &'static str,
    /// Snippet body that replaces the prefix on accept.
    pub snippet: &'static str,
    /// Label shown in the completion popup.
    pub label: &'static str,
    /// Detail shown next to the label.
    pub detail: &'static str,
    /// Whether the body holds snippet tab stops.
    pub is_snippet: bool,
}

/// The substitutions, in lookup order.
pub open spec fn emmet_rules() -> Seq<EmmetRule> {
    seq![
        EmmetRule { prefix: "<", snippet: "《${0}》", label: "《...》", detail: "ルビ読み (半角『<』→全角ペア『《》』)", is_snippet: true },
        EmmetRule { prefix: ">", snippet: "》", label: "》", detail: "ルビ読み閉じ (半角『>』→全角『》』)", is_snippet: false },
        EmmetRule { prefix: "[", snippet: "［", label: "［", detail: "全角左ブラケット (半角『[』→全角『［』)", is_snippet: false },
        EmmetRule { prefix: "]", snippet: "］", label: "］", detail: "全角右ブラケット (半角『]』→全角『］』)", is_snippet: false },
        EmmetRule { prefix: "|", snippet: "｜", label: "｜", detail: "ルビベース印 (半角『|』→全角『｜』)", is_snippet: false },
    ]
}

/// The substitution table.
pub fn emmet_rule_table() -> (v: Vec<EmmetRule>)
    ensures
        v@ == emmet_rules(),
{
    let v = vec![
        EmmetRule { prefix: "<", snippet: "《${0}》", label: "《...》", detail: "ルビ読み (半角『<』→全角ペア『《》』)", is_snippet: true },
        EmmetRule { prefix: ">", snippet: "》", label: "》", detail: "ルビ読み閉じ (半角『>』→全角『》』)", is_snippet: false },
        EmmetRule { prefix: "[", snippet: "［", label: "［", detail: "全角左ブラケット (半角『[』→全角『［』)", is_snippet: false },
        EmmetRule { prefix: "]", snippet: "］", label: "］", detail: "全角右ブラケット (半角『]』→全角『］』)", is_snippet: false },
        EmmetRule { prefix: "|", snippet: "｜", label: "｜", detail: "ルビベース印 (半角『|』→全角『｜』)", is_snippet: false },
    ];
    proof {
        assert(v@ =~= emmet_rules());
    }
    v
}

/// Longest trigger prefix, in bytes.
pub const MAX_PREFIX_LEN: usize = 1;

/// How far back the slug-context check looks, in bytes.
pub const SLUG_WINDOW: usize = 256;

/// `r`'s prefix sits on a char boundary just before `cursor`.
pub open spec fn rule_applies(b: Seq<u8>, cursor: int, r: EmmetRule) -> bool {
    let plen = r.prefix.spec_bytes().len();
    &&& plen <= cursor
    &&& plen <= MAX_PREFIX_LEN
    &&& at_boundary(b, cursor - plen)
    &&& matches_at(b, cursor - plen, r.prefix.spec_bytes())
}

/// The first rule, from index `k` on, that applies at `cursor`.
pub open spec fn first_rule_from(b: Seq<u8>, cursor: int, k: int) -> Option<EmmetRule>
    decreases emmet_rules().len() - k,
{
    if k < 0 || k >= emmet_rules().len() {
        None
    } else if rule_applies(b, cursor, emmet_rules()[k]) {
        Some(emmet_rules()[k])
    } else {
        first_rule_from(b, cursor, k + 1)
    }
}

/// The encoding of `＃`.
pub open spec fn fw_hash_bytes() -> Seq<u8> {
    seq![0xefu8, 0xbcu8, 0x83u8]
}

/// The encoding of `［`.
pub open spec fn fw_open_bytes() -> Seq<u8> {
    seq![0xefu8, 0xbcu8, 0xbbu8]
}

/// The encoding of `］`.
pub open spec fn fw_close_bytes() -> Seq<u8> {
    seq![0xefu8, 0xbcu8, 0xbdu8]
}

/// The text before `cursor` ends with `#` or `＃`.
pub open spec fn ends_with_hash(b: Seq<u8>, cursor: int) -> bool {
    (cursor >= 1 && b[cursor - 1] == 0x23u8) || (cursor >= 3 && matches_at(
        b,
        cursor - 3,
        fw_hash_bytes(),
    ))
}

/// The first char boundary at or after `p` (at most `cursor`).
pub open spec fn snap_forward(b: Seq<u8>, p: int, cursor: int) -> int
    decreases cursor - p,
{
    if p >= cursor || at_boundary(b, p) {
        p
    } else {
        snap_forward(b, p + 1, cursor)
    }
}

/// Start of the look-back window of `cursor`.
pub open spec fn slug_window_start(b: Seq<u8>, cursor: int) -> int {
    snap_forward(
        b,
        if cursor >= SLUG_WINDOW {
            cursor - SLUG_WINDOW
        } else {
            0
        },
        cursor,
    )
}

/// Scanning back from `p` to `start`, an opener (`[` / `［`) comes
/// before any close (`]` / `］`) or newline.
pub open spec fn opener_before(b: Seq<u8>, start: int, p: int, cursor: int) -> bool
    decreases p - start + 1,
{
    if p < start || p < 0 {
        false
    } else if b[p] == 0x5bu8 || (p + 3 <= cursor && matches_at(b, p, fw_open_bytes())) {
        true
    } else if b[p] == 0x5du8 || b[p] == NL || (p + 3 <= cursor && matches_at(b, p, fw_close_bytes())) {
        false
    } else {
        opener_before(b, start, p - 1, cursor)
    }
}

/// The cursor just typed the `#` of a `[#`-style slug opener.
pub open spec fn in_slug_context_spec(b: Seq<u8>, cursor: int) -> bool {
    ends_with_hash(b, cursor) && opener_before(b, slug_window_start(b, cursor), cursor - 1, cursor)
}

/// Whether the slug catalogue owns the cursor: the text before it ends
/// with `#` / `＃`, and looking back (within the window) a `[` / `［`
/// comes before any close or newline.
pub fn in_slug_context(source: &str, cursor: usize) -> (r: bool)
    requires
        cursor <= source.spec_bytes().len(),
    ensures
        r == in_slug_context_spec(source.spec_bytes(), cursor as int),
{
    let bytes = source.as_bytes();
    let ghost b = bytes@;
    let fw_hash: [u8; 3] = [0xefu8, 0xbcu8, 0x83u8];
    let fw_open: [u8; 3] = [0xefu8, 0xbcu8, 0xbbu8];
    let fw_close: [u8; 3] = [0xefu8, 0xbcu8, 0xbdu8];
    proof {
        assert(fw_hash@ =~= fw_hash_bytes());
        assert(fw_open@ =~= fw_open_bytes());
        assert(fw_close@ =~= fw_close_bytes());
    }
    let hash = (cursor >= 1 && bytes[cursor - 1] == 0x23) || (cursor >= 3 && bytes_match_at(
        bytes,
        cursor - 3,
        &fw_hash,
    ));
    if !hash {
        return false;
    }
    let mut start = if cursor >= SLUG_WINDOW {
        cursor - SLUG_WINDOW
    } else {
        0
    };
    while start < cursor && 0x80 <= bytes[start] && bytes[start] <= 0xbf
        invariant
            start <= cursor <= b.len(),
            b == bytes@,
            slug_window_start(b, cursor as int) == snap_forward(b, start as int, cursor as int),
        decreases cursor - start,
    {
        start += 1;
    }
    let mut p = cursor;
    while p > start
        invariant
            start <= p <= cursor <= b.len(),
            b == bytes@,
            b == source.spec_bytes(),
            fw_open@ == fw_open_bytes(),
            fw_close@ == fw_close_bytes(),
            start == slug_window_start(b, cursor as int),
            ends_with_hash(b, cursor as int),
            opener_before(b, start as int, cursor - 1, cursor as int) == opener_before(
                b,
                start as int,
                p - 1,
                cursor as int,
            ),
        decreases p - start,
    {
        let q = p - 1;
        let c = bytes[q];
        let three = cursor - q >= 3;
        if c == 0x5b || (three && bytes_match_at(bytes, q, &fw_open)) {
            return true;
        }
        if c == 0x5d || c == NL || (three && bytes_match_at(bytes, q, &fw_close)) {
            return false;
        }
        p = q;
    }
    false
}

/// Kind of an emmet item: a snippet when its body has the `${0}` stop.
pub open spec fn emmet_kind(r: EmmetRule) -> CompletionItemKind {
    if first_match_from(
        r.snippet.spec_bytes(),
        0,
        r.snippet.spec_bytes().len() as int,
        seq![0x24u8, 0x7bu8, 0x30u8, 0x7du8],
    ) is Some {
        CompletionItemKind::Snippet
    } else {
        CompletionItemKind::Text
    }
}

/// `it` is the item of rule `r` accepted at `cursor` of `b`.
pub open spec fn emmet_item_spec(it: CompletionItem, b: Seq<u8>, cursor: int, r: EmmetRule) -> bool {
    &&& it.label@ == r.label@
    &&& it.filter_text is None
    &&& it.sort_text is None
    &&& it.kind == Some(emmet_kind(r))
    &&& it.detail matches Some(d) && d@ == r.detail@
    &&& it.documentation matches Some(m) && m@ == "半角 `"@ + r.prefix@ + "` → `"@ + r.label@ + "`"@
    &&& it.text_edit matches Some(t) && t.range == (Range {
        start: position_at(b, cursor - r.prefix.spec_bytes().len()),
        end: position_at(b, cursor),
    }) && t.new_text@ == r.snippet@
    &&& it.insert_text_format == Some(
        if r.is_snippet {
            InsertTextFormat::Snippet
        } else {
            InsertTextFormat::PlainText
        },
    )
    &&& it.additional_text_edits is None
    &&& it.preselect == Some(true)
}

/// The completion item of `rule`, replacing its prefix before `cursor`.
pub fn build_item(source: &str, cursor: usize, rule: &EmmetRule) -> (it: CompletionItem)
    requires
        cursor <= source.spec_bytes().len(),
        at_boundary(source.spec_bytes(), cursor as int),
        rule_applies(source.spec_bytes(), cursor as int, *rule),
    ensures
        emmet_item_spec(it, source.spec_bytes(), cursor as int, *rule),
{
    let plen = rule.prefix.as_bytes().len();
    let edit_start = cursor - plen;
    let range = Range {
        start: byte_offset_to_position(source, edit_start),
        end: byte_offset_to_position(source, cursor),
    };
    let format = if rule.is_snippet {
        InsertTextFormat::Snippet
    } else {
        InsertTextFormat::PlainText
    };
    let stop: [u8; 4] = [0x24u8, 0x7bu8, 0x30u8, 0x7du8];
    proof {
        assert(stop@ =~= seq![0x24u8, 0x7bu8, 0x30u8, 0x7du8]);
    }
    let snippet_bytes = rule.snippet.as_bytes();
    let kind = if find_bytes(snippet_bytes, 0, snippet_bytes.len(), &stop).is_some() {
        CompletionItemKind::Snippet
    } else {
        CompletionItemKind::Text
    };
    let mut doc = String::from_str("半角 `");
    doc.append(rule.prefix);
    doc.append("` → `");
    doc.append(rule.label);
    doc.append("`");
    CompletionItem {
        label: String::from_str(rule.label),
        filter_text: None,
        sort_text: None,
        kind: Some(kind),
        detail: Some(String::from_str(rule.detail)),
        documentation: Some(doc),
        text_edit: Some(TextEdit { range, new_text: String::from_str(rule.snippet) }),
        insert_text_format: Some(format),
        additional_text_edits: None,
        preselect: Some(true),
    }
}

/// What [`emmet_completions`] offers at `position`: the first rule whose
/// prefix sits just before the cursor, outside a slug context.
pub open spec fn emmet_spec(b: Seq<u8>, position: Position) -> Option<(int, EmmetRule)> {
    match offset_at(b, position) {
        None => None,
        Some(cursor) => if cursor == 0 || in_slug_context_spec(b, cursor) {
            None
        } else {
            match first_rule_from(b, cursor, 0) {
                None => None,
                Some(r) => Some((cursor, r)),
            }
        },
    }
}

/// Emmet completion items at `position`: at most one, for the first
/// rule whose half-width prefix sits just before the cursor.
pub fn emmet_completions(source: &str, position: Position) -> (items: Vec<CompletionItem>)
    ensures
        match emmet_spec(source.spec_bytes(), position) {
            None => items@.len() == 0,
            Some((cursor, r)) => items@.len() == 1 && emmet_item_spec(
                items@[0],
                source.spec_bytes(),
                cursor,
                r,
            ),
        },
{
    let cursor = match position_to_byte_offset(source, position) {
        Some(c) => c,
        None => return Vec::new(),
    };
    if cursor == 0 {
        return Vec::new();
    }
    if in_slug_context(source, cursor) {
        return Vec::new();
    }
    let bytes = source.as_bytes();
    let ghost b = bytes@;
    let rules = emmet_rule_table();
    let mut k: usize = 0;
    while k < rules.len()
        invariant
            b == bytes@,
            b == source.spec_bytes(),
            rules@ == emmet_rules(),
            k <= rules@.len(),
            0 < cursor <= b.len(),
            at_boundary(b, cursor as int),
            !in_slug_context_spec(b, cursor as int),
            offset_at(b, position) == Some(cursor as int),
            first_rule_from(b, cursor as int, 0) == first_rule_from(b, cursor as int, k as int),
        decreases rules@.len() - k,
    {
        let rule = rules[k];
        let prefix = rule.prefix.as_bytes();
        let plen = prefix.len();
        if plen <= cursor && plen <= MAX_PREFIX_LEN {
            let start = cursor - plen;
            if source.is_char_boundary(start) && bytes_match_at(bytes, start, prefix) {
                proof {
                    lemma_str_valid(source);
                    crate::utf8_bytes::lemma_boundary_iff(b, start as int);
                }
                let item = build_item(source, cursor, &rule);
                let mut out: Vec<CompletionItem> = Vec::new();
                out.push(item);
                proof {
                    assert(rule_applies(b, cursor as int, emmet_rules()[k as int]));
                    assert(first_rule_from(b, cursor as int, k as int) == Some(rule));
                }
                return out;
            }
            proof {
                lemma_str_valid(source);
                crate::utf8_bytes::lemma_boundary_iff(b, start as int);
            }
        }
        k += 1;
    }
    Vec::new()
}

} // verus!

//! Structured snippet completions: tab-stop skeletons for the
//! multi-char aozora forms, offered right after their trigger char is
//! typed — `#` (wrap into `［＃${0}］`, plus every catalogue entry
//! pre-wrapped), `｜` (`${1:base}《${2:reading}》`), `《`
//! (`${1:reading}》`) and `※` (the gaiji skeleton).

use vstd::prelude::*;

use crate::paragraph::is_byte_char_boundary;
use vstd::string::*;
use vstd::utf8::*;

use crate::completion::{
    body_text, canonical_to_snippet, doc_markdown, family_to_kind, kind_of_family, slug_entry,
    CompletionItem, CompletionItemKind, InsertTextFormat, SlugInfo,
};
use crate::lines::NL;
use crate::position::{byte_offset_to_position, offset_at, position_at, position_to_byte_offset, Position, Range, TextEdit};
use crate::utf8_bytes::{
    at_boundary, bytes_match_at, is_cont_byte, lemma_boundary_iff, lemma_str_valid, matches_at,
};

verus! {

/// The encodings of the trigger and look-ahead chars.
pub open spec fn hash_bytes() -> Seq<u8> {
    seq![0x23u8]
}

pub open spec fn fw_pipe_bytes() -> Seq<u8> {
    seq![0xefu8, 0xbdu8, 0x9cu8]
}

pub open spec fn open_angle_bytes() -> Seq<u8> {
    seq![0xe3u8, 0x80u8, 0x8au8]
}

pub open spec fn close_angle_bytes() -> Seq<u8> {
    seq![0xe3u8, 0x80u8, 0x8bu8]
}

pub open spec fn kome_bytes() -> Seq<u8> {
    seq![0xe2u8, 0x80u8, 0xbbu8]
}

pub open spec fn fw_open_bytes() -> Seq<u8> {
    seq![0xefu8, 0xbcu8, 0xbbu8]
}

pub open spec fn fw_close_bytes() -> Seq<u8> {
    seq![0xefu8, 0xbcu8, 0xbdu8]
}

/// Where the char `enc` encodes starts, when it sits right before
/// `cursor` on a char boundary.
pub open spec fn typed_before(b: Seq<u8>, cursor: int, enc: Seq<u8>) -> Option<int> {
    if cursor >= enc.len() && at_boundary(b, cursor - enc.len()) && matches_at(
        b,
        cursor - enc.len(),
        enc,
    ) {
        Some(cursor - enc.len())
    } else {
        None
    }
}

/// `Some(start)` when the char encoded by `enc` sits just before
/// `cursor`.
pub fn char_typed_just_before(source: &str, cursor: usize, enc: &[u8]) -> (r: Option<usize>)
    requires
        cursor <= source.spec_bytes().len(),
    ensures
        r == (match typed_before(source.spec_bytes(), cursor as int, enc@) {
            Some(p) => Some(p as usize),
            None => None::<usize>,
        }),
{
    let bytes = source.as_bytes();
    if enc.len() > cursor {
        return None;
    }
    let start = cursor - enc.len();
    proof {
        lemma_str_valid(source);
        lemma_boundary_iff(bytes@, start as int);
    }
    if !source.is_char_boundary(start) {
        return None;
    }
    if !bytes_match_at(bytes, start, enc) {
        return None;
    }
    Some(start)
}

/// The char ending at `end` is `[` or `［`.
pub open spec fn opener_just_before(b: Seq<u8>, end: int) -> bool {
    (end >= 1 && b[end - 1] == 0x5bu8) || (end >= 3 && matches_at(b, end - 3, fw_open_bytes()))
}

/// Whether the char ending at `end` is `[` or `［`.
fn opener_ends_at(bytes: &[u8], end: usize) -> (r: bool)
    requires
        end <= bytes@.len(),
    ensures
        r == opener_just_before(bytes@, end as int),
{
    let fw_open: [u8; 3] = [0xefu8, 0xbcu8, 0xbbu8];
    proof {
        assert(fw_open@ =~= fw_open_bytes());
    }
    (end >= 1 && bytes[end - 1] == 0x5b) || (end >= 3 && bytes_match_at(bytes, end - 3, &fw_open))
}

/// Among the first `limit` chars from `p` (with `taken` chars already
/// seen), one encoded by `a` or `b2` occurs, before any newline when
/// `stop_nl`.
pub open spec fn found_ahead(
    b: Seq<u8>,
    p: int,
    taken: int,
    limit: int,
    stop_nl: bool,
    a: Seq<u8>,
    b2: Seq<u8>,
) -> bool
    decreases b.len() - p,
{
    if p < 0 || p >= b.len() {
        false
    } else if is_continuation_byte(b[p]) {
        found_ahead(b, p + 1, taken, limit, stop_nl, a, b2)
    } else if taken >= limit {
        false
    } else if stop_nl && b[p] == NL {
        false
    } else if matches_at(b, p, a) || matches_at(b, p, b2) {
        true
    } else {
        found_ahead(b, p + 1, taken + 1, limit, stop_nl, a, b2)
    }
}

/// Whether one of the chars encoded by `a` / `b2` occurs among the
/// first `limit` chars from `cursor` (before a newline when `stop_nl`).
fn scan_ahead(bytes: &[u8], cursor: usize, limit: usize, stop_nl: bool, a: &[u8], b2: &[u8]) -> (r: bool)
    requires
        cursor <= bytes@.len(),
    ensures
        r == found_ahead(bytes@, cursor as int, 0, limit as int, stop_nl, a@, b2@),
{
    let mut p = cursor;
    let mut taken: usize = 0;
    while p < bytes.len()
        invariant
            cursor <= p <= bytes@.len(),
            taken <= limit,
            found_ahead(bytes@, cursor as int, 0, limit as int, stop_nl, a@, b2@) == found_ahead(
                bytes@,
                p as int,
                taken as int,
                limit as int,
                stop_nl,
                a@,
                b2@,
            ),
        decreases bytes@.len() - p,
    {
        let c = bytes[p];
        if !is_cont_byte(c) {
            if taken >= limit {
                return false;
            }
            if stop_nl && c == NL {
                return false;
            }
            if bytes_match_at(bytes, p, a) || bytes_match_at(bytes, p, b2) {
                return true;
            }
            taken += 1;
        }
        p += 1;
    }
    false
}

/// `it` is a preselected snippet item with these texts, editing `range`.
pub open spec fn fixed_snippet_item(
    it: CompletionItem,
    label: Seq<char>,
    filter: Seq<char>,
    detail: Seq<char>,
    doc: Seq<char>,
    range: Range,
    new_text: Seq<char>,
) -> bool {
    &&& it.label@ == label
    &&& it.filter_text matches Some(f) && f@ == filter
    &&& it.sort_text matches Some(s) && s@ == "00"@
    &&& it.kind == Some(CompletionItemKind::Snippet)
    &&& it.detail matches Some(d) && d@ == detail
    &&& it.documentation matches Some(m) && m@ == doc
    &&& it.text_edit matches Some(t) && t.range == range && t.new_text@ == new_text
    &&& it.insert_text_format == Some(InsertTextFormat::Snippet)
    &&& it.additional_text_edits is None
    &&& it.preselect == Some(true)
}

fn fixed_item(
    label: &str,
    filter: &str,
    detail: &str,
    doc: &str,
    range: Range,
    new_text: &str,
) -> (it: CompletionItem)
    ensures
        fixed_snippet_item(it, label@, filter@, detail@, doc@, range, new_text@),
{
    CompletionItem {
        label: String::from_str(label),
        filter_text: Some(String::from_str(filter)),
        sort_text: Some(String::from_str("00")),
        kind: Some(CompletionItemKind::Snippet),
        detail: Some(String::from_str(detail)),
        documentation: Some(String::from_str(doc)),
        text_edit: Some(TextEdit { range, new_text: String::from_str(new_text) }),
        insert_text_format: Some(InsertTextFormat::Snippet),
        additional_text_edits: None,
        preselect: Some(true),
    }
}

/// `it` is catalogue entry `e` pre-wrapped as `［＃canonical］`.
pub open spec fn wrapped_entry_item(it: CompletionItem, range: Range, e: SlugInfo) -> bool {
    &&& it.label@ == "［＃"@ + e.canonical@ + "］"@
    &&& it.filter_text matches Some(f) && f@ == "#"@ + e.canonical@
    &&& it.sort_text is None
    &&& it.kind == Some(kind_of_family(e.family@))
    &&& it.detail matches Some(d) && d@ == e.doc@
    &&& it.documentation matches Some(m) && m@ == doc_markdown(e)
    &&& it.text_edit matches Some(t) && t.range == range && t.new_text@ == "［＃"@ + body_text(e)
        + "］"@
    &&& it.insert_text_format == Some(
        if e.accepts_param {
            InsertTextFormat::Snippet
        } else {
            InsertTextFormat::PlainText
        },
    )
    &&& it.additional_text_edits is None
    &&& it.preselect is None
}

/// `it` wraps an entry of the catalogue that exists.
pub open spec fn wrapped_catalogue_item(it: CompletionItem, range: Range, o: Option<SlugInfo>) -> bool {
    match o {
        Some(e) => wrapped_entry_item(it, range, e),
        None => false,
    }
}

fn wrapped_item(range: Range, e: &SlugInfo) -> (it: CompletionItem)
    ensures
        wrapped_entry_item(it, range, *e),
{
    let (body, format) = if e.accepts_param {
        (canonical_to_snippet(e.canonical), InsertTextFormat::Snippet)
    } else {
        (String::from_str(e.canonical), InsertTextFormat::PlainText)
    };
    let mut label = String::from_str("［＃");
    label.append(e.canonical);
    label.append("］");
    let mut filter = String::from_str("#");
    filter.append(e.canonical);
    let mut doc = String::from_str("**");
    doc.append(e.family.as_str());
    doc.append("** ");
    doc.append(if e.accepts_param {
        "(パラメータあり)"
    } else {
        ""
    });
    doc.append("\n\n");
    doc.append(e.doc);
    let mut new_text = String::from_str("［＃");
    new_text.append(body.as_str());
    new_text.append("］");
    CompletionItem {
        label,
        filter_text: Some(filter),
        sort_text: None,
        kind: Some(family_to_kind(e.family.as_str())),
        detail: Some(String::from_str(e.doc)),
        documentation: Some(doc),
        text_edit: Some(TextEdit { range, new_text }),
        insert_text_format: Some(format),
        additional_text_edits: None,
        preselect: None,
    }
}

/// The replaced range of a `#` typed alone, when it is.
pub open spec fn hash_range(b: Seq<u8>, cursor: int) -> Option<Range> {
    match typed_before(b, cursor, hash_bytes()) {
        None => None,
        Some(t) => if opener_just_before(b, t) {
            None
        } else {
            Some(Range { start: position_at(b, t), end: position_at(b, cursor) })
        },
    }
}

/// The items of a `#` typed alone over `range`: the empty wrap first,
/// then every catalogue entry pre-wrapped, in catalogue order.
pub open spec fn hash_items_spec(items: Seq<CompletionItem>, range: Range) -> bool {
    &&& items.len() >= 1
    &&& fixed_snippet_item(
        items[0],
        "［＃］"@,
        "#"@,
        "注記スラグの空ひな型 (中身を編集)"@,
        "`#` を `［＃<カーソル>］` に変換。Enter で確定。"@,
        range,
        "［＃${0}］"@,
    )
    &&& forall|i: int|
        1 <= i < items.len() ==> wrapped_catalogue_item(#[trigger] items[i], range, slug_entry((i - 1) as nat))
    &&& (items.len() < usize::MAX ==> slug_entry((items.len() - 1) as nat) is None)
}

/// `#` typed alone (not right after `[` / `［`): wrap into `［＃${0}］`,
/// plus every catalogue entry pre-wrapped. A cursor past the text or
/// inside a char offers nothing.
pub fn hash_wrap_completions(source: &str, cursor: usize) -> (items: Vec<CompletionItem>)
    ensures
        !(cursor <= source.spec_bytes().len() && at_boundary(source.spec_bytes(), cursor as int))
            ==> items@.len() == 0,
        cursor <= source.spec_bytes().len() && at_boundary(source.spec_bytes(), cursor as int) ==> match hash_range(
            source.spec_bytes(),
            cursor as int,
        ) {
            None => items@.len() == 0,
            Some(range) => hash_items_spec(items@, range),
        },
{
    let bytes = source.as_bytes();
    if !is_byte_char_boundary(bytes, cursor) {
        return Vec::new();
    }
    let hash: [u8; 1] = [0x23u8];
    proof {
        assert(hash@ =~= hash_bytes());
    }
    let typed_start = match char_typed_just_before(source, cursor, &hash) {
        Some(t) => t,
        None => return Vec::new(),
    };
    if opener_ends_at(bytes, typed_start) {
        return Vec::new();
    }
    let range = Range {
        start: byte_offset_to_position(source, typed_start),
        end: byte_offset_to_position(source, cursor),
    };
    let mut items: Vec<CompletionItem> = Vec::new();
    items.push(
        fixed_item(
            "［＃］",
            "#",
            "注記スラグの空ひな型 (中身を編集)",
            "`#` を `［＃<カーソル>］` に変換。Enter で確定。",
            range,
            "［＃${0}］",
        ),
    );
    let mut i: usize = 0;
    while i < usize::MAX - 1
        invariant_except_break
            forall|k: int|
                1 <= k < items@.len() ==> wrapped_catalogue_item(#[trigger] items@[k], range, slug_entry((k - 1) as nat)),
        invariant
            items@.len() == i + 1,
            fixed_snippet_item(
                items@[0],
                "［＃］"@,
                "#"@,
                "注記スラグの空ひな型 (中身を編集)"@,
                "`#` を `［＃<カーソル>］` に変換。Enter で確定。"@,
                range,
                "［＃${0}］"@,
            ),
            forall|k: int|
                1 <= k < items@.len() ==> wrapped_catalogue_item(#[trigger] items@[k], range, slug_entry((k - 1) as nat)),
        ensures
            hash_items_spec(items@, range),
        decreases usize::MAX - 1 - i,
    {
        match crate::completion::slug_entry_at(i) {
            Some(e) => {
                items.push(wrapped_item(range, &e));
            },
            None => break,
        }
        i += 1;
    }
    items
}

/// The cursor position of a trigger typed alone, when `enc` sits just
/// before `cursor` and neither look-ahead char occurs within `limit`
/// chars (before a newline when `stop_nl`).
pub open spec fn lone_trigger(b: Seq<u8>, cursor: int, enc: Seq<u8>, limit: int, stop_nl: bool, a: Seq<u8>, b2: Seq<u8>) -> Option<Position> {
    if typed_before(b, cursor, enc) is None || found_ahead(b, cursor, 0, limit, stop_nl, a, b2) {
        None
    } else {
        Some(position_at(b, cursor))
    }
}

/// `items` holds the one fixed item when `trigger` fired, else nothing.
pub open spec fn single_item_spec(items: Seq<CompletionItem>, trigger: Option<Position>, label: Seq<char>, filter: Seq<char>, detail: Seq<char>, doc: Seq<char>, new_text: Seq<char>) -> bool {
    match trigger {
        None => items.len() == 0,
        Some(p) => items.len() == 1 && fixed_snippet_item(items[0], label, filter, detail, doc, Range { start: p, end: p }, new_text),
    }
}

pub open spec fn pipe_trigger(b: Seq<u8>, cursor: int) -> Option<Position> {
    lone_trigger(b, cursor, fw_pipe_bytes(), 32, true, open_angle_bytes(), close_angle_bytes())
}

pub open spec fn angle_trigger(b: Seq<u8>, cursor: int) -> Option<Position> {
    lone_trigger(b, cursor, open_angle_bytes(), 32, false, close_angle_bytes(), close_angle_bytes())
}

pub open spec fn kome_trigger(b: Seq<u8>, cursor: int) -> Option<Position> {
    lone_trigger(b, cursor, kome_bytes(), 64, false, fw_close_bytes(), fw_close_bytes())
}

/// One fixed item inserted at the cursor, when `enc` was typed alone.
fn lone_trigger_item(
    source: &str,
    cursor: usize,
    enc: &[u8],
    limit: usize,
    stop_nl: bool,
    a: &[u8],
    b2: &[u8],
    label: &str,
    filter: &str,
    detail: &str,
    doc: &str,
    new_text: &str,
) -> (items: Vec<CompletionItem>)
    requires
        cursor <= source.spec_bytes().len(),
        at_boundary(source.spec_bytes(), cursor as int),
    ensures
        single_item_spec(items@, lone_trigger(source.spec_bytes(), cursor as int, enc@, limit as int, stop_nl, a@, b2@), label@, filter@, detail@, doc@, new_text@),
{
    if char_typed_just_before(source, cursor, enc).is_none() {
        return Vec::new();
    }
    if scan_ahead(source.as_bytes(), cursor, limit, stop_nl, a, b2) {
        return Vec::new();
    }
    let pos = byte_offset_to_position(source, cursor);
    let mut items: Vec<CompletionItem> = Vec::new();
    items.push(fixed_item(label, filter, detail, doc, Range { start: pos, end: pos }, new_text));
    items
}

pub const PIPE_LABEL: &'static str = "${base}《${reading}》";
pub const PIPE_DETAIL: &'static str = "ルビ ｜ベース《読み》 (Tab で読みへ移動)";
pub const PIPE_DOC: &'static str = "`｜` の後に `<base>《<reading>》` を挿入。`<base>` から開始、Tab で `<reading>` へ。";
pub const PIPE_TEXT: &'static str = "${1:base}《${2:reading}》";
pub const ANGLE_LABEL: &'static str = "${reading}》";
pub const ANGLE_DETAIL: &'static str = "ルビ読み (閉じ括弧自動補完)";
pub const ANGLE_DOC: &'static str = "`《` の後に `<reading>》` を挿入。`<reading>` を編集。";
pub const ANGLE_TEXT: &'static str = "${1:reading}》";
pub const KOME_LABEL: &'static str = "［＃「${desc}」、${men}］";
pub const KOME_DETAIL: &'static str = "外字注記 (description, mencode)";
pub const KOME_DOC: &'static str = "`※` の後に `［＃「<desc>」、<men>］` を挿入。`<desc>` から開始、Tab で `<men>` へ。";
pub const KOME_TEXT: &'static str = "［＃「${1:description}」、${2:mencode}］${0}";

/// `｜` typed alone, with no `《` / `》` ahead on its line within 32
/// chars: the ruby skeleton after it.
pub fn pipe_ruby_completion(source: &str, cursor: usize) -> (items: Vec<CompletionItem>)
    requires
        cursor <= source.spec_bytes().len(),
        at_boundary(source.spec_bytes(), cursor as int),
    ensures
        single_item_spec(items@, pipe_trigger(source.spec_bytes(), cursor as int), PIPE_LABEL@, "｜"@, PIPE_DETAIL@, PIPE_DOC@, PIPE_TEXT@),
{
    let enc: [u8; 3] = [0xefu8, 0xbdu8, 0x9cu8];
    let a: [u8; 3] = [0xe3u8, 0x80u8, 0x8au8];
    let z: [u8; 3] = [0xe3u8, 0x80u8, 0x8bu8];
    proof {
        assert(enc@ =~= fw_pipe_bytes());
        assert(a@ =~= open_angle_bytes());
        assert(z@ =~= close_angle_bytes());
    }
    lone_trigger_item(source, cursor, &enc, 32, true, &a, &z, PIPE_LABEL, "｜", PIPE_DETAIL, PIPE_DOC, PIPE_TEXT)
}

/// `《` typed alone, with no `》` within the next 32 chars: the reading
/// skeleton.
pub fn open_angle_reading_completion(source: &str, cursor: usize) -> (items: Vec<CompletionItem>)
    requires
        cursor <= source.spec_bytes().len(),
        at_boundary(source.spec_bytes(), cursor as int),
    ensures
        single_item_spec(items@, angle_trigger(source.spec_bytes(), cursor as int), ANGLE_LABEL@, "《"@, ANGLE_DETAIL@, ANGLE_DOC@, ANGLE_TEXT@),
{
    let enc: [u8; 3] = [0xe3u8, 0x80u8, 0x8au8];
    let z: [u8; 3] = [0xe3u8, 0x80u8, 0x8bu8];
    proof {
        assert(enc@ =~= open_angle_bytes());
        assert(z@ =~= close_angle_bytes());
    }
    lone_trigger_item(source, cursor, &enc, 32, false, &z, &z, ANGLE_LABEL, "《", ANGLE_DETAIL, ANGLE_DOC, ANGLE_TEXT)
}

/// `※` typed alone, with no `］` within the next 64 chars: the gaiji
/// skeleton.
pub fn kome_gaiji_completion(source: &str, cursor: usize) -> (items: Vec<CompletionItem>)
    requires
        cursor <= source.spec_bytes().len(),
        at_boundary(source.spec_bytes(), cursor as int),
    ensures
        single_item_spec(items@, kome_trigger(source.spec_bytes(), cursor as int), KOME_LABEL@, "※"@, KOME_DETAIL@, KOME_DOC@, KOME_TEXT@),
{
    let enc: [u8; 3] = [0xe2u8, 0x80u8, 0xbbu8];
    let z: [u8; 3] = [0xefu8, 0xbcu8, 0xbdu8];
    proof {
        assert(enc@ =~= kome_bytes());
        assert(z@ =~= fw_close_bytes());
    }
    lone_trigger_item(source, cursor, &enc, 64, false, &z, &z, KOME_LABEL, "※", KOME_DETAIL, KOME_DOC, KOME_TEXT)
}

/// Number of items a trigger contributes.
pub open spec fn count_of(t: Option<Position>) -> int {
    if t is Some {
        1
    } else {
        0
    }
}

/// `rest` is the `｜`, `《` and `※` items at `cursor`, in that order.
pub open spec fn tail_spec(rest: Seq<CompletionItem>, b: Seq<u8>, cursor: int) -> bool {
    let np = count_of(pipe_trigger(b, cursor));
    let na = count_of(angle_trigger(b, cursor));
    let nk = count_of(kome_trigger(b, cursor));
    &&& rest.len() == np + na + nk
    &&& single_item_spec(rest.subrange(0, np), pipe_trigger(b, cursor), PIPE_LABEL@, "｜"@, PIPE_DETAIL@, PIPE_DOC@, PIPE_TEXT@)
    &&& single_item_spec(rest.subrange(np, np + na), angle_trigger(b, cursor), ANGLE_LABEL@, "《"@, ANGLE_DETAIL@, ANGLE_DOC@, ANGLE_TEXT@)
    &&& single_item_spec(rest.subrange(np + na, np + na + nk), kome_trigger(b, cursor), KOME_LABEL@, "※"@, KOME_DETAIL@, KOME_DOC@, KOME_TEXT@)
}

/// The first `h` items are the `#` items and the rest the others.
pub open spec fn snippet_split(items: Seq<CompletionItem>, b: Seq<u8>, cursor: int, h: int) -> bool {
    &&& 0 <= h <= items.len()
    &&& match hash_range(b, cursor) {
        None => h == 0,
        Some(range) => hash_items_spec(items.subrange(0, h), range),
    }
    &&& tail_spec(items.subrange(h, items.len() as int), b, cursor)
}

/// Every snippet item for `position`: the `#` wrap items, then the
/// `｜`, `《` and `※` skeletons, each when its trigger char sits just
/// before the cursor.
pub fn snippet_completions(source: &str, position: Position) -> (items: Vec<CompletionItem>)
    ensures
        match offset_at(source.spec_bytes(), position) {
            None => items@.len() == 0,
            Some(cursor) => exists|h: int| #[trigger] snippet_split(items@, source.spec_bytes(), cursor, h),
        },
{
    let cursor = match position_to_byte_offset(source, position) {
        Some(c) => c,
        None => return Vec::new(),
    };
    let ghost b = source.spec_bytes();
    let mut items = hash_wrap_completions(source, cursor);
    let ghost h = items@.len() as int;
    let ghost hash_part = items@;
    let mut pipe = pipe_ruby_completion(source, cursor);
    let ghost pv = pipe@;
    let mut angle = open_angle_reading_completion(source, cursor);
    let ghost av = angle@;
    let mut kome = kome_gaiji_completion(source, cursor);
    let ghost kv = kome@;
    items.append(&mut pipe);
    items.append(&mut angle);
    items.append(&mut kome);
    proof {
        assert(items@ =~= hash_part + pv + av + kv);
        assert(items@.subrange(0, h) =~= hash_part);
        let rest = items@.subrange(h, items@.len() as int);
        assert(rest =~= pv + av + kv);
        assert(rest.subrange(0, pv.len() as int) =~= pv);
        let np = pv.len() as int;
        let na = av.len() as int;
        let nk = kv.len() as int;
        assert(rest.subrange(np, np + na) =~= av);
        assert(rest.subrange(np + na, np + na + nk) =~= kv);
        assert(snippet_split(items@, b, cursor as int, h));
    }
    items
}

} // verus!

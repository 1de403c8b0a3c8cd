//! Slug completion: with the cursor in or just after a slug opener
//! (`［＃`, or one of the half-width or mixed forms `[#`, `［#`, `[＃`),
//! offer every entry of the lexer's slug catalogue. Accepting one
//! splices the canonical full-width form `［＃canonical］` over what was
//! typed (only the body when a full-width opener is already in place),
//! and a block-container opener brings its close partner along.

use vstd::prelude::*;
use vstd::string::*;
use vstd::utf8::*;

use crate::chars::{chars_of, index_of_char, lemma_index_of_char};
use crate::position::{
    byte_offset_to_position, offset_at, position_at, position_to_byte_offset, Position, Range,
    TextEdit,
};
use crate::scan::{
    find_bytes, first_match_from, lemma_first_match_found, lemma_last_match_found, rfind_bytes,
    rfind_spec,
};
use crate::utf8_bytes::{
    at_boundary, lemma_boundary_after_ascii, lemma_boundary_after_lead3, lemma_boundary_iff,
    lemma_str_valid, matches_at, bytes_match_at, str_eq,
};
use crate::lines::NL;

verus! {

/// The kind of a completion item, as the editor shows it.
#[derive(Debug, Clone, Copy, PartialEq, Eq, Structural)]
pub enum CompletionItemKind {
    Text,
    Event,
    Class,
    EnumMember,
    Field,
    File,
    Struct,
    Operator,
    Constant,
    Snippet,
}

/// How the editor reads an item's insert text.
#[derive(Debug, Clone, Copy, PartialEq, Eq, Structural)]
pub enum InsertTextFormat {
    PlainText,
    Snippet,
}

/// One completion suggestion.
#[derive(Debug, Clone)]
pub struct CompletionItem {
    pub label: String,
    pub filter_text: Option<String>,
    pub sort_text: Option<String>,
    pub kind: Option<CompletionItemKind>,
    pub detail: Option<String>,
    /// Markdown documentation.
    pub documentation: Option<String>,
    pub text_edit: Option<TextEdit>,
    pub insert_text_format: Option<InsertTextFormat>,
    pub additional_text_edits: Option<Vec<TextEdit>>,
    pub preselect: Option<bool>,
}

/// One entry of the lexer's slug catalogue, as plain values; `family`
/// is the name of its family (`PageBreak`, `BlockContainerOpen`, ...).
#[derive(Debug, Clone)]
pub struct SlugInfo {
    pub canonical: &'static str,
    pub family: String,
    pub accepts_param: bool,
    pub doc: &'static str,
    pub partner: Option<&'static str>,
}

/// Entry `index` of the lexer's slug catalogue, `None` past its end.
pub uninterp spec fn slug_entry(index: nat) -> Option<SlugInfo>;

/// Reads `aozora::SLUGS.get(index)`, keeping the entry's fields and
/// the name its family prints as (`format!("{:?}")`). The catalogue is
/// named, not stated: it is the lexer's own table.
#[verifier::external_body]
fn slug_at(index: usize) -> (r: Option<SlugInfo>)
    ensures
        r == slug_entry(index as nat),
{
    aozora::SLUGS.get(index).map(|e| SlugInfo {
        canonical: e.canonical,
        family: format!("{:?}", e.family),
        accepts_param: e.accepts_param,
        doc: e.doc,
        partner: e.partner,
    })
}

/// Entry `index` of the slug catalogue, `None` past its end.
pub fn slug_entry_at(index: usize) -> (r: Option<SlugInfo>)
    ensures
        r == slug_entry(index as nat),
{
    slug_at(index)
}

/// The entries of the slug catalogue, in catalogue order.
pub fn slug_table() -> (v: Vec<SlugInfo>)
    ensures
        forall|i: int| 0 <= i < v@.len() ==> slug_entry(i as nat) == Some(#[trigger] v@[i]),
        v@.len() < usize::MAX ==> slug_entry(v@.len()) is None,
{
    let mut v: Vec<SlugInfo> = Vec::new();
    let mut i: usize = 0;
    while i < usize::MAX
        invariant
            v@.len() == i,
            forall|k: int| 0 <= k < v@.len() ==> slug_entry(k as nat) == Some(#[trigger] v@[k]),
        decreases usize::MAX - i,
    {
        match slug_at(i) {
            Some(e) => v.push(e),
            None => return v,
        }
        i += 1;
    }
    v
}

/// The editor kind of a slug family, by its name.
pub open spec fn kind_of_family(f: Seq<char>) -> CompletionItemKind {
    if f == "PageBreak"@ || f == "Section"@ {
        CompletionItemKind::Event
    } else if f == "BlockContainerOpen"@ || f == "BlockContainerClose"@ {
        CompletionItemKind::Class
    } else if f == "LeafAlign"@ {
        CompletionItemKind::EnumMember
    } else if f == "Bouten"@ {
        CompletionItemKind::Field
    } else if f == "Sashie"@ {
        CompletionItemKind::File
    } else if f == "Keigakomi"@ || f == "Warichu"@ {
        CompletionItemKind::Struct
    } else if f == "TateChuYoko"@ {
        CompletionItemKind::Operator
    } else if f == "KaeritenSingle"@ || f == "KaeritenCompound"@ {
        CompletionItemKind::Constant
    } else {
        CompletionItemKind::Text
    }
}

/// The editor kind of a slug family, by its name; an unknown family is
/// plain text.
pub fn family_to_kind(family: &str) -> (k: CompletionItemKind)
    ensures
        k == kind_of_family(family@),
{
    if str_eq(family, "PageBreak") || str_eq(family, "Section") {
        CompletionItemKind::Event
    } else if str_eq(family, "BlockContainerOpen") || str_eq(family, "BlockContainerClose") {
        CompletionItemKind::Class
    } else if str_eq(family, "LeafAlign") {
        CompletionItemKind::EnumMember
    } else if str_eq(family, "Bouten") {
        CompletionItemKind::Field
    } else if str_eq(family, "Sashie") {
        CompletionItemKind::File
    } else if str_eq(family, "Keigakomi") || str_eq(family, "Warichu") {
        CompletionItemKind::Struct
    } else if str_eq(family, "TateChuYoko") {
        CompletionItemKind::Operator
    } else if str_eq(family, "KaeritenSingle") || str_eq(family, "KaeritenCompound") {
        CompletionItemKind::Constant
    } else {
        CompletionItemKind::Text
    }
}

/// LSP snippet form of a canonical slug: each `{name}` becomes the tab
/// stop `${1:name}`; text outside braces, and a `{` with no `}` after
/// it, pass through.
pub open spec fn snippet_spec(s: Seq<char>) -> Seq<char>
    decreases s.len(),
{
    if s.len() == 0 {
        seq![]
    } else if s[0] == '{' && index_of_char(s, '}') < s.len() {
        proof {
            lemma_index_of_char_facts(s, '}');
        }
        "${1:"@ + s.subrange(1, index_of_char(s, '}')) + "}"@ + snippet_spec(
            s.subrange(index_of_char(s, '}') + 1, s.len() as int),
        )
    } else {
        seq![s[0]] + snippet_spec(s.drop_first())
    }
}

pub proof fn lemma_index_of_char_facts(s: Seq<char>, c: char)
    ensures
        0 <= index_of_char(s, c) <= s.len(),
        index_of_char(s, c) < s.len() ==> s[index_of_char(s, c)] == c,
        forall|k: int| 0 <= k < index_of_char(s, c) ==> s[k] != c,
    decreases s.len(),
{
    if s.len() > 0 && s[0] != c {
        lemma_index_of_char_facts(s.drop_first(), c);
        assert forall|k: int| 0 <= k < index_of_char(s, c) implies s[k] != c by {
            if k > 0 {
                assert(s[k] == s.drop_first()[k - 1]);
            }
        }
    }
}

/// Turn a canonical slug like `ここから{N}字下げ` into the snippet
/// form `ここから${1:N}字下げ`.
pub fn canonical_to_snippet(canonical: &str) -> (r: String)
    ensures
        r@ == snippet_spec(canonical@),
{
    let cs = chars_of(canonical);
    let n = cs.len();
    let mut out = String::new();
    let mut i: usize = 0;
    proof {
        assert(canonical@.subrange(0, n as int) =~= canonical@);
    }
    while i < n
        invariant
            cs@ == canonical@,
            n == cs@.len(),
            i <= n,
            out@ + snippet_spec(canonical@.subrange(i as int, n as int)) == snippet_spec(canonical@),
        decreases n - i,
    {
        let ghost rest = canonical@.subrange(i as int, n as int);
        let mut j = i;
        if cs[i] == '{' {
            j = i + 1;
            while j < n && cs[j] != '}'
                invariant
                    cs@ == canonical@,
                    n == cs@.len(),
                    i < j <= n,
                    forall|k: int| i < k < j ==> cs@[k] != '}',
                decreases n - j,
            {
                j += 1;
            }
            proof {
                assert(rest[0] == '{');
                assert forall|k: int| 0 <= k < j - i implies rest[k] != '}' by {
                    assert(rest[k] == cs@[i + k]);
                }
                if j < n {
                    assert(rest[j - i] == '}');
                }
                lemma_index_of_char(rest, '}', (j - i) as int);
            }
            if j < n {
                let ghost before = out@;
                out.append("${1:");
                out.append(canonical.substring_char(i + 1, j));
                out.append("}");
                proof {
                    assert(rest.subrange(1, j - i) =~= canonical@.subrange(i + 1, j as int));
                    assert(rest.subrange(j - i + 1, rest.len() as int) =~= canonical@.subrange(
                        j + 1,
                        n as int,
                    ));
                    assert(out@ =~= before + ("${1:"@ + rest.subrange(1, j - i) + "}"@));
                }
                i = j + 1;
                continue;
            }
        }
        let ghost before = out@;
        out.append(canonical.substring_char(i, i + 1));
        proof {
            assert(canonical@.subrange(i as int, i + 1) =~= seq![rest[0]]);
            assert(rest.drop_first() =~= canonical@.subrange(i + 1, n as int));
            if rest[0] == '{' {
                assert(index_of_char(rest, '}') == rest.len());
            }
        }
        i = i + 1;
    }
    proof {
        assert(canonical@.subrange(n as int, n as int) =~= seq![]);
        assert(out@ + seq![] =~= out@);
    }
    out
}

/// The encoding of slug opener `k`: `［＃`, `[#`, `［#`, `[＃`.
pub open spec fn opener_bytes(k: int) -> Seq<u8> {
    if k == 0 {
        seq![0xefu8, 0xbcu8, 0xbbu8, 0xefu8, 0xbcu8, 0x83u8]
    } else if k == 1 {
        seq![0x5bu8, 0x23u8]
    } else if k == 2 {
        seq![0xefu8, 0xbcu8, 0xbbu8, 0x23u8]
    } else {
        seq![0x5bu8, 0xefu8, 0xbcu8, 0x83u8]
    }
}

/// The chars of slug opener `k`.
pub open spec fn opener_chars(k: int) -> Seq<char> {
    if k == 0 {
        "［＃"@
    } else if k == 1 {
        "[#"@
    } else if k == 2 {
        "［#"@
    } else {
        "[＃"@
    }
}

fn opener_enc(k: usize) -> (r: Vec<u8>)
    requires
        k < 4,
    ensures
        r@ == opener_bytes(k as int),
{
    let r = if k == 0 {
        vec![0xefu8, 0xbcu8, 0xbbu8, 0xefu8, 0xbcu8, 0x83u8]
    } else if k == 1 {
        vec![0x5bu8, 0x23u8]
    } else if k == 2 {
        vec![0xefu8, 0xbcu8, 0xbbu8, 0x23u8]
    } else {
        vec![0x5bu8, 0xefu8, 0xbcu8, 0x83u8]
    };
    proof {
        assert(r@ =~= opener_bytes(k as int));
    }
    r
}

fn opener_str(k: usize) -> (r: &'static str)
    requires
        k < 4,
    ensures
        r@ == opener_chars(k as int),
{
    if k == 0 {
        "［＃"
    } else if k == 1 {
        "[#"
    } else if k == 2 {
        "［#"
    } else {
        "[＃"
    }
}

/// The encoding of `］`.
pub open spec fn fw_close_bytes() -> Seq<u8> {
    seq![0xefu8, 0xbcu8, 0xbdu8]
}

/// Keep the later of the best opener so far and opener `k` found at `r`.
pub open spec fn later_opener(best: Option<(int, int)>, r: Option<int>, k: int) -> Option<(int, int)> {
    match r {
        None => best,
        Some(p) => match best {
            None => Some((p, k)),
            Some((bp, bk)) => if p >= bp {
                Some((p, k))
            } else {
                best
            },
        },
    }
}

/// The latest slug opener wholly before `cursor`, and which one it is.
pub open spec fn best_opener(b: Seq<u8>, cursor: int) -> Option<(int, int)> {
    later_opener(
        later_opener(
            later_opener(
                later_opener(None, rfind_spec(b, cursor, opener_bytes(0)), 0),
                rfind_spec(b, cursor, opener_bytes(1)),
                1,
            ),
            rfind_spec(b, cursor, opener_bytes(2)),
            2,
        ),
        rfind_spec(b, cursor, opener_bytes(3)),
        3,
    )
}

/// A close (`］` or `]`) lies wholly in `from..to`.
pub open spec fn closed_between(b: Seq<u8>, from: int, to: int) -> bool {
    first_match_from(b, from, to, fw_close_bytes()) is Some || first_match_from(
        b,
        from,
        to,
        seq![0x5du8],
    ) is Some
}

/// Where the replaced range ends, scanning forward from `p`: just past
/// the first close (`］` or `]`), or `cursor` at a newline or the end.
pub open spec fn close_scan(b: Seq<u8>, cursor: int, p: int) -> int
    decreases b.len() - p,
{
    if p >= b.len() || p < 0 {
        cursor
    } else if b[p] == NL {
        cursor
    } else if b[p] == 0x5du8 {
        p + 1
    } else if matches_at(b, p, fw_close_bytes()) {
        p + 3
    } else {
        close_scan(b, cursor, p + 1)
    }
}

/// Where a slug being typed sits.
#[derive(Debug, Clone, Copy, PartialEq, Eq, Structural)]
pub struct SlugCtx {
    /// Byte offset where the opener starts.
    pub prefix_start: usize,
    /// Byte offset where the body starts, just after the opener.
    pub body_start: usize,
    /// End of the range a completion replaces: just past an existing
    /// close on the line, else the cursor.
    pub close_end: usize,
    /// Which opener was typed (see [`opener_chars`]).
    pub opener: usize,
}

/// The slug context of `cursor`: the latest opener before it, unless
/// that slug was already closed before the cursor.
pub open spec fn slug_ctx_spec(b: Seq<u8>, cursor: int) -> Option<SlugCtx> {
    match best_opener(b, cursor) {
        None => None,
        Some((p, k)) => {
            let bs = p + opener_bytes(k).len();
            if cursor < bs || closed_between(b, bs, cursor) {
                None
            } else {
                Some(
                    SlugCtx {
                        prefix_start: p as usize,
                        body_start: bs as usize,
                        close_end: close_scan(b, cursor, cursor) as usize,
                        opener: k as usize,
                    },
                )
            }
        },
    }
}

/// Facts about a found opener: it lies before the cursor and on char
/// boundaries.
proof fn lemma_opener_boundaries(b: Seq<u8>, p: int, k: int)
    requires
        valid_utf8(b),
        0 <= k < 4,
        matches_at(b, p, opener_bytes(k)),
    ensures
        at_boundary(b, p),
        at_boundary(b, p + opener_bytes(k).len()),
{
    let n = opener_bytes(k);
    assert forall|i: int| 0 <= i < n.len() implies b[p + i] == n[i] by {
        assert(b.subrange(p, p + n.len())[i] == b[p + i]);
    }
    if k == 0 {
        lemma_boundary_after_lead3(b, p);
        lemma_boundary_after_lead3(b, p + 3);
    } else if k == 1 {
        lemma_boundary_after_ascii(b, p);
        lemma_boundary_after_ascii(b, p + 1);
    } else if k == 2 {
        lemma_boundary_after_lead3(b, p);
        lemma_boundary_after_ascii(b, p + 3);
    } else {
        lemma_boundary_after_ascii(b, p);
        lemma_boundary_after_lead3(b, p + 1);
    }
}

/// `close_scan` ends within `cursor..=len` on a char boundary.
proof fn lemma_close_scan(b: Seq<u8>, cursor: int, p: int)
    requires
        valid_utf8(b),
        0 <= cursor <= p <= b.len(),
        at_boundary(b, cursor),
    ensures
        cursor <= close_scan(b, cursor, p) <= b.len(),
        at_boundary(b, close_scan(b, cursor, p)),
        close_scan(b, cursor, p) == cursor || p < close_scan(b, cursor, p),
    decreases b.len() - p,
{
    if p < b.len() && b[p] != NL {
        if b[p] == 0x5du8 {
            lemma_boundary_after_ascii(b, p);
        } else if matches_at(b, p, fw_close_bytes()) {
            assert(b.subrange(p, p + 3)[0] == b[p]);
            lemma_boundary_after_lead3(b, p);
        } else {
            lemma_close_scan(b, cursor, p + 1);
        }
    }
}

/// Find the latest slug opener before `cursor`, and where the replaced
/// range ends; `None` when the cursor is past an already-closed slug.
pub fn resolve_slug_context(source: &str, cursor: usize) -> (r: Option<SlugCtx>)
    requires
        cursor <= source.spec_bytes().len(),
        at_boundary(source.spec_bytes(), cursor as int),
    ensures
        r == slug_ctx_spec(source.spec_bytes(), cursor as int),
        r matches Some(c) ==> {
            &&& c.prefix_start < c.body_start <= cursor <= c.close_end <= source.spec_bytes().len()
            &&& c.opener < 4
            &&& at_boundary(source.spec_bytes(), c.prefix_start as int)
            &&& at_boundary(source.spec_bytes(), c.body_start as int)
            &&& at_boundary(source.spec_bytes(), c.close_end as int)
            &&& (c.close_end == cursor || cursor < c.close_end)
        },
{
    let bytes = source.as_bytes();
    let ghost b = bytes@;
    proof {
        lemma_str_valid(source);
    }
    let mut best: Option<(usize, usize)> = None;
    let mut k: usize = 0;
    let ghost mut sbest: Option<(int, int)> = None;
    while k < 4
        invariant
            b == bytes@,
            cursor <= b.len(),
            k <= 4,
            sbest == (match best {
                Some((p, kk)) => Some((p as int, kk as int)),
                None => None::<(int, int)>,
            }),
            k == 0 ==> sbest is None,
            k == 1 ==> sbest == later_opener(None, rfind_spec(b, cursor as int, opener_bytes(0)), 0),
            k == 2 ==> sbest == later_opener(
                later_opener(None, rfind_spec(b, cursor as int, opener_bytes(0)), 0),
                rfind_spec(b, cursor as int, opener_bytes(1)),
                1,
            ),
            k == 3 ==> sbest == later_opener(
                later_opener(
                    later_opener(None, rfind_spec(b, cursor as int, opener_bytes(0)), 0),
                    rfind_spec(b, cursor as int, opener_bytes(1)),
                    1,
                ),
                rfind_spec(b, cursor as int, opener_bytes(2)),
                2,
            ),
            k == 4 ==> sbest == best_opener(b, cursor as int),
            best matches Some((p, kk)) ==> kk < 4 && p + opener_bytes(kk as int).len() <= cursor
                && matches_at(b, p as int, opener_bytes(kk as int)),
        decreases 4 - k,
    {
        let enc = opener_enc(k);
        let found = rfind_bytes(bytes, cursor, enc.as_slice());
        proof {
            if found is Some {
                lemma_last_match_found(b, cursor - enc@.len(), enc@);
            }
            sbest = later_opener(sbest, rfind_spec(b, cursor as int, opener_bytes(k as int)), k as int);
        }
        if let Some(p) = found {
            best = match best {
                None => Some((p, k)),
                Some((bp, bk)) => if p >= bp {
                    Some((p, k))
                } else {
                    Some((bp, bk))
                },
            };
        }
        k += 1;
    }
    let (prefix_start, opener) = match best {
        Some(x) => x,
        None => return None,
    };
    let body_start = prefix_start + opener_enc(opener).len();
    proof {
        lemma_opener_boundaries(b, prefix_start as int, opener as int);
    }
    let fw_close: [u8; 3] = [0xefu8, 0xbcu8, 0xbdu8];
    let half_close: [u8; 1] = [0x5du8];
    proof {
        assert(fw_close@ =~= fw_close_bytes());
        assert(half_close@ =~= seq![0x5du8]);
    }
    if find_bytes(bytes, body_start, cursor, &fw_close).is_some() || find_bytes(
        bytes,
        body_start,
        cursor,
        &half_close,
    ).is_some() {
        return None;
    }
    let mut p = cursor;
    let mut close_end = cursor;
    while p < bytes.len()
        invariant_except_break
            close_end == cursor,
        invariant
            b == bytes@,
            fw_close@ == fw_close_bytes(),
            cursor <= p <= b.len(),
            close_scan(b, cursor as int, cursor as int) == close_scan(b, cursor as int, p as int),
        ensures
            close_end == close_scan(b, cursor as int, cursor as int),
        decreases b.len() - p,
    {
        if bytes[p] == NL {
            break;
        }
        if bytes[p] == 0x5d {
            close_end = p + 1;
            break;
        }
        if bytes_match_at(bytes, p, &fw_close) {
            close_end = p + 3;
            break;
        }
        p += 1;
    }
    proof {
        lemma_close_scan(b, cursor as int, cursor as int);
    }
    Some(SlugCtx { prefix_start, body_start, close_end, opener })
}

/// `(パラメータあり)` for a slug that takes a parameter.
pub open spec fn accepts_text(e: SlugInfo) -> Seq<char> {
    if e.accepts_param {
        "(パラメータあり)"@
    } else {
        ""@
    }
}

/// The Markdown documentation of a slug entry.
pub open spec fn doc_markdown(e: SlugInfo) -> Seq<char> {
    "**"@ + e.family@ + "** "@ + accepts_text(e) + "\n\n"@ + e.doc@
}

/// The body a slug entry inserts: its snippet form when it takes a
/// parameter, else its canonical text.
pub open spec fn body_text(e: SlugInfo) -> Seq<char> {
    if e.accepts_param {
        snippet_spec(e.canonical@)
    } else {
        e.canonical@
    }
}

/// A half-width char in the opener means the whole slug is rewritten.
pub open spec fn half_width(c: SlugCtx) -> bool {
    c.opener != 0
}

/// The full-width opener already has its full-width close: the body
/// range ends with `］`.
pub open spec fn existing_close(b: Seq<u8>, c: SlugCtx) -> bool {
    !half_width(c) && c.close_end >= c.body_start + 3 && matches_at(
        b,
        c.close_end - 3,
        fw_close_bytes(),
    )
}

/// The text a completion splices in.
pub open spec fn new_text_spec(b: Seq<u8>, e: SlugInfo, c: SlugCtx) -> Seq<char> {
    if half_width(c) {
        "［＃"@ + body_text(e) + "］"@
    } else if existing_close(b, c) {
        body_text(e)
    } else {
        body_text(e) + "］"@
    }
}

/// Start of the replaced range: the opener when it is rewritten, else
/// the body.
pub open spec fn edit_start(c: SlugCtx) -> int {
    if half_width(c) {
        c.prefix_start as int
    } else {
        c.body_start as int
    }
}

/// End of the replaced range: just before an existing `］` that stays,
/// else the end of what was typed.
pub open spec fn edit_end(b: Seq<u8>, c: SlugCtx) -> int {
    if existing_close(b, c) {
        c.close_end - 3
    } else if c.close_end >= edit_start(c) {
        c.close_end as int
    } else {
        edit_start(c)
    }
}

/// A block-container opener whose partner close is not already
/// somewhere after the replaced range.
pub open spec fn needs_partner(b: Seq<u8>, e: SlugInfo, c: SlugCtx) -> bool {
    &&& e.family@ == "BlockContainerOpen"@
    &&& e.partner matches Some(p) && first_match_from(
        b,
        c.close_end as int,
        b.len() as int,
        p.spec_bytes(),
    ) is None
}

/// `it` is the completion item of entry `e` in context `c` of `b`.
pub open spec fn item_spec(it: CompletionItem, b: Seq<u8>, e: SlugInfo, c: SlugCtx) -> bool {
    &&& it.label@ == e.canonical@
    &&& it.filter_text matches Some(f) && f@ == opener_chars(c.opener as int) + e.canonical@
    &&& it.sort_text is None
    &&& it.kind == Some(kind_of_family(e.family@))
    &&& it.detail matches Some(d) && d@ == (if half_width(c) {
        e.doc@ + "  (半角→全角)"@
    } else {
        e.doc@
    })
    &&& it.documentation matches Some(m) && m@ == doc_markdown(e)
    &&& it.text_edit matches Some(t) && t.range == (Range {
        start: position_at(b, edit_start(c)),
        end: position_at(b, edit_end(b, c)),
    }) && t.new_text@ == new_text_spec(b, e, c)
    &&& it.insert_text_format == Some(
        if e.accepts_param {
            InsertTextFormat::Snippet
        } else {
            InsertTextFormat::PlainText
        },
    )
    &&& it.preselect is None
    &&& if needs_partner(b, e, c) {
        it.additional_text_edits matches Some(v) && v@.len() == 1 && v@[0].range == (Range {
            start: position_at(b, c.close_end as int),
            end: position_at(b, c.close_end as int),
        }) && v@[0].new_text@ == "\n\n［＃"@ + e.partner->0@ + "］"@
    } else {
        it.additional_text_edits is None
    }
}

/// The facts about a context that [`build_completion_item`] relies on.
pub open spec fn ctx_ok(b: Seq<u8>, c: SlugCtx) -> bool {
    &&& c.prefix_start < c.body_start <= c.close_end <= b.len()
    &&& c.opener < 4
    &&& at_boundary(b, c.prefix_start as int)
    &&& at_boundary(b, c.body_start as int)
    &&& at_boundary(b, c.close_end as int)
}

/// The completion item for catalogue entry `entry` in context `ctx`.
pub fn build_completion_item(source: &str, entry: &SlugInfo, ctx: &SlugCtx) -> (it: CompletionItem)
    requires
        ctx_ok(source.spec_bytes(), *ctx),
    ensures
        item_spec(it, source.spec_bytes(), *entry, *ctx),
{
    let bytes = source.as_bytes();
    let ghost b = bytes@;
    proof {
        lemma_str_valid(source);
    }
    let half = ctx.opener != 0;
    let mut detail = String::from_str(entry.doc);
    if half {
        detail.append("  (半角→全角)");
    }
    let mut filter_text = String::from_str(opener_str(ctx.opener));
    filter_text.append(entry.canonical);
    let mut documentation = String::from_str("**");
    documentation.append(entry.family.as_str());
    documentation.append("** ");
    documentation.append(if entry.accepts_param {
        "(パラメータあり)"
    } else {
        ""
    });
    documentation.append("\n\n");
    documentation.append(entry.doc);
    let (body, format) = if entry.accepts_param {
        (canonical_to_snippet(entry.canonical), InsertTextFormat::Snippet)
    } else {
        (String::from_str(entry.canonical), InsertTextFormat::PlainText)
    };
    let fw_close: [u8; 3] = [0xefu8, 0xbcu8, 0xbdu8];
    proof {
        assert(fw_close@ =~= fw_close_bytes());
    }
    let existing = !half && ctx.close_end >= ctx.body_start && ctx.close_end - ctx.body_start >= 3
        && bytes_match_at(bytes, ctx.close_end - 3, &fw_close);
    let new_text = if half {
        let mut t = String::from_str("［＃");
        t.append(body.as_str());
        t.append("］");
        t
    } else if existing {
        body
    } else {
        let mut t = body;
        t.append("］");
        t
    };
    let start = if half {
        ctx.prefix_start
    } else {
        ctx.body_start
    };
    let end = if existing {
        ctx.close_end - 3
    } else if ctx.close_end >= start {
        ctx.close_end
    } else {
        start
    };
    proof {
        if existing {
            let q = ctx.close_end - 3;
            assert(b.subrange(q as int, q + 3)[0] == b[q as int]);
        }
    }
    let range = Range {
        start: byte_offset_to_position(source, start),
        end: byte_offset_to_position(source, end),
    };
    let mut additional: Option<Vec<TextEdit>> = None;
    if str_eq(entry.family.as_str(), "BlockContainerOpen") {
        if let Some(partner) = entry.partner {
            if find_bytes(bytes, ctx.close_end, bytes.len(), partner.as_bytes()).is_none() {
                let pos = byte_offset_to_position(source, ctx.close_end);
                let mut text = String::from_str("\n\n［＃");
                text.append(partner);
                text.append("］");
                additional = Some(vec![TextEdit { range: Range { start: pos, end: pos }, new_text: text }]);
            }
        }
    }
    CompletionItem {
        label: String::from_str(entry.canonical),
        filter_text: Some(filter_text),
        sort_text: None,
        kind: Some(family_to_kind(entry.family.as_str())),
        detail: Some(detail),
        documentation: Some(documentation),
        text_edit: Some(TextEdit { range, new_text }),
        insert_text_format: Some(format),
        additional_text_edits: additional,
        preselect: None,
    }
}

/// Every catalogue item in the slug context of byte `cursor`; empty
/// outside one.
pub fn completion_items(source: &str, cursor: usize, slugs: &[SlugInfo]) -> (items: Vec<CompletionItem>)
    requires
        cursor <= source.spec_bytes().len(),
        at_boundary(source.spec_bytes(), cursor as int),
    ensures
        match slug_ctx_spec(source.spec_bytes(), cursor as int) {
            None => items@.len() == 0,
            Some(c) => items@.len() == slugs@.len() && forall|i: int|
                0 <= i < slugs@.len() ==> item_spec(#[trigger] items@[i], source.spec_bytes(), slugs@[i], c),
        },
{
    let ctx = match resolve_slug_context(source, cursor) {
        Some(c) => c,
        None => return Vec::new(),
    };
    let mut items: Vec<CompletionItem> = Vec::new();
    let mut i: usize = 0;
    while i < slugs.len()
        invariant
            i <= slugs@.len(),
            items@.len() == i,
            ctx_ok(source.spec_bytes(), ctx),
            forall|k: int| 0 <= k < i ==> item_spec(#[trigger] items@[k], source.spec_bytes(), slugs@[k], ctx),
        decreases slugs@.len() - i,
    {
        items.push(build_completion_item(source, &slugs[i], &ctx));
        i += 1;
    }
    items
}

/// `items` is the catalogue completed in context `c` of `b`: entry `i`
/// of the slug catalogue gives item `i`, for every entry.
pub open spec fn catalogue_items(items: Seq<CompletionItem>, b: Seq<u8>, c: SlugCtx) -> bool {
    &&& forall|i: int| 0 <= i < items.len() ==> entry_item(#[trigger] items[i], b, slug_entry(i as nat), c)
    &&& (items.len() < usize::MAX ==> slug_entry(items.len()) is None)
}

/// `it` is the item of a catalogue entry that exists.
pub open spec fn entry_item(it: CompletionItem, b: Seq<u8>, o: Option<SlugInfo>, c: SlugCtx) -> bool {
    match o {
        Some(e) => item_spec(it, b, e, c),
        None => false,
    }
}

/// Completion items at `position`: the whole slug catalogue when the
/// cursor is in a slug context, else nothing.
pub fn completion_at(source: &str, position: Position) -> (items: Vec<CompletionItem>)
    ensures
        match offset_at(source.spec_bytes(), position) {
            None => items@.len() == 0,
            Some(cursor) => match slug_ctx_spec(source.spec_bytes(), cursor) {
                None => items@.len() == 0,
                Some(c) => catalogue_items(items@, source.spec_bytes(), c),
            },
        },
{
    let cursor = match position_to_byte_offset(source, position) {
        Some(c) => c,
        None => return Vec::new(),
    };
    let ctx = match resolve_slug_context(source, cursor) {
        Some(c) => c,
        None => return Vec::new(),
    };
    let ghost b = source.spec_bytes();
    let mut items: Vec<CompletionItem> = Vec::new();
    let mut i: usize = 0;
    while i < usize::MAX
        invariant_except_break
            forall|k: int| 0 <= k < items@.len() ==> entry_item(#[trigger] items@[k], b, slug_entry(k as nat), ctx),
        invariant
            b == source.spec_bytes(),
            items@.len() == i,
            ctx_ok(b, ctx),
            forall|k: int| 0 <= k < items@.len() ==> entry_item(#[trigger] items@[k], b, slug_entry(k as nat), ctx),
        ensures
            catalogue_items(items@, b, ctx),
        decreases usize::MAX - i,
    {
        match slug_at(i) {
            Some(e) => {
                items.push(build_completion_item(source, &e, &ctx));
            },
            None => break,
        }
        i += 1;
    }
    items
}


/// `［＃` and `］` encode to the bytes the context scan looks for.
proof fn lemma_full_width_literals()
    ensures
        encode_utf8("［＃"@) == opener_bytes(0),
        encode_utf8("］"@) == fw_close_bytes(),
{
    reveal_strlit("［＃");
    reveal_strlit("］");
    let a: u32 = 0xff3b;
    let h: u32 = 0xff03;
    let z: u32 = 0xff3d;
    assert(!has_width_1_encoding(a) && !has_width_2_encoding(a) && has_width_3_encoding(a)) by (bit_vector)
        requires
            a == 0xff3bu32,
    ;
    assert(leading_byte_width_3(a) == 0xefu8 && second_last_continuation_byte(a) == 0xbcu8
        && last_continuation_byte(a) == 0xbbu8) by (bit_vector)
        requires
            a == 0xff3bu32,
    ;
    assert(!has_width_1_encoding(h) && !has_width_2_encoding(h) && has_width_3_encoding(h)) by (bit_vector)
        requires
            h == 0xff03u32,
    ;
    assert(leading_byte_width_3(h) == 0xefu8 && second_last_continuation_byte(h) == 0xbcu8
        && last_continuation_byte(h) == 0x83u8) by (bit_vector)
        requires
            h == 0xff03u32,
    ;
    assert(!has_width_1_encoding(z) && !has_width_2_encoding(z) && has_width_3_encoding(z)) by (bit_vector)
        requires
            z == 0xff3du32,
    ;
    assert(leading_byte_width_3(z) == 0xefu8 && second_last_continuation_byte(z) == 0xbcu8
        && last_continuation_byte(z) == 0xbdu8) by (bit_vector)
        requires
            z == 0xff3du32,
    ;
    assert(('［' as u32) == a && ('＃' as u32) == h && ('］' as u32) == z);
    assert(encode_scalar(a) =~= seq![0xefu8, 0xbcu8, 0xbbu8]);
    assert(encode_scalar(h) =~= seq![0xefu8, 0xbcu8, 0x83u8]);
    assert(encode_scalar(z) =~= seq![0xefu8, 0xbcu8, 0xbdu8]);
    let o = "［＃"@;
    let o1 = o.drop_first();
    assert(o1.len() == 1 && o1[0] == '＃');
    assert(encode_utf8(o1.drop_first()) =~= Seq::<u8>::empty());
    assert(encode_utf8(o1) =~= encode_scalar(h));
    assert(encode_utf8(o) =~= opener_bytes(0));
    let c = "］"@;
    assert(encode_utf8(c.drop_first()) =~= Seq::<u8>::empty());
    assert(encode_utf8(c) =~= fw_close_bytes());
}

/// The bytes of `b` after replacing `s..t` with `new_text`.
pub open spec fn applied(b: Seq<u8>, s: int, t: int, new_text: Seq<char>) -> Seq<u8> {
    b.subrange(0, s) + encode_utf8(new_text) + b.subrange(t, b.len() as int)
}

/// Accepting a slug completion leaves a balanced slug: whatever opener
/// was typed, after the item's edit is applied the text reads as before
/// up to the slug, then the full-width opener `［＃`, the entry's body and
/// one full-width close `］` (one already there is kept, a missing one is
/// added), then the text after what was typed, unchanged.
pub proof fn law_accepted_completion_closes_the_slug(b: Seq<u8>, e: SlugInfo, c: SlugCtx, it: CompletionItem)
    requires
        ctx_ok(b, c),
        c.body_start == c.prefix_start + opener_bytes(c.opener as int).len(),
        matches_at(b, c.prefix_start as int, opener_bytes(c.opener as int)),
        item_spec(it, b, e, c),
    ensures
        it.text_edit is Some,
        exists|s: int, t: int|
            #![trigger applied(b, s, t, it.text_edit->0.new_text@)]
            0 <= s <= t <= b.len() && it.text_edit->0.range == (Range {
                start: position_at(b, s),
                end: position_at(b, t),
            }) && applied(b, s, t, it.text_edit->0.new_text@) == b.subrange(0, c.prefix_start as int)
                + opener_bytes(0) + encode_utf8(body_text(e)) + fw_close_bytes() + b.subrange(
                c.close_end as int,
                b.len() as int,
            ),
{
    lemma_full_width_literals();
    let te = it.text_edit->0;
    let s = edit_start(c);
    let t = edit_end(b, c);
    let body = encode_utf8(body_text(e));
    let want = opener_bytes(0) + body + fw_close_bytes();
    let ps = c.prefix_start as int;
    let bs = c.body_start as int;
    let a = applied(b, s, t, te.new_text@);
    let ce = c.close_end as int;
    let full = b.subrange(0, ps) + want + b.subrange(ce, b.len() as int);
    if half_width(c) {
        crate::utf8_bytes::lemma_encode_concat("［＃"@, body_text(e));
        crate::utf8_bytes::lemma_encode_concat("［＃"@ + body_text(e), "］"@);
        assert(encode_utf8(te.new_text@) == want);
        assert(a =~= full);
    } else if existing_close(b, c) {
        assert(b.subrange(ce - 3, ce) == fw_close_bytes());
        assert(b.subrange(ps, bs) == opener_bytes(0));
        assert(b.subrange(0, bs) =~= b.subrange(0, ps) + opener_bytes(0));
        assert(b.subrange(ce - 3, b.len() as int) =~= fw_close_bytes() + b.subrange(ce, b.len() as int));
        assert(a =~= full);
    } else {
        crate::utf8_bytes::lemma_encode_concat(body_text(e), "］"@);
        assert(b.subrange(ps, bs) == opener_bytes(0));
        assert(b.subrange(0, bs) =~= b.subrange(0, ps) + opener_bytes(0));
        assert(a =~= full);
    }
}
} // verus!

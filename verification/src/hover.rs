//! Hover on a gaiji (外字) reference: find the `※［＃…］` span around
//! the cursor by a textual scan, split its body into description and
//! mencode, resolve it through the gaiji dictionary, and render a
//! Markdown block.

use vstd::prelude::*;
use vstd::string::*;

use crate::chars::{chars_of, find_char, index_of_char, trim_chars, trim_spec};
use crate::diagnostics::char_string;
use crate::position::{byte_offset_to_position, position_to_byte_offset, Position, Range};
use crate::scan::{find_bytes, first_match_from, lemma_first_match_found};
use crate::text_fmt::{hex_digits, push_hex4, zero_pad};
use crate::utf8_bytes::{at_boundary, lemma_boundary_after_lead3, lemma_boundary_iff, lemma_str_valid, matches_at, substr};
use crate::position::{offset_at, position_at, clamp_offset};
use vstd::utf8::*;

verus! {

/// `※［＃`
pub open spec fn gaiji_open() -> Seq<u8> {
    seq![0xe2u8, 0x80u8, 0xbbu8, 0xefu8, 0xbcu8, 0xbbu8, 0xefu8, 0xbcu8, 0x83u8]
}

/// `］`
pub open spec fn gaiji_close() -> Seq<u8> {
    seq![0xefu8, 0xbcu8, 0xbdu8]
}

pub(crate) fn gaiji_open_bytes() -> (v: Vec<u8>)
    ensures
        v@ == gaiji_open(),
{
    let v = vec![0xe2u8, 0x80u8, 0xbbu8, 0xefu8, 0xbcu8, 0xbbu8, 0xefu8, 0xbcu8, 0x83u8];
    proof {
        assert(v@ =~= gaiji_open());
    }
    v
}

pub(crate) fn gaiji_close_bytes() -> (v: Vec<u8>)
    ensures
        v@ == gaiji_close(),
{
    let v = vec![0xefu8, 0xbcu8, 0xbdu8];
    proof {
        assert(v@ =~= gaiji_close());
    }
    v
}

/// Walking the `※［＃` occurrences of `b` left to right from `from`
/// (each search resuming after the previous opener): the first whose
/// span — through the first `］` after the opener — contains `off`.
pub open spec fn gaiji_span_from(b: Seq<u8>, from: int, off: int) -> Option<(int, int)>
    decreases b.len() - from,
{
    if from < 0 || from > b.len() {
        None
    } else {
        match first_match_from(b, from, b.len() as int, gaiji_open()) {
            None => None,
            Some(s) => {
                proof {
                    lemma_first_match_found(b, from, b.len() as int, gaiji_open());
                }
                let after = s + 9;
                match first_match_from(b, after, b.len() as int, gaiji_close()) {
                    None => gaiji_span_from(b, after, off),
                    Some(c) => {
                        if s <= off < c + 3 {
                            Some((s, c + 3))
                        } else {
                            gaiji_span_from(b, after, off)
                        }
                    },
                }
            },
        }
    }
}

/// The byte range of the `※［＃…］` span of `source` containing `off`.
pub fn find_gaiji_span(source: &str, off: usize) -> (r: Option<(usize, usize)>)
    ensures
        match (r, gaiji_span_from(source.spec_bytes(), 0, off as int)) {
            (Some(x), Some(y)) => x.0 == y.0 && x.1 == y.1,
            (None, None) => true,
            _ => false,
        },
{
    let bytes = source.as_bytes();
    let open = gaiji_open_bytes();
    let close = gaiji_close_bytes();
    let n = bytes.len();
    let mut from: usize = 0;
    while from <= n
        invariant
            bytes@ == source.spec_bytes(),
            n == bytes@.len(),
            open@ == gaiji_open(),
            close@ == gaiji_close(),
            gaiji_span_from(bytes@, 0, off as int) == gaiji_span_from(bytes@, from as int, off as int),
        decreases n + 1 - from,
    {
        match find_bytes(bytes, from, n, open.as_slice()) {
            None => {
                return None;
            },
            Some(s) => {
                proof {
                    lemma_first_match_found(bytes@, from as int, n as int, gaiji_open());
                }
                let after = s + 9;
                match find_bytes(bytes, after, n, close.as_slice()) {
                    None => {},
                    Some(c) => {
                        proof {
                            lemma_first_match_found(bytes@, after as int, n as int, gaiji_close());
                        }
                        let end = c + 3;
                        if s <= off && off < end {
                            return Some((s, end));
                        }
                    },
                }
                from = after;
            },
        }
    }
    None
}

/// How many copies of `c` begin `s`.
pub open spec fn leading_count(s: Seq<char>, c: char) -> nat
    decreases s.len(),
{
    if s.len() == 0 || s[0] != c {
        0
    } else {
        1 + leading_count(s.drop_first(), c)
    }
}

proof fn lemma_leading_count(s: Seq<char>, c: char, i: int)
    requires
        0 <= i <= s.len(),
        forall|k: int| 0 <= k < i ==> #[trigger] s[k] == c,
        i == s.len() || s[i] != c,
    ensures
        leading_count(s, c) == i,
    decreases i,
{
    if i > 0 {
        assert forall|k: int| 0 <= k < i - 1 implies #[trigger] s.drop_first()[k] == c by {
            assert(s.drop_first()[k] == s[k + 1]);
        }
        lemma_leading_count(s.drop_first(), c, i - 1);
    }
}

proof fn lemma_index_bound(s: Seq<char>, c: char)
    ensures
        0 <= index_of_char(s, c) <= s.len(),
    decreases s.len(),
{
    if s.len() > 0 && s[0] != c {
        lemma_index_bound(s.drop_first(), c);
    }
}

/// The description of a gaiji body (trimmed): the text inside the first
/// `「…」`, or the whole body when it has no complete quote; and what
/// follows the quote.
pub open spec fn body_parts(body: Seq<char>) -> (Seq<char>, Seq<char>) {
    let b = trim_spec(body);
    let i = index_of_char(b, '「');
    if i == b.len() {
        (b, seq![])
    } else {
        let after = b.subrange(i + 1, b.len() as int);
        let j = index_of_char(after, '」');
        if j == after.len() {
            (b, seq![])
        } else {
            (after.subrange(0, j), after.subrange(j + 1, after.len() as int))
        }
    }
}

/// The mencode: after the quote, skip the `、` run, trim, take the text
/// up to the next `、`, trim; absent when empty.
pub open spec fn body_mencode(rest: Seq<char>) -> Option<Seq<char>> {
    let r = trim_spec(rest.subrange(leading_count(rest, '、') as int, rest.len() as int));
    let first = trim_spec(r.subrange(0, index_of_char(r, '、')));
    if first.len() == 0 {
        None
    } else {
        Some(first)
    }
}

/// Split a gaiji body `「description」、mencode[、…]` into the
/// description and the first field after it.
pub fn parse_gaiji_body(body: &str) -> (r: (String, Option<String>))
    ensures
        r.0@ == body_parts(body@).0,
        match (r.1, body_mencode(body_parts(body@).1)) {
            (Some(m), Some(t)) => m@ == t,
            (None, None) => true,
            _ => false,
        },
{
    let b = trim_chars(body);
    let bc = chars_of(b);
    let n = bc.len();
    let i = find_char(&bc, '「');
    proof {
        lemma_index_bound(b@, '「');
    }
    let (description, rest): (String, &str) = if i == n {
        (String::from_str(b), b.substring_char(0, 0))
    } else {
        let after = b.substring_char(i + 1, n);
        let ac = chars_of(after);
        let m = ac.len();
        let j = find_char(&ac, '」');
        proof {
            lemma_index_bound(after@, '」');
        }
        if j == m {
            (String::from_str(b), b.substring_char(0, 0))
        } else {
            (String::from_str(after.substring_char(0, j)), after.substring_char(j + 1, m))
        }
    };
    let rc = chars_of(rest);
    let rn = rc.len();
    let mut k: usize = 0;
    while k < rn && rc[k] == '、'
        invariant
            rc@ == rest@,
            rn == rc@.len(),
            k <= rn,
            forall|q: int| 0 <= q < k ==> #[trigger] rc@[q] == '、',
        decreases rn - k,
    {
        k += 1;
    }
    proof {
        lemma_leading_count(rest@, '、', k as int);
    }
    let r = trim_chars(rest.substring_char(k, rn));
    let r_chars = chars_of(r);
    let cut = find_char(&r_chars, '、');
    proof {
        lemma_index_bound(r@, '、');
    }
    let first = trim_chars(r.substring_char(0, cut));
    let mencode = if first.unicode_len() == 0 {
        None
    } else {
        Some(String::from_str(first))
    };
    proof {
        assert(rest@ == body_parts(body@).1);
    }
    (description, mencode)
}

/// The text the gaiji dictionary resolves a reference with this mencode
/// and description to, if it resolves: one char for most cells, a
/// combining sequence of two for a few.
pub uninterp spec fn gaiji_lookup(mencode: Option<Seq<char>>, description: Seq<char>) -> Option<Seq<char>>;

/// The views of an optional string.
pub open spec fn opt_view(o: Option<String>) -> Option<Seq<char>> {
    match o {
        Some(s) => Some(s@),
        None => None,
    }
}

/// `aozora_encoding::gaiji::lookup` with no pre-resolved codepoint, its
/// `Resolved` written out as text (`Char` as its char, `Multi` as its
/// string). The result is a function of the mencode and the description
/// alone (static tables).
#[verifier::external_body]
pub(crate) fn lookup_gaiji(mencode: &Option<String>, description: &str) -> (r: Option<String>)
    ensures
        opt_view(r) == gaiji_lookup(opt_view(*mencode), description@),
{
    match aozora_encoding::gaiji::lookup(None, mencode.as_deref(), description) {
        Some(aozora_encoding::gaiji::Resolved::Char(c)) => Some(c.to_string()),
        Some(aozora_encoding::gaiji::Resolved::Multi(s)) => Some(s.to_owned()),
        None => None,
    }
}

/// The resolved char of a resolution that is a single char.
pub open spec fn single_char(t: Option<Seq<char>>) -> Option<char> {
    match t {
        Some(s) => if s.len() == 1 {
            Some(s[0])
        } else {
            None
        },
        None => None,
    }
}

fn single_char_of(t: &Option<String>) -> (r: Option<char>)
    ensures
        r == single_char(opt_view(*t)),
{
    match t {
        Some(s) => {
            if s.as_str().unicode_len() == 1 {
                Some(s.as_str().get_char(0))
            } else {
                None
            }
        },
        None => None,
    }
}

/// The hover's Markdown.
pub open spec fn markdown_spec(
    description: Seq<char>,
    mencode: Option<Seq<char>>,
    resolved: Option<char>,
) -> Seq<char> {
    "**外字 (gaiji)**\n\n"@ + match resolved {
        Some(c) => "- 解決: `"@ + seq![c] + "` (U+"@ + zero_pad(hex_digits((c as u32) as nat), 4) + ")\n"@,
        None => "- 解決: (辞書にマッチせず — 記述で代替表示)\n"@,
    } + "- 記述: `"@ + description + "`\n"@ + match mencode {
        Some(m) => "- mencode: `"@ + m + "`\n"@,
        None => ""@,
    }
}

/// A hover on a gaiji with a mencode ends with that mencode's line; one
/// without a mencode ends with the description's line.
pub proof fn law_hover_ends_with_the_mencode(description: Seq<char>, mencode: Option<Seq<char>>, resolved: Option<char>)
    ensures
        ({
            let md = markdown_spec(description, mencode, resolved);
            let last = match mencode {
                Some(m) => "- mencode: `"@ + m + "`\n"@,
                None => "- 記述: `"@ + description + "`\n"@,
            };
            md.len() >= last.len() && md.subrange(md.len() - last.len(), md.len() as int) == last
        }),
{
    let md = markdown_spec(description, mencode, resolved);
    let head = "**外字 (gaiji)**\n\n"@ + match resolved {
        Some(c) => "- 解決: `"@ + seq![c] + "` (U+"@ + zero_pad(hex_digits((c as u32) as nat), 4) + ")\n"@,
        None => "- 解決: (辞書にマッチせず — 記述で代替表示)\n"@,
    };
    let desc = "- 記述: `"@ + description + "`\n"@;
    match mencode {
        Some(m) => {
            let last = "- mencode: `"@ + m + "`\n"@;
            assert(md == (head + desc) + last);
            assert(md.subrange(md.len() - last.len(), md.len() as int) =~= last);
        },
        None => {
            reveal_strlit("");
            assert(md =~= head + desc);
            assert(md.subrange(md.len() - desc.len(), md.len() as int) =~= desc);
        },
    }
}

/// Two hovers that differ only in the mencode read differently: the
/// hover tells apart every mencode (and its absence).
pub proof fn law_hover_tells_mencodes_apart(
    description: Seq<char>,
    m1: Option<Seq<char>>,
    m2: Option<Seq<char>>,
    resolved: Option<char>,
)
    requires
        markdown_spec(description, m1, resolved) == markdown_spec(description, m2, resolved),
    ensures
        m1 == m2,
{
    reveal_strlit("- mencode: `");
    reveal_strlit("`\n");
    reveal_strlit("");
    let head = "**外字 (gaiji)**\n\n"@ + match resolved {
        Some(c) => "- 解決: `"@ + seq![c] + "` (U+"@ + zero_pad(hex_digits((c as u32) as nat), 4) + ")\n"@,
        None => "- 解決: (辞書にマッチせず — 記述で代替表示)\n"@,
    } + "- 記述: `"@ + description + "`\n"@;
    let tail1 = match m1 {
        Some(m) => "- mencode: `"@ + m + "`\n"@,
        None => ""@,
    };
    let tail2 = match m2 {
        Some(m) => "- mencode: `"@ + m + "`\n"@,
        None => ""@,
    };
    assert(markdown_spec(description, m1, resolved) == head + tail1);
    assert(markdown_spec(description, m2, resolved) == head + tail2);
    assert(tail1 =~= (head + tail1).subrange(head.len() as int, (head + tail1).len() as int));
    assert(tail2 =~= (head + tail2).subrange(head.len() as int, (head + tail2).len() as int));
    assert(tail1 == tail2);
    match (m1, m2) {
        (Some(a), Some(b)) => {
            assert(a =~= tail1.subrange(12, tail1.len() - 2));
            assert(b =~= tail2.subrange(12, tail2.len() - 2));
        },
        (Some(a), None) => {
            assert(tail1.len() > 0);
        },
        (None, Some(b)) => {
            assert(tail2.len() > 0);
        },
        (None, None) => {},
    }
}

/// Render the hover Markdown for a gaiji reference.
pub fn render_markdown(description: &str, mencode: &Option<String>, resolved: Option<char>) -> (r: String)
    ensures
        r@ == markdown_spec(description@, opt_view(*mencode), resolved),
{
    let mut md = String::from_str("**外字 (gaiji)**\n\n");
    let ghost head = md@;
    match resolved {
        Some(c) => {
            md.append("- 解決: `");
            let cs = char_string(c);
            md.append(cs.as_str());
            md.append("` (U+");
            let ghost before_hex = md@;
            let code: u32 = c as u32;
            push_hex4(&mut md, code as u64);
            md.append(")\n");
            proof {
                assert(md@ =~= head + ("- 解決: `"@ + seq![c] + "` (U+"@ + zero_pad(hex_digits((c as u32) as nat), 4) + ")\n"@));
            }
        },
        None => {
            md.append("- 解決: (辞書にマッチせず — 記述で代替表示)\n");
        },
    }
    let ghost mid = md@;
    md.append("- 記述: `");
    md.append(description);
    md.append("`\n");
    let ghost mid2 = md@;
    proof {
        assert(mid2 =~= mid + ("- 記述: `"@ + description@ + "`\n"@));
    }
    match mencode {
        Some(m) => {
            md.append("- mencode: `");
            md.append(m.as_str());
            md.append("`\n");
            proof {
                assert(md@ =~= mid2 + ("- mencode: `"@ + m@ + "`\n"@));
            }
        },
        None => {
            proof {
                assert(md@ =~= mid2 + ""@) by {
                    reveal_strlit("");
                }
            }
        },
    }
    proof {
        assert(md@ =~= markdown_spec(description@, opt_view(*mencode), resolved));
    }
    md
}

/// A hover: Markdown text over a source range.
#[derive(Debug, Clone)]
pub struct Hover {
    /// The Markdown body.
    pub value: String,
    /// The span the hover describes.
    pub range: Option<Range>,
}

/// The chars between the opener and the closer of the span `(s, e)`.
pub open spec fn span_body(b: Seq<u8>, s: int, e: int) -> Seq<char> {
    decode_utf8(b.subrange(s + 9, e - 3))
}

/// The hover at byte offset `off`, given the span search's answer.
pub open spec fn hover_spec(b: Seq<u8>, off: int) -> Option<(Seq<char>, Position, Position)> {
    match gaiji_span_from(b, 0, off) {
        None => None,
        Some(se) => {
            let body = span_body(b, se.0, se.1);
            let description = body_parts(body).0;
            let mencode = body_mencode(body_parts(body).1);
            Some(
                (
                    markdown_spec(description, mencode, single_char(gaiji_lookup(mencode, description))),
                    position_at(b, se.0),
                    position_at(b, se.1),
                ),
            )
        },
    }
}

proof fn lemma_span_shape(b: Seq<u8>, from: int, off: int)
    requires
        valid_utf8(b),
        gaiji_span_from(b, from, off) is Some,
    ensures
        ({
            let se = gaiji_span_from(b, from, off)->0;
            &&& 0 <= se.0 && se.0 + 9 <= se.1 - 3 && se.1 <= b.len()
            &&& matches_at(b, se.0, gaiji_open())
            &&& matches_at(b, se.1 - 3, gaiji_close())
        }),
    decreases b.len() - from,
{
    lemma_first_match_found(b, from, b.len() as int, gaiji_open());
    let s = first_match_from(b, from, b.len() as int, gaiji_open())->0;
    match first_match_from(b, s + 9, b.len() as int, gaiji_close()) {
        None => {
            lemma_span_shape(b, s + 9, off);
        },
        Some(c) => {
            lemma_first_match_found(b, s + 9, b.len() as int, gaiji_close());
            if !(s <= off < c + 3) {
                lemma_span_shape(b, s + 9, off);
            }
        },
    }
}

proof fn lemma_lead_boundary(b: Seq<u8>, p: int)
    requires
        valid_utf8(b),
        0 <= p < b.len(),
        0xe0 <= b[p] <= 0xef,
    ensures
        at_boundary(b, p),
        at_boundary(b, p + 3),
{
    let x = b[p];
    assert(!is_continuation_byte(x)) by (bit_vector)
        requires
            0xe0 <= x <= 0xef,
    ;
    lemma_boundary_after_lead3(b, p);
}

/// The hover at `position`: `None` when the position lies outside the
/// document or no `※［＃…］` span contains it; otherwise the Markdown for
/// that span's body, resolved through the gaiji dictionary, over the
/// span's range.
pub fn hover_at(source: &str, position: Position) -> (r: Option<Hover>)
    ensures
        match offset_at(source.spec_bytes(), position) {
            None => r is None,
            Some(off) => match hover_spec(source.spec_bytes(), off) {
                None => r is None,
                Some(h) => r matches Some(x) && x.value@ == h.0 && x.range == Some(
                    Range { start: h.1, end: h.2 },
                ),
            },
        },
{
    let off = match position_to_byte_offset(source, position) {
        Some(o) => o,
        None => {
            return None;
        },
    };
    let (start, end) = match find_gaiji_span(source, off) {
        Some(x) => x,
        None => {
            return None;
        },
    };
    let ghost b = source.spec_bytes();
    proof {
        lemma_str_valid(source);
        lemma_span_shape(b, 0, off as int);
        assert(b.subrange(start as int, start + 9) == gaiji_open());
        assert(b[start as int] == b.subrange(start as int, start + 9)[0]);
        assert(b[start + 3] == b.subrange(start as int, start + 9)[3]);
        assert(b[start + 6] == b.subrange(start as int, start + 9)[6]);
        lemma_lead_boundary(b, start as int);
        lemma_lead_boundary(b, start + 3);
        lemma_lead_boundary(b, start + 6);
        assert(b.subrange(end - 3, end as int) == gaiji_close());
        assert(b[end - 3] == b.subrange(end - 3, end as int)[0]);
        lemma_lead_boundary(b, end - 3);
        lemma_boundary_iff(b, start + 9);
        lemma_boundary_iff(b, end - 3);
        lemma_boundary_iff(b, start as int);
        lemma_boundary_iff(b, end as int);
    }
    let body = substr(source, start + 9, end - 3);
    proof {
        encode_utf8_decode_utf8(body@);
        assert(body@ == span_body(b, start as int, end as int));
    }
    let (description, mencode) = parse_gaiji_body(body);
    let resolution = lookup_gaiji(&mencode, description.as_str());
    let resolved = single_char_of(&resolution);
    let value = render_markdown(description.as_str(), &mencode, resolved);
    proof {
        assert(opt_view(mencode) == body_mencode(body_parts(body@).1));
    }
    let range = Range::new(byte_offset_to_position(source, start), byte_offset_to_position(source, end));
    Some(Hover { value, range: Some(range) })
}

} // verus!

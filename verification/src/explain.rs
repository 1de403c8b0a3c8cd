//! Resolving a user-typed diagnostic code for the `explain` command:
//! the bare (`unclosed-bracket`) or namespaced
//! (`aozora::unclosed-bracket`) form, a unique prefix, or, on a miss,
//! the nearest code by edit distance.

use vstd::prelude::*;
use vstd::string::*;

use crate::chars::{chars_of, chars_start_with, starts_with};
use crate::diagnostics::{catalogue, catalogue_spec, first_with_code, lookup, CatalogueEntry};

verus! {

/// The namespace every diagnostic code lives in.
pub const NAMESPACE: &'static str = "aozora::";

/// `s` holds `::` at char `i`.
pub open spec fn colons_at(s: Seq<char>, i: int) -> bool {
    0 <= i && i + 1 < s.len() && s[i] == ':' && s[i + 1] == ':'
}

/// `s` holds `::` somewhere.
pub open spec fn has_double_colon(s: Seq<char>) -> bool {
    exists|i: int| #[trigger] colons_at(s, i)
}

/// An unqualified code gets the `aozora::` namespace.
pub open spec fn normalize_spec(s: Seq<char>) -> Seq<char> {
    if has_double_colon(s) {
        s
    } else {
        NAMESPACE@ + s
    }
}

/// A code without its `aozora::` namespace.
pub open spec fn bare_spec(s: Seq<char>) -> Seq<char> {
    if starts_with(s, NAMESPACE@) {
        s.subrange(NAMESPACE@.len() as int, s.len() as int)
    } else {
        s
    }
}

pub open spec fn min3(x: nat, y: nat, z: nat) -> nat {
    if x <= y && x <= z {
        x
    } else if y <= z {
        y
    } else {
        z
    }
}

/// Levenshtein edit distance over Unicode scalar values: the fewest
/// single-char insertions, deletions and substitutions turning `a`
/// into `b`.
pub open spec fn edit_distance(a: Seq<char>, b: Seq<char>) -> nat
    decreases a.len() + b.len(),
{
    if a.len() == 0 {
        b.len()
    } else if b.len() == 0 {
        a.len()
    } else {
        min3(
            edit_distance(a.drop_last(), b) + 1,
            edit_distance(a, b.drop_last()) + 1,
            edit_distance(a.drop_last(), b.drop_last()) + (if a.last() == b.last() {
                0nat
            } else {
                1nat
            }),
        )
    }
}

/// Prefix an unqualified code with `aozora::`.
pub fn normalize(input: &str) -> (r: String)
    ensures
        r@ == normalize_spec(input@),
{
    let cs = chars_of(input);
    let mut i: usize = 0;
    while cs.len() > 0 && i < cs.len() - 1
        invariant
            cs@ == input@,
            i <= cs@.len(),
            forall|k: int| 0 <= k < i ==> !#[trigger] colons_at(cs@, k),
        decreases cs@.len() - i,
    {
        if cs[i] == ':' && cs[i + 1] == ':' {
            proof {
                assert(colons_at(input@, i as int));
            }
            return String::from_str(input);
        }
        i += 1;
    }
    proof {
        assert forall|k: int| !#[trigger] colons_at(input@, k) by {
            if 0 <= k && k < i {
            }
        }
    }
    let mut out = String::from_str(NAMESPACE);
    out.append(input);
    out
}

/// Strip the `aozora::` namespace from a code.
pub fn bare(code: &str) -> (r: &str)
    ensures
        r@ == bare_spec(code@),
{
    let cs = chars_of(code);
    let ns = chars_of(NAMESPACE);
    if chars_start_with(&cs, &ns) {
        code.substring_char(ns.len(), cs.len())
    } else {
        code
    }
}

pub proof fn lemma_edit_distance_bound(a: Seq<char>, b: Seq<char>)
    ensures
        edit_distance(a, b) <= if a.len() >= b.len() {
            a.len()
        } else {
            b.len()
        },
    decreases a.len() + b.len(),
{
    if a.len() > 0 && b.len() > 0 {
        lemma_edit_distance_bound(a.drop_last(), b.drop_last());
    }
}

/// Classic Levenshtein edit distance over Unicode scalar values.
pub fn levenshtein(a: &str, b: &str) -> (d: usize)
    ensures
        d == edit_distance(a@, b@),
{
    let ac = chars_of(a);
    let bc = chars_of(b);
    let ghost av = a@;
    let ghost bv = b@;
    let m = bc.len();
    let mut prev: Vec<u128> = Vec::new();
    proof {
        assert(av.take(0).len() == 0);
        assert(bv.take(0).len() == 0);
    }
    prev.push(0);
    let mut j: usize = 0;
    while j < m
        invariant
            m == bv.len(),
            bc@ == bv,
            j <= m,
            prev@.len() == j + 1,
            forall|k: int| 0 <= k <= j ==> prev@[k] == edit_distance(av.take(0), bv.take(k)),
        decreases m - j,
    {
        proof {
            assert(av.take(0).len() == 0);
        }
        prev.push((j + 1) as u128);
        j += 1;
    }
    let mut i: usize = 0;
    while i < ac.len()
        invariant
            ac@ == av,
            bc@ == bv,
            m == bv.len(),
            i <= av.len(),
            prev@.len() == m + 1,
            forall|k: int| 0 <= k <= m ==> prev@[k] == edit_distance(av.take(i as int), bv.take(k)),
        decreases av.len() - i,
    {
        let ghost ai = av.take(i as int);
        let ghost ai1 = av.take(i + 1);
        proof {
            assert(ai1.drop_last() =~= ai);
            assert(bv.take(0).len() == 0);
        }
        let mut curr: Vec<u128> = Vec::new();
        curr.push((i + 1) as u128);
        let mut j: usize = 0;
        while j < m
            invariant
                ac@ == av,
                bc@ == bv,
                m == bv.len(),
                i < av.len(),
                ai == av.take(i as int),
                ai1 == av.take(i + 1),
                ai1.drop_last() == ai,
                ai1.last() == av[i as int],
                prev@.len() == m + 1,
                forall|k: int| 0 <= k <= m ==> prev@[k] == edit_distance(ai, bv.take(k)),
                j <= m,
                curr@.len() == j + 1,
                forall|k: int| 0 <= k <= j ==> curr@[k] == edit_distance(ai1, bv.take(k)),
            decreases m - j,
        {
            proof {
                assert(bv.take(j + 1).drop_last() =~= bv.take(j as int));
                lemma_edit_distance_bound(ai, bv.take(j + 1));
                lemma_edit_distance_bound(ai1, bv.take(j as int));
                lemma_edit_distance_bound(ai, bv.take(j as int));
            }
            let cost: u128 = if ac[i] != bc[j] {
                1
            } else {
                0
            };
            let del = prev[j + 1] + 1;
            let ins = curr[j] + 1;
            let sub = prev[j] + cost;
            let best = if del <= ins && del <= sub {
                del
            } else if ins <= sub {
                ins
            } else {
                sub
            };
            curr.push(best);
            j += 1;
        }
        prev = curr;
        i += 1;
    }
    proof {
        assert(av.take(av.len() as int) =~= av);
        assert(bv.take(m as int) =~= bv);
        lemma_edit_distance_bound(av, bv);
    }
    prev[m] as usize
}

/// How far `needle` is from an entry's bare code.
pub open spec fn bare_distance(needle: Seq<char>, e: CatalogueEntry) -> nat {
    edit_distance(needle, bare_spec(e.code@))
}

/// Index of the first entry, among the first `n`, whose bare code is
/// nearest to `needle`.
pub open spec fn first_min_index(needle: Seq<char>, entries: Seq<CatalogueEntry>, n: int) -> int
    decreases n,
{
    if n <= 1 {
        0
    } else {
        let b = first_min_index(needle, entries, n - 1);
        if bare_distance(needle, entries[n - 1]) < bare_distance(needle, entries[b]) {
            n - 1
        } else {
            b
        }
    }
}

/// The largest edit distance a suggestion may be from the typed code.
pub const SUGGESTION_DISTANCE: usize = 3;

/// The code nearest to `needle`, when it is close enough to suggest.
pub open spec fn nearest_spec(needle: Seq<char>) -> Option<Seq<char>> {
    let cat = catalogue_spec();
    let b = first_min_index(needle, cat, cat.len() as int);
    if bare_distance(needle, cat[b]) <= SUGGESTION_DISTANCE {
        Some(cat[b].code@)
    } else {
        None
    }
}

/// The char view of an optional code.
pub open spec fn code_view(o: Option<&'static str>) -> Option<Seq<char>> {
    match o {
        Some(c) => Some(c@),
        None => None,
    }
}

/// The entries, in order, whose bare code starts with `needle`.
pub open spec fn prefix_matches(entries: Seq<CatalogueEntry>, needle: Seq<char>) -> Seq<
    CatalogueEntry,
>
    decreases entries.len(),
{
    if entries.len() == 0 {
        seq![]
    } else {
        let rest = prefix_matches(entries.drop_last(), needle);
        if starts_with(bare_spec(entries.last().code@), needle) {
            rest.push(entries.last())
        } else {
            rest
        }
    }
}

/// The nearest code by edit distance, if within [`SUGGESTION_DISTANCE`].
pub fn nearest(needle: &str) -> (r: Option<&'static str>)
    ensures
        code_view(r) == nearest_spec(needle@),
{
    let entries = catalogue();
    let ghost cat = catalogue_spec();
    let mut best: usize = 0;
    let mut best_d = levenshtein(needle, bare(entries[0].code));
    let mut i: usize = 1;
    while i < entries.len()
        invariant
            entries@ == cat,
            cat == catalogue_spec(),
            1 <= i <= cat.len(),
            best == first_min_index(needle@, cat, i as int),
            best < i,
            best_d == bare_distance(needle@, cat[best as int]),
        decreases cat.len() - i,
    {
        let d = levenshtein(needle, bare(entries[i].code));
        if d < best_d {
            best = i;
            best_d = d;
        }
        i += 1;
    }
    if best_d <= SUGGESTION_DISTANCE {
        Some(entries[best].code)
    } else {
        None
    }
}

/// What a user-typed code resolves to.
#[derive(Debug)]
pub enum Found {
    /// Exactly one entry.
    One(CatalogueEntry),
    /// Several entries share the typed prefix; their codes.
    Ambiguous(Vec<&'static str>),
    /// No entry; the nearest code, if any is close.
    NoMatch(Option<&'static str>),
}

/// What [`find`] resolves `input` to.
pub open spec fn found_as(r: Found, input: Seq<char>) -> bool {
    let normalized = normalize_spec(input);
    match first_with_code(catalogue_spec(), normalized) {
        Some(e) => r == Found::One(e),
        None => {
            let needle = bare_spec(normalized);
            let ms = prefix_matches(catalogue_spec(), needle);
            if ms.len() == 1 {
                r == Found::One(ms[0])
            } else if ms.len() == 0 {
                r matches Found::NoMatch(s) && code_view(s) == nearest_spec(needle)
            } else {
                r matches Found::Ambiguous(v) && v@.len() == ms.len() && forall|i: int|
                    0 <= i < ms.len() ==> v@[i] == #[trigger] ms[i].code
            }
        },
    }
}

/// Resolve `input`: exact code (bare or namespaced), then a unique
/// prefix of a bare code, then the nearest code as a suggestion.
pub fn find(input: &str) -> (r: Found)
    ensures
        found_as(r, input@),
{
    let normalized = normalize(input);
    if let Some(entry) = lookup(normalized.as_str()) {
        return Found::One(entry);
    }
    let needle = bare(normalized.as_str());
    let needle_chars = chars_of(needle);
    let entries = catalogue();
    let ghost cat = catalogue_spec();
    let mut matches: Vec<CatalogueEntry> = Vec::new();
    let mut i: usize = 0;
    proof {
        assert(cat.take(0) =~= seq![]);
    }
    while i < entries.len()
        invariant
            entries@ == cat,
            cat == catalogue_spec(),
            needle_chars@ == needle@,
            i <= cat.len(),
            matches@ == prefix_matches(cat.take(i as int), needle@),
        decreases cat.len() - i,
    {
        let code_chars = chars_of(bare(entries[i].code));
        proof {
            assert(cat.take(i + 1).drop_last() =~= cat.take(i as int));
        }
        if chars_start_with(&code_chars, &needle_chars) {
            matches.push(entries[i]);
        }
        i += 1;
    }
    proof {
        assert(cat.take(cat.len() as int) =~= cat);
    }
    if matches.len() == 1 {
        Found::One(matches[0])
    } else if matches.len() == 0 {
        Found::NoMatch(nearest(needle))
    } else {
        let mut codes: Vec<&'static str> = Vec::new();
        let mut k: usize = 0;
        while k < matches.len()
            invariant
                k <= matches@.len(),
                codes@.len() == k,
                forall|j: int| 0 <= j < k ==> codes@[j] == #[trigger] matches@[j].code,
            decreases matches@.len() - k,
        {
            codes.push(matches[k].code);
            k += 1;
        }
        Found::Ambiguous(codes)
    }
}

/// Heading of the code listing.
pub const LIST_HEADER: &'static str = "診断コード一覧 (詳細は `aozora explain <code>`):\n\n";

/// Width the listing pads each code to.
pub const CODE_COLUMN: usize = 38;

/// `s` padded on the right with spaces to at least `width` chars.
pub open spec fn pad_right(s: Seq<char>, width: nat) -> Seq<char> {
    if s.len() < width {
        s + Seq::new((width - s.len()) as nat, |i: int| ' ')
    } else {
        s
    }
}

/// One listing line: the padded code and its title.
pub open spec fn list_line(e: CatalogueEntry) -> Seq<char> {
    "  "@ + pad_right(e.code@, CODE_COLUMN as nat) + " "@ + e.title@ + "\n"@
}

/// The listing lines of `entries`, in order.
pub open spec fn list_lines(entries: Seq<CatalogueEntry>) -> Seq<char>
    decreases entries.len(),
{
    if entries.len() == 0 {
        seq![]
    } else {
        list_lines(entries.drop_last()) + list_line(entries.last())
    }
}

/// Append `s` padded on the right with spaces to `width` chars.
pub fn push_padded(out: &mut String, s: &str, width: usize)
    ensures
        final(out)@ == old(out)@ + pad_right(s@, width as nat),
{
    out.append(s);
    let n = s.unicode_len();
    let mut k = n;
    let ghost base = old(out)@ + s@;
    proof {
        assert(out@ =~= base + Seq::new((k - n) as nat, |i: int| ' '));
    }
    while k < width
        invariant
            n == s@.len(),
            n <= k,
            n >= width ==> k == n,
            n < width ==> k <= width,
            out@ == base + Seq::new((k - n) as nat, |i: int| ' '),
        decreases width - k,
    {
        out.append(" ");
        k += 1;
        proof {
            reveal_strlit(" ");
            assert(out@ =~= base + Seq::new((k - n) as nat, |i: int| ' '));
        }
    }
    proof {
        if n >= width {
            assert(k == n);
            assert(out@ =~= base);
        }
        assert(out@ =~= old(out)@ + pad_right(s@, width as nat));
    }
}

/// The listing of every diagnostic code with its title.
pub fn list_all_text() -> (r: String)
    ensures
        r@ == LIST_HEADER@ + list_lines(catalogue_spec()),
{
    let entries = catalogue();
    let ghost cat = catalogue_spec();
    let mut out = String::from_str(LIST_HEADER);
    let mut i: usize = 0;
    proof {
        assert(cat.take(0) =~= seq![]);
        assert(out@ =~= LIST_HEADER@ + list_lines(cat.take(0)));
    }
    while i < entries.len()
        invariant
            entries@ == cat,
            cat == catalogue_spec(),
            i <= cat.len(),
            out@ == LIST_HEADER@ + list_lines(cat.take(i as int)),
        decreases cat.len() - i,
    {
        let e = entries[i];
        let ghost before = out@;
        out.append("  ");
        push_padded(&mut out, e.code, CODE_COLUMN);
        out.append(" ");
        out.append(e.title);
        out.append("\n");
        proof {
            assert(cat.take(i + 1).drop_last() =~= cat.take(i as int));
            assert(out@ =~= LIST_HEADER@ + list_lines(cat.take(i + 1)));
        }
        i += 1;
    }
    proof {
        assert(cat.take(cat.len() as int) =~= cat);
    }
    out
}

/// The long-form page of one entry: the code line (between the
/// `code_on` / `code_off` style sequences), the title (between `bold_on`
/// / `bold_off`), the explanation, the problematic example and the
/// corrected one, blank lines between.
pub open spec fn entry_text_spec(
    e: CatalogueEntry,
    code_on: Seq<char>,
    code_off: Seq<char>,
    bold_on: Seq<char>,
    bold_off: Seq<char>,
) -> Seq<char> {
    code_on + e.code@ + code_off + "\n\n"@ + bold_on + e.title@ + bold_off + "\n\n"@ + e.explain@
        + "\n\n  問題のある例:\n    "@ + e.repro@ + "\n\n  直した例:\n    "@ + e.fixed@ + "\n"@
}

/// Lay out the explanation page of `entry`; the style sequences are the
/// terminal escapes that colour the code and embolden the title (empty
/// for plain text).
pub fn entry_text(entry: &CatalogueEntry, code_on: &str, code_off: &str, bold_on: &str, bold_off: &str) -> (r: String)
    ensures
        r@ == entry_text_spec(*entry, code_on@, code_off@, bold_on@, bold_off@),
{
    let mut out = String::from_str(code_on);
    out.append(entry.code);
    out.append(code_off);
    out.append("\n\n");
    out.append(bold_on);
    out.append(entry.title);
    out.append(bold_off);
    out.append("\n\n");
    out.append(entry.explain);
    out.append("\n\n  問題のある例:\n    ");
    out.append(entry.repro);
    out.append("\n\n  直した例:\n    ");
    out.append(entry.fixed);
    out.append("\n");
    out
}

/// Shape facts about catalogue code `i`: exact lookup finds its own
/// entry, it opens with the `aozora::` namespace, and no `:` follows it.
proof fn lemma_catalogue_code_shape(i: int)
    requires
        0 <= i < catalogue_spec().len(),
    ensures
        first_with_code(catalogue_spec(), catalogue_spec()[i].code@) == Some(catalogue_spec()[i]),
        starts_with(catalogue_spec()[i].code@, NAMESPACE@),
        colons_at(catalogue_spec()[i].code@, 6),
        forall|j: int|
            8 <= j < catalogue_spec()[i].code@.len() ==> catalogue_spec()[i].code@[j] != ':',
{
    crate::diagnostics::law_catalogue_codes_unique_and_namespaced();
    reveal_strlit("aozora::");
    reveal_strlit("aozora::source-contains-pua");
    reveal_strlit("aozora::unclosed-bracket");
    reveal_strlit("aozora::unmatched-close");
    reveal_strlit("aozora::residual-annotation-marker");
    reveal_strlit("aozora::unregistered-sentinel");
    reveal_strlit("aozora::registry-out-of-order");
    reveal_strlit("aozora::registry-position-mismatch");
    reveal_strlit("aozora::unknown-diagnostic");
    reveal_with_fuel(first_with_code, 9);
    let c = catalogue_spec();
    assert(c[i].code@.subrange(0, 8) =~= NAMESPACE@);
}

/// Every catalogued code resolves to its own entry whether it is typed
/// bare (`unclosed-bracket`) or namespaced (`aozora::unclosed-bracket`).
pub proof fn law_both_spellings_resolve(i: int)
    requires
        0 <= i < catalogue_spec().len(),
    ensures
        forall|r: Found|
            found_as(r, catalogue_spec()[i].code@) ==> r == Found::One(catalogue_spec()[i]),
        forall|r: Found|
            found_as(r, bare_spec(catalogue_spec()[i].code@)) ==> r == Found::One(
                catalogue_spec()[i],
            ),
{
    lemma_catalogue_code_shape(i);
    reveal_strlit("aozora::");
    let code = catalogue_spec()[i].code@;
    assert(has_double_colon(code));
    let b = bare_spec(code);
    assert(b =~= code.subrange(8, code.len() as int));
    assert forall|k: int| !#[trigger] colons_at(b, k) by {
        if colons_at(b, k) {
            assert(code[k + 8] == ':');
        }
    }
    assert(normalize_spec(b) =~= code);
}

} // verus!

//! Terminal rendering of a described diagnostic: the headline / body
//! split, span clamping, 1-based line and column (in Unicode scalar
//! values), the full caret-underlined form drawn by annotate-snippets,
//! and the terse one-line `--quiet` form.

use annotate_snippets::{Level, Renderer, Snippet};
use vstd::prelude::*;
use vstd::string::*;
use vstd::utf8::*;

use crate::chars::{chars_of, find_char, index_of_char, trim_chars, trim_spec};
use crate::diagnostics::{Described, Severity};
use crate::lines::{last_line_start, lemma_last_line_start_props, lemma_take_step, NL};
use crate::text_fmt::{dec_digits, push_decimal};
use crate::utf8_bytes::{at_boundary, count_byte, is_cont_byte, scalar_count};

verus! {

pub open spec fn severity_word_spec(s: Severity) -> Seq<char> {
    match s {
        Severity::Error => "error"@,
        Severity::Warning => "warning"@,
    }
}

/// The lowercase severity word of the `--quiet` line.
pub fn severity_word(severity: Severity) -> (r: &'static str)
    ensures
        r@ == severity_word_spec(severity),
{
    match severity {
        Severity::Error => "error",
        Severity::Warning => "warning",
    }
}

/// The first line of `m` (all of it when it has no `\n`).
pub open spec fn headline_spec(m: Seq<char>) -> Seq<char> {
    m.subrange(0, index_of_char(m, '\n'))
}

/// Everything after the first `\n` of `m`, trimmed; empty without one.
pub open spec fn body_spec(m: Seq<char>) -> Seq<char> {
    if index_of_char(m, '\n') < m.len() {
        trim_spec(m.subrange(index_of_char(m, '\n') + 1, m.len() as int))
    } else {
        seq![]
    }
}

pub proof fn lemma_index_of_char_bound(s: Seq<char>, c: char)
    ensures
        0 <= index_of_char(s, c) <= s.len(),
    decreases s.len(),
{
    if s.len() > 0 {
        lemma_index_of_char_bound(s.drop_first(), c);
    }
}

/// Split a diagnostic message into its headline (first line) and its
/// body (the rest, trimmed).
pub fn split_message(message: &str) -> (r: (&str, String))
    ensures
        r.0@ == headline_spec(message@),
        r.1@ == body_spec(message@),
{
    let cs = chars_of(message);
    let i = find_char(&cs, '\n');
    let first = message.substring_char(0, i);
    if i < cs.len() {
        let rest = message.substring_char(i + 1, cs.len());
        let body = trim_chars(rest);
        (first, String::from_str(body))
    } else {
        (first, String::new())
    }
}

/// Clamp a byte span to `0..=len`: the start to `len`, the end into
/// `start..=len`.
pub fn clamp_span(start: usize, end: usize, len: usize) -> (r: (usize, usize))
    ensures
        r.0 == (if start < len {
            start
        } else {
            len
        }),
        r.1 == (if end < r.0 {
            r.0
        } else if end > len {
            len
        } else {
            end
        }),
{
    let s = if start < len {
        start
    } else {
        len
    };
    let e = if end < s {
        s
    } else if end > len {
        len
    } else {
        end
    };
    (s, e)
}

/// `off` clamped to the length of `b`.
pub open spec fn clamp_to(b: Seq<u8>, off: int) -> int {
    if off < b.len() {
        off
    } else {
        b.len() as int
    }
}

/// 1-based line and column of byte `byte` of `b`: one line per `\n`
/// before it, and one column per char started on its line before it.
pub open spec fn line_col_spec(b: Seq<u8>, byte: int) -> (int, int) {
    let c = clamp_to(b, byte);
    (
        1 + count_byte(b.take(c), NL) as int,
        1 + scalar_count(b.subrange(last_line_start(b.take(c)), c)) as int,
    )
}

proof fn lemma_scalar_step(b: Seq<u8>, s: int, k: int)
    requires
        0 <= s <= k < b.len(),
    ensures
        scalar_count(b.subrange(s, k + 1)) == scalar_count(b.subrange(s, k)) + (
        if is_continuation_byte(b[k]) {
            0nat
        } else {
            1nat
        }),
{
    assert(b.subrange(s, k + 1).drop_last() =~= b.subrange(s, k));
}

/// 1-based `(line, column)` of `byte` within `source`; the column counts
/// Unicode scalar values.
pub fn line_col(source: &str, byte: usize) -> (r: (usize, usize))
    requires
        source.spec_bytes().len() < usize::MAX,
    ensures
        (r.0 as int, r.1 as int) == line_col_spec(source.spec_bytes(), byte as int),
{
    let bytes = source.as_bytes();
    let ghost b = bytes@;
    let c = if byte < bytes.len() {
        byte
    } else {
        bytes.len()
    };
    let mut line: usize = 1;
    let mut col: usize = 1;
    let mut ls: usize = 0;
    let mut k: usize = 0;
    proof {
        assert(b.take(0) =~= Seq::<u8>::empty());
        assert(b.subrange(0, 0) =~= Seq::<u8>::empty());
    }
    while k < c
        invariant
            b == bytes@,
            b.len() < usize::MAX,
            c <= b.len(),
            k <= c,
            line == 1 + count_byte(b.take(k as int), NL),
            line <= k + 1,
            ls == last_line_start(b.take(k as int)),
            ls <= k,
            col == 1 + scalar_count(b.subrange(ls as int, k as int)),
            col <= k + 1,
        decreases c - k,
    {
        proof {
            lemma_take_step(b, k as int);
            lemma_last_line_start_props(b, k as int);
        }
        if bytes[k] == NL {
            line = line + 1;
            col = 1;
            ls = k + 1;
            proof {
                assert(b.subrange(k + 1, k + 1) =~= Seq::<u8>::empty());
            }
        } else {
            proof {
                lemma_scalar_step(b, ls as int, k as int);
                assert(scalar_count(b.subrange(ls as int, k as int)) <= k - ls) by {
                    lemma_scalar_bound(b.subrange(ls as int, k as int));
                }
            }
            if !is_cont_byte(bytes[k]) {
                col = col + 1;
            }
        }
        k = k + 1;
    }
    (line, col)
}

pub proof fn lemma_scalar_bound(b: Seq<u8>)
    ensures
        scalar_count(b) <= b.len(),
    decreases b.len(),
{
    if b.len() > 0 {
        lemma_scalar_bound(b.drop_last());
    }
}

/// The `--quiet` line: `label:line:col: severity[code]: headline`.
pub open spec fn quiet_line_spec(label: Seq<char>, source: Seq<u8>, d: Described) -> Seq<char> {
    let lc = line_col_spec(source, d.span.start as int);
    label + ":"@ + dec_digits(lc.0 as nat) + ":"@ + dec_digits(lc.1 as nat) + ": "@
        + severity_word_spec(d.severity) + "["@ + d.code@ + "]: "@ + headline_spec(d.message@)
        + "\n"@
}

/// Render `d` as one terse line, newline included: the `--quiet` /
/// grep-friendly form.
pub fn render_quiet(label: &str, source: &str, d: &Described) -> (r: String)
    requires
        source.spec_bytes().len() < usize::MAX,
    ensures
        r@ == quiet_line_spec(label@, source.spec_bytes(), *d),
{
    let (line, col) = line_col(source, d.span.start as usize);
    let (summary, _) = split_message(d.message.as_str());
    let mut out = String::from_str(label);
    out.append(":");
    push_decimal(&mut out, line as u64);
    out.append(":");
    push_decimal(&mut out, col as u64);
    out.append(": ");
    out.append(severity_word(d.severity));
    out.append("[");
    out.append(d.code);
    out.append("]: ");
    out.append(summary);
    out.append("\n");
    out
}


/// What annotate-snippets' styled renderer prints for a message of
/// error level (warning level when `error` is false) titled `title`,
/// whose snippet shows `source` numbered from line 1 under the origin
/// `origin`, folded to the annotated lines, with one annotation over
/// the bytes `start..end`, then one note footer per entry of `notes` and
/// a help footer `help`.
pub uninterp spec fn annotated_snippet(
    error: bool,
    title: Seq<char>,
    source: Seq<char>,
    origin: Seq<char>,
    start: int,
    end: int,
    notes: Seq<Seq<char>>,
    help: Seq<char>,
) -> Seq<char>;

/// Draws a message with `annotate_snippets::Renderer::styled().render`.
/// Its text is named by `annotated_snippet` over the arguments; the
/// crate slices `source` at the annotation's ends (and panics off a
/// char boundary), which `requires` rules out.
#[verifier::external_body]
fn render_snippet(
    severity: Severity,
    title: &str,
    source: &str,
    origin: &str,
    start: usize,
    end: usize,
    notes: &Vec<String>,
    help: &str,
) -> (r: String)
    requires
        start <= end <= source.spec_bytes().len(),
        at_boundary(source.spec_bytes(), start as int),
        at_boundary(source.spec_bytes(), end as int),
    ensures
        r@ == annotated_snippet(
            severity == Severity::Error,
            title@,
            source@,
            origin@,
            start as int,
            end as int,
            notes@.map_values(|n: String| n@),
            help@,
        ),
{
    let level = match severity {
        Severity::Error => Level::Error,
        Severity::Warning => Level::Warning,
    };
    let snippet = Snippet::source(source).line_start(1).origin(origin).fold(true);
    let mut message = level.title(title).snippet(snippet.annotation(level.span(start..end)));
    for n in notes.iter() {
        message = message.footer(Level::Note.title(n));
    }
    message = message.footer(Level::Help.title(help));
    format!("{}", Renderer::styled().render(message))
}

/// The help footer pointing at the code's explanation.
pub open spec fn explain_hint_spec(code: Seq<char>) -> Seq<char> {
    "run `aozora explain "@ + code + "`"@
}

/// The note footers of a rendered diagnostic: the message body when it
/// has one, then the code.
pub open spec fn footer_notes(d: Described) -> Seq<Seq<char>> {
    if body_spec(d.message@).len() > 0 {
        seq![body_spec(d.message@), d.code@]
    } else {
        seq![d.code@]
    }
}

/// The annotated span: the diagnostic's span clamped into the source.
pub open spec fn clamped_span(d: Described, len: int) -> (int, int) {
    let s = if d.span.start < len {
        d.span.start as int
    } else {
        len
    };
    let e = if d.span.end < s {
        s
    } else if d.span.end > len {
        len
    } else {
        d.span.end as int
    };
    (s, e)
}

/// The clamped span of `d` falls on char boundaries of `source`, so the
/// snippet renderer can slice there.
pub open spec fn renderable(source: &str, d: Described) -> bool {
    &&& at_boundary(source.spec_bytes(), clamped_span(d, source.spec_bytes().len() as int).0)
    &&& at_boundary(source.spec_bytes(), clamped_span(d, source.spec_bytes().len() as int).1)
}

/// The full annotated form of `d` within `source`, trailing blank line
/// included.
pub open spec fn full_form_spec(label: Seq<char>, source: &str, d: Described) -> Seq<char> {
    annotated_snippet(
        d.severity == Severity::Error,
        headline_spec(d.message@),
        source@,
        label,
        clamped_span(d, source.spec_bytes().len() as int).0,
        clamped_span(d, source.spec_bytes().len() as int).1,
        footer_notes(d),
        explain_hint_spec(d.code@),
    ) + "\n\n"@
}

/// Render `d` as a rustc-style annotated snippet of `source` (shown
/// under `label`), followed by a blank line: the headline as title, the
/// caret under the clamped span, the body and the code as notes, and a
/// hint to run `aozora explain` on the code.
pub fn render(label: &str, source: &str, d: &Described) -> (r: String)
    requires
        renderable(source, *d),
    ensures
        r@ == full_form_spec(label@, source, *d),
{
    let (title, body) = split_message(d.message.as_str());
    let mut hint = String::from_str("run `aozora explain ");
    hint.append(d.code);
    hint.append("`");
    let (start, end) = clamp_span(d.span.start as usize, d.span.end as usize, source.as_bytes().len());
    let mut notes: Vec<String> = Vec::new();
    if body.as_str().unicode_len() > 0 {
        notes.push(body);
    }
    notes.push(String::from_str(d.code));
    assert(notes@.map_values(|n: String| n@) =~= footer_notes(*d));
    let mut out = render_snippet(d.severity, title, source, label, start, end, &notes, hint.as_str());
    out.append("\n\n");
    out
}

} // verus!

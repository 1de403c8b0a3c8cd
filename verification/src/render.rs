//! HTML rendering decisions: the size cap, the standalone document
//! wrapper of `render --standalone`, and the editor preview, which
//! returns an inert notice instead of rendering an oversized document.

use vstd::prelude::*;
use vstd::string::*;

use crate::diagnostics::lexer_room;
use crate::text_fmt::{dec_digits, push_decimal};

verus! {

/// Largest document, in bytes, that is rendered or fully analysed
/// (16 MiB).
pub const MAX_RENDER_BYTES: usize = 16777216;

/// Bytes in a MiB.
pub const MIB: usize = 1048576;

/// Minimal stylesheet of the standalone document: vertical right-to-left
/// Japanese text, as the editor preview renders it.
pub const STANDALONE_CSS: &'static str = "\
html { writing-mode: vertical-rl; }
body { font-family: \"Noto Serif CJK JP\", \"Hiragino Mincho ProN\", serif;
       line-height: 1.8; max-block-size: 40em; margin: 2rem auto; }
ruby rt { font-size: 0.5em; }";

pub const STANDALONE_HEAD: &'static str = "<!DOCTYPE html>\n<html lang=\"ja\">\n<head>\n<meta charset=\"utf-8\">\n<meta name=\"viewport\" content=\"width=device-width, initial-scale=1\">\n<title>";
pub const STANDALONE_STYLE: &'static str = "</title>\n<style>\n";
pub const STANDALONE_BODY: &'static str = "\n</style>\n</head>\n<body>\n";
pub const STANDALONE_TAIL: &'static str = "\n</body>\n</html>\n";

/// Whole MiB in `bytes`, rounded down.
pub open spec fn as_mib_spec(bytes: nat) -> nat {
    bytes / MIB as nat
}

/// Whole MiB in `bytes`, rounded down.
pub fn as_mib(bytes: usize) -> (r: usize)
    ensures
        r == as_mib_spec(bytes as nat),
{
    bytes / MIB
}

/// The refusal of a document above the render cap.
pub open spec fn over_limit_message(label: Seq<char>, len: nat) -> Seq<char> {
    label + " is "@ + dec_digits(as_mib_spec(len)) + " MiB, above the "@ + dec_digits(
        as_mib_spec(MAX_RENDER_BYTES as nat),
    ) + " MiB render limit"@
}

/// Fail when `len` exceeds the render cap, with the message to report.
pub fn ensure_within_limit(label: &str, len: usize) -> (r: Result<(), String>)
    ensures
        r is Ok <==> len <= MAX_RENDER_BYTES,
        r matches Err(m) ==> m@ == over_limit_message(label@, len as nat),
{
    if len > MAX_RENDER_BYTES {
        let mut m = String::from_str(label);
        m.append(" is ");
        push_decimal(&mut m, as_mib(len) as u64);
        m.append(" MiB, above the ");
        push_decimal(&mut m, as_mib(MAX_RENDER_BYTES) as u64);
        m.append(" MiB render limit");
        return Err(m);
    }
    Ok(())
}

/// The standalone HTML5 document around `fragment`.
pub open spec fn standalone_spec(label: Seq<char>, fragment: Seq<char>) -> Seq<char> {
    STANDALONE_HEAD@ + label + STANDALONE_STYLE@ + STANDALONE_CSS@ + STANDALONE_BODY@ + fragment
        + STANDALONE_TAIL@
}

/// Wrap an HTML fragment in a self-contained HTML5 document titled `label`.
pub fn wrap_standalone(label: &str, fragment: &str) -> (r: String)
    ensures
        r@ == standalone_spec(label@, fragment@),
{
    let mut out = String::from_str(STANDALONE_HEAD);
    out.append(label);
    out.append(STANDALONE_STYLE);
    out.append(STANDALONE_CSS);
    out.append(STANDALONE_BODY);
    out.append(fragment);
    out.append(STANDALONE_TAIL);
    out
}

/// The `--stats` line of a render.
pub open spec fn render_stats_spec(label: Seq<char>, bytes_in: nat, bytes_out: nat, ms: nat) -> Seq<
    char,
> {
    "aozora: rendered "@ + label + " ("@ + dec_digits(bytes_in) + " bytes in, "@ + dec_digits(
        bytes_out,
    ) + " bytes out) in "@ + dec_digits(ms) + "ms"@
}

/// The `--stats` line of a render of `label`.
pub fn render_stats_line(label: &str, bytes_in: usize, bytes_out: usize, ms: u64) -> (r: String)
    ensures
        r@ == render_stats_spec(label@, bytes_in as nat, bytes_out as nat, ms as nat),
{
    let mut out = String::from_str("aozora: rendered ");
    out.append(label);
    out.append(" (");
    push_decimal(&mut out, bytes_in as u64);
    out.append(" bytes in, ");
    push_decimal(&mut out, bytes_out as u64);
    out.append(" bytes out) in ");
    push_decimal(&mut out, ms);
    out.append("ms");
    out
}

/// The preview notice for a document of `byte_len` bytes above the cap.
pub open spec fn oversize_html_spec(byte_len: nat) -> Seq<char> {
    "<p>Preview paused — this document is "@ + dec_digits(as_mib_spec(byte_len))
        + " MiB, above the "@ + dec_digits(as_mib_spec(MAX_RENDER_BYTES as nat))
        + " MiB limit. Editing still works.</p>"@
}

/// Inert HTML fragment shown in place of the preview of an oversized
/// document; no document content is interpolated.
pub fn oversize_html_notice(byte_len: usize) -> (r: String)
    ensures
        r@ == oversize_html_spec(byte_len as nat),
{
    let mut out = String::from_str("<p>Preview paused — this document is ");
    push_decimal(&mut out, as_mib(byte_len) as u64);
    out.append(" MiB, above the ");
    push_decimal(&mut out, as_mib(MAX_RENDER_BYTES) as u64);
    out.append(" MiB limit. Editing still works.</p>");
    out
}

/// The informational message published for a document above the cap.
pub open spec fn oversize_notice_spec(byte_len: nat) -> Seq<char> {
    "This document is "@ + dec_digits(as_mib_spec(byte_len)) + " MiB, above the "@
        + dec_digits(as_mib_spec(MAX_RENDER_BYTES as nat))
        + " MiB limit for full analysis. Editing and syntax highlighting keep working; diagnostics and the HTML preview are paused for this file."@
}

/// The message of the single informational diagnostic published for an
/// oversized document.
pub fn oversize_notice_message(byte_len: usize) -> (r: String)
    ensures
        r@ == oversize_notice_spec(byte_len as nat),
{
    let mut out = String::from_str("This document is ");
    push_decimal(&mut out, as_mib(byte_len) as u64);
    out.append(" MiB, above the ");
    push_decimal(&mut out, as_mib(MAX_RENDER_BYTES) as u64);
    out.append(
        " MiB limit for full analysis. Editing and syntax highlighting keep working; diagnostics and the HTML preview are paused for this file.",
    );
    out
}

/// The HTML the lexer renders `source` to.
pub uninterp spec fn rendered_html(source: Seq<char>) -> Seq<char>;

/// Renders `source` with `aozora::Document::new(source).parse().to_html()`
/// (default options). The markup is named, not stated: rendering is the
/// lexer's own logic. The lexer asserts that its cleaned copy of the
/// source fits `u32` byte offsets, so `requires` keeps sources without
/// `lexer_room` out.
#[verifier::external_body]
fn html_of(source: &str) -> (r: String)
    requires
        lexer_room(source.spec_bytes().len()),
    ensures
        r@ == rendered_html(source@),
{
    let document = aozora::Document::new(source);
    document.parse().to_html()
}

/// The HTML fragment of `source`, as the CLI's default output.
pub fn to_fragment(source: &str) -> (r: String)
    requires
        lexer_room(source.spec_bytes().len()),
    ensures
        r@ == rendered_html(source@),
{
    html_of(source)
}

/// The editor preview of `text`: its rendered HTML, or the inert notice
/// when it is above the cap.
pub fn preview_html(text: &str) -> (r: String)
    ensures
        text.spec_bytes().len() > MAX_RENDER_BYTES ==> r@ == oversize_html_spec(
            text.spec_bytes().len(),
        ),
        text.spec_bytes().len() <= MAX_RENDER_BYTES ==> r@ == rendered_html(text@),
{
    let len = text.as_bytes().len();
    if len > MAX_RENDER_BYTES {
        oversize_html_notice(len)
    } else {
        html_of(text)
    }
}

} // verus!

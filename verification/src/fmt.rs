//! The formatter's decisions: canonicalisation through the lexer's
//! `parse ∘ serialize` round trip, path classification and discovery
//! filters, the aggregate outcome, the idempotency guard before an
//! in-place write, the unified diff of `--check --diff`, and the
//! `--check --json` records.

use similar::{ChangeTag, TextDiff};
use vstd::prelude::*;
use vstd::string::*;

use crate::chars::{chars_of, starts_with};
use crate::diagnostics::lexer_room;
use crate::discover::path_le;
use crate::text_fmt::{dec_digits, push_decimal};
use crate::utf8_bytes::str_eq;

verus! {

/// The aggregate result of a formatter run, ordered clean < would-reformat
/// < error.
#[derive(Debug, Clone, Copy, PartialEq, Eq, PartialOrd, Ord)]
pub enum Outcome {
    /// Everything was already formatted (or written / listed) without error.
    Clean,
    /// `--check` found at least one input that would change.
    WouldReformat,
    /// An I/O error, missing path, parser panic, or guard failure occurred.
    Error,
}

pub open spec fn fmt_rank(o: Outcome) -> nat {
    match o {
        Outcome::Clean => 0,
        Outcome::WouldReformat => 1,
        Outcome::Error => 2,
    }
}

/// The more severe of `a` and `b` (`a` on a tie).
pub open spec fn worse_spec(a: Outcome, b: Outcome) -> Outcome {
    if fmt_rank(b) > fmt_rank(a) {
        b
    } else {
        a
    }
}

/// Folding outcomes with `worse` keeps the most severe one whatever the
/// order the inputs come in: the combination is commutative,
/// associative and idempotent, and ranks as the larger of the two.
pub proof fn law_worse_folds_in_any_order(a: Outcome, b: Outcome, c: Outcome)
    ensures
        worse_spec(a, b) == worse_spec(b, a),
        worse_spec(worse_spec(a, b), c) == worse_spec(a, worse_spec(b, c)),
        worse_spec(a, a) == a,
        fmt_rank(worse_spec(a, b)) == if fmt_rank(a) >= fmt_rank(b) {
            fmt_rank(a)
        } else {
            fmt_rank(b)
        },
{
}

impl Outcome {
    /// The documented process exit code: 0 / 1 / 2.
    pub fn exit_code(self) -> (r: u8)
        ensures
            r == fmt_rank(self),
    {
        match self {
            Outcome::Clean => 0,
            Outcome::WouldReformat => 1,
            Outcome::Error => 2,
        }
    }

    /// The more severe of two outcomes.
    pub fn worse(self, other: Outcome) -> (r: Outcome)
        ensures
            r == worse_spec(self, other),
    {
        if other.exit_code() > self.exit_code() {
            other
        } else {
            self
        }
    }
}

/// The canonical form of `source` the lexer's round trip produces.
pub uninterp spec fn formatted(source: Seq<char>) -> Seq<char>;

/// Runs `aozora::Document::new(source).parse().serialize()` (default
/// options). The canonical form is named, not stated: serialisation is
/// the lexer's own logic. Claimed besides: the canonical form is a fixed
/// point of the round trip — aozora-render documents that a second
/// parse-and-serialize pass returns the same bytes. The lexer asserts
/// that its cleaned copy of the source fits `u32` byte offsets, so
/// `requires` keeps sources without `lexer_room` out.
#[verifier::external_body]
fn serialize_round_trip(source: &str) -> (r: String)
    requires
        lexer_room(source.spec_bytes().len()),
    ensures
        r@ == formatted(source@),
        formatted(r@) == r@,
{
    let document = aozora::Document::new(source);
    document.parse().serialize()
}

/// Canonicalise an aozora source string. The result is idempotent:
/// formatting it again gives it back.
pub fn format_source(source: &str) -> (r: String)
    requires
        lexer_room(source.spec_bytes().len()),
    ensures
        r@ == formatted(source@),
        formatted(r@) == r@,
{
    serialize_round_trip(source)
}

/// A formatted input: the text as read and its canonical form.
#[derive(Debug)]
pub struct Formatted {
    pub old: String,
    pub new: String,
}

impl Formatted {
    /// True when canonicalisation changed the source.
    pub fn changed(&self) -> (r: bool)
        ensures
            r == (self.old@ != self.new@),
    {
        !str_eq(self.old.as_str(), self.new.as_str())
    }
}

/// What an in-place write does with a formatted file.
#[derive(Debug, Clone, Copy, PartialEq, Eq, Structural)]
pub enum WriteDecision {
    /// Already canonical: leave the file untouched.
    Unchanged,
    /// Write the canonical form.
    Write,
    /// A second pass changes the canonical form: refuse to write.
    NotIdempotent,
}

/// Decide the in-place write of `fmt`, given `reformatted`, the result
/// of formatting `fmt.new` once more.
pub fn write_decision(fmt: &Formatted, reformatted: &str) -> (d: WriteDecision)
    ensures
        fmt.old@ == fmt.new@ ==> d == WriteDecision::Unchanged,
        fmt.old@ != fmt.new@ && reformatted@ == fmt.new@ ==> d == WriteDecision::Write,
        fmt.old@ != fmt.new@ && reformatted@ != fmt.new@ ==> d == WriteDecision::NotIdempotent,
{
    if !fmt.changed() {
        WriteDecision::Unchanged
    } else if str_eq(reformatted, fmt.new.as_str()) {
        WriteDecision::Write
    } else {
        WriteDecision::NotIdempotent
    }
}

pub const NOT_IDEMPOTENT_1: &'static str = "refusing to overwrite ";
pub const NOT_IDEMPOTENT_2: &'static str = ": formatting is not idempotent for this input (a second pass changes the output). This is a bug — please report it. The file was left unchanged.";

/// The write guard never refuses a canonical form: when `fmt.new` is
/// what `format_source` gave (so formatting it again gives it back) and
/// `reformatted` is that second pass, the two agree, so `write_decision`
/// answers `Unchanged` or `Write`, never `NotIdempotent`.
pub proof fn law_canonical_form_is_never_refused(fmt: Formatted, reformatted: Seq<char>)
    requires
        formatted(fmt.new@) == fmt.new@,
        reformatted == formatted(fmt.new@),
    ensures
        reformatted == fmt.new@,
{
}

/// The refusal reported when a write would not be idempotent.
pub fn not_idempotent_message(path: &str) -> (r: String)
    ensures
        r@ == NOT_IDEMPOTENT_1@ + path@ + NOT_IDEMPOTENT_2@,
{
    let mut out = String::from_str(NOT_IDEMPOTENT_1);
    out.append(path);
    out.append(NOT_IDEMPOTENT_2);
    out
}

/// The argument `-` names standard input.
pub open spec fn is_stdin_spec(p: Seq<char>) -> bool {
    p == "-"@
}

/// Whether a path argument names standard input.
pub fn is_stdin(path: &str) -> (r: bool)
    ensures
        r == is_stdin_spec(path@),
{
    str_eq(path, "-")
}

/// How the path arguments are read.
#[derive(Debug, Clone, Copy, PartialEq, Eq, Structural)]
pub enum PathsKind {
    /// Read one document from standard input.
    Stdin,
    /// Discover files from the arguments.
    Files,
}

/// `-` given together with other paths.
pub const MIXED_STDIN: &'static str = "cannot mix stdin (`-`) with file paths";

/// Some argument names standard input.
pub open spec fn any_stdin(paths: Seq<String>) -> bool {
    exists|i: int| 0 <= i < paths.len() && is_stdin_spec(#[trigger] paths[i]@)
}

/// Classify the path arguments: standard input when there are none or
/// the sole one is `-`; an error when `-` is mixed with other paths.
pub fn classify_paths(paths: &[String]) -> (r: Result<PathsKind, &'static str>)
    ensures
        paths@.len() == 0 ==> r == Ok::<PathsKind, &'static str>(PathsKind::Stdin),
        paths@.len() > 0 && !any_stdin(paths@) ==> r == Ok::<PathsKind, &'static str>(
            PathsKind::Files,
        ),
        paths@.len() == 1 && any_stdin(paths@) ==> r == Ok::<PathsKind, &'static str>(
            PathsKind::Stdin,
        ),
        paths@.len() > 1 && any_stdin(paths@) ==> r == Err::<PathsKind, &'static str>(MIXED_STDIN),
{
    if paths.len() == 0 {
        return Ok(PathsKind::Stdin);
    }
    let mut i: usize = 0;
    while i < paths.len()
        invariant
            i <= paths@.len(),
            forall|k: int| 0 <= k < i ==> !is_stdin_spec(#[trigger] paths@[k]@),
        decreases paths@.len() - i,
    {
        if is_stdin(paths[i].as_str()) {
            if paths.len() > 1 {
                return Err(MIXED_STDIN);
            }
            return Ok(PathsKind::Stdin);
        }
        i += 1;
    }
    Ok(PathsKind::Files)
}

/// `char::to_ascii_lowercase`.
pub open spec fn ascii_lower(c: char) -> char {
    if 'A' <= c <= 'Z' {
        ((c as u32) + 32) as char
    } else {
        c
    }
}

/// `s` with ASCII letters lower-cased.
pub open spec fn ascii_lower_seq(s: Seq<char>) -> Seq<char> {
    s.map_values(|c: char| ascii_lower(c))
}

/// `p` is a suffix of `s`.
pub open spec fn ends_with(s: Seq<char>, p: Seq<char>) -> bool {
    p.len() <= s.len() && s.subrange(s.len() - p.len(), s.len() as int) == p
}

/// File-name suffixes recognised as aozora sources (ASCII, lower case).
pub open spec fn source_extensions() -> Seq<Seq<char>> {
    seq![".afm"@, ".aozora"@, ".aozora.txt"@]
}

/// A file name ends in a recognised extension, case-insensitively.
pub open spec fn is_aozora_source_spec(name: Seq<char>) -> bool {
    exists|i: int|
        0 <= i < source_extensions().len() && ends_with(
            ascii_lower_seq(name),
            #[trigger] source_extensions()[i],
        )
}

fn lower_char(c: char) -> (r: char)
    ensures
        r == ascii_lower(c),
{
    if 'A' <= c && c <= 'Z' {
        ((c as u8) + 32) as char
    } else {
        c
    }
}

/// Whether the chars `s` end with the chars of `p`.
fn chars_end_with(s: &Vec<char>, p: &Vec<char>) -> (r: bool)
    ensures
        r == ends_with(s@, p@),
{
    if p.len() > s.len() {
        return false;
    }
    let off = s.len() - p.len();
    let mut i: usize = 0;
    while i < p.len()
        invariant
            off + p@.len() == s@.len(),
            s@.len() <= usize::MAX,
            i <= p@.len(),
            forall|k: int| 0 <= k < i ==> s@[off + k] == p@[k],
        decreases p@.len() - i,
    {
        if s[off + i] != p[i] {
            proof {
                assert(s@.subrange(off as int, s@.len() as int)[i as int] != p@[i as int]);
            }
            return false;
        }
        i += 1;
    }
    proof {
        assert(s@.subrange(off as int, s@.len() as int) =~= p@);
    }
    true
}

/// True for file names ending in `.afm`, `.aozora` or `.aozora.txt`,
/// compared case-insensitively.
pub fn is_aozora_source(name: &str) -> (r: bool)
    ensures
        r == is_aozora_source_spec(name@),
{
    let cs = chars_of(name);
    let mut lower: Vec<char> = Vec::new();
    let mut i: usize = 0;
    while i < cs.len()
        invariant
            cs@ == name@,
            i <= cs@.len(),
            lower@ == ascii_lower_seq(cs@.take(i as int)),
        decreases cs@.len() - i,
    {
        lower.push(lower_char(cs[i]));
        i += 1;
        proof {
            assert(lower@ =~= ascii_lower_seq(cs@.take(i as int)));
        }
    }
    proof {
        assert(cs@.take(cs@.len() as int) =~= cs@);
    }
    let afm = chars_of(".afm");
    let aozora = chars_of(".aozora");
    let aozora_txt = chars_of(".aozora.txt");
    let r = chars_end_with(&lower, &afm) || chars_end_with(&lower, &aozora) || chars_end_with(
        &lower,
        &aozora_txt,
    );
    proof {
        if r {
            if ends_with(lower@, ".afm"@) {
                assert(source_extensions()[0] == ".afm"@);
            } else if ends_with(lower@, ".aozora"@) {
                assert(source_extensions()[1] == ".aozora"@);
            } else {
                assert(source_extensions()[2] == ".aozora.txt"@);
            }
        } else {
            assert forall|i: int| 0 <= i < source_extensions().len() implies !ends_with(
                ascii_lower_seq(name@),
                #[trigger] source_extensions()[i],
            ) by {
                if i == 0 {
                } else if i == 1 {
                } else {
                }
            }
        }
    }
    r
}

/// A directory entry below the root that discovery skips: `target` or
/// a dotted name.
pub open spec fn is_ignored_spec(depth: nat, name: Seq<char>) -> bool {
    depth != 0 && (name == "target"@ || (name.len() > 0 && name[0] == '.'))
}

/// Skip `target` and dotted entries below the root; the root itself
/// (depth 0) is never skipped.
pub fn is_ignored(depth: usize, name: &str) -> (r: bool)
    ensures
        r == is_ignored_spec(depth as nat, name@),
{
    if depth == 0 {
        return false;
    }
    if str_eq(name, "target") {
        return true;
    }
    let cs = chars_of(name);
    cs.len() > 0 && cs[0] == '.'
}

/// `a` and `b` name the same path: `Path`'s `==`, which compares the
/// paths component by component (so `a//b` and `a/b/` are both `a/b`).
pub uninterp spec fn path_eq(a: Seq<char>, b: Seq<char>) -> bool;

/// `std::path::Path::new(a) == std::path::Path::new(b)`. Claimed: the
/// result is `path_eq`, and, as `Ord` must agree with `==` (std's
/// documented contract for `Ord`, which `Path` implements by comparing
/// components), it holds exactly when each path sorts at or before the
/// other.
#[verifier::external_body]
pub(crate) fn same_path(a: &str, b: &str) -> (r: bool)
    ensures
        r == path_eq(a@, b@),
        r == (path_le(a@, b@) && path_le(b@, a@)),
{
    std::path::Path::new(a) == std::path::Path::new(b)
}

/// `v` with each run of adjacent items naming the same path collapsed to
/// its first.
pub open spec fn dedup_spec(v: Seq<Seq<char>>) -> Seq<Seq<char>>
    decreases v.len(),
{
    if v.len() <= 1 {
        v
    } else if path_eq(v[v.len() - 2], v.last()) {
        dedup_spec(v.drop_last())
    } else {
        dedup_spec(v.drop_last()).push(v.last())
    }
}

/// The char views of `v`.
pub open spec fn views(v: Seq<String>) -> Seq<Seq<char>> {
    v.map_values(|s: String| s@)
}

/// Collapse runs of adjacent arguments naming the same path
/// (`Vec::<PathBuf>::dedup`), keeping order.
pub fn dedup_paths(files: Vec<String>) -> (r: Vec<String>)
    ensures
        views(r@) == dedup_spec(views(files@)),
        forall|k: int|
            0 <= k < files@.len() - 1 ==> #[trigger] path_eq(files@[k]@, files@[k + 1]@) == (path_le(
                files@[k]@,
                files@[k + 1]@,
            ) && path_le(files@[k + 1]@, files@[k]@)),
{
    let mut out: Vec<String> = Vec::new();
    let mut i: usize = 0;
    proof {
        assert(views(files@).take(0) =~= seq![]);
        assert(views(out@) =~= dedup_spec(views(files@).take(0)));
    }
    while i < files.len()
        invariant
            i <= files@.len(),
            views(out@) == dedup_spec(views(files@).take(i as int)),
            forall|k: int|
                0 <= k < i - 1 ==> #[trigger] path_eq(files@[k]@, files@[k + 1]@) == (path_le(
                    files@[k]@,
                    files@[k + 1]@,
                ) && path_le(files@[k + 1]@, files@[k]@)),
            i > 0 ==> out@.len() > 0,
            i == 0 ==> out@.len() == 0,
        decreases files@.len() - i,
    {
        let ghost vs = views(files@);
        proof {
            assert(vs.take(i + 1).drop_last() =~= vs.take(i as int));
            assert(vs.take(i + 1).last() == files@[i as int]@);
            if i > 0 {
                assert(vs.take(i + 1)[i - 1] == files@[i - 1]@);
            }
        }
        let keep = if i == 0 {
            true
        } else {
            !same_path(files[i - 1].as_str(), files[i].as_str())
        };
        if keep {
            let ghost before = out@;
            out.push(files[i].clone());
            proof {
                assert(views(out@) =~= views(before).push(files@[i as int]@));
            }
        }
        i += 1;
    }
    proof {
        assert(views(files@).take(files@.len() as int) =~= views(files@));
    }
    out
}

/// The smallest old start among `ops`.
pub open spec fn old_first(ops: Seq<(usize, usize, usize, usize)>) -> int
    decreases ops.len(),
{
    if ops.len() <= 1 {
        ops[0].0 as int
    } else if (ops.last().0 as int) < old_first(ops.drop_last()) {
        ops.last().0 as int
    } else {
        old_first(ops.drop_last())
    }
}

/// The largest old end among `ops`.
pub open spec fn old_last(ops: Seq<(usize, usize, usize, usize)>) -> int
    decreases ops.len(),
{
    if ops.len() <= 1 {
        ops[0].1 as int
    } else if (ops.last().1 as int) > old_last(ops.drop_last()) {
        ops.last().1 as int
    } else {
        old_last(ops.drop_last())
    }
}

/// The smallest new start among `ops`.
pub open spec fn new_first(ops: Seq<(usize, usize, usize, usize)>) -> int
    decreases ops.len(),
{
    if ops.len() <= 1 {
        ops[0].2 as int
    } else if (ops.last().2 as int) < new_first(ops.drop_last()) {
        ops.last().2 as int
    } else {
        new_first(ops.drop_last())
    }
}

/// The largest new end among `ops`.
pub open spec fn new_last(ops: Seq<(usize, usize, usize, usize)>) -> int
    decreases ops.len(),
{
    if ops.len() <= 1 {
        ops[0].3 as int
    } else if (ops.last().3 as int) > new_last(ops.drop_last()) {
        ops.last().3 as int
    } else {
        new_last(ops.drop_last())
    }
}

/// The 1-based `(old_start, old_len, new_start, new_len)` of a hunk.
pub open spec fn hunk_spec(ops: Seq<(usize, usize, usize, usize)>) -> (int, int, int, int) {
    (
        old_first(ops) + 1,
        old_last(ops) - old_first(ops),
        new_first(ops) + 1,
        new_last(ops) - new_first(ops),
    )
}

/// 1-based `(old_start, old_len, new_start, new_len)` spanning a group of
/// diff ops, each given as its old and new index ranges.
pub fn hunk_span(ops: &[(usize, usize, usize, usize)]) -> (r: (usize, usize, usize, usize))
    requires
        ops@.len() > 0,
        forall|i: int| 0 <= i < ops@.len() ==> (#[trigger] ops@[i]).0 <= ops@[i].1 && ops@[i].2 <= ops@[i].3,
        forall|i: int| 0 <= i < ops@.len() ==> (#[trigger] ops@[i]).0 < usize::MAX && ops@[i].2 < usize::MAX,
    ensures
        exists|i: int| 0 <= i < ops@.len() && r.0 == (#[trigger] ops@[i]).0 + 1,
        forall|i: int| 0 <= i < ops@.len() ==> r.0 <= (#[trigger] ops@[i]).0 + 1,
        exists|i: int| 0 <= i < ops@.len() && r.2 == (#[trigger] ops@[i]).2 + 1,
        forall|i: int| 0 <= i < ops@.len() ==> r.2 <= (#[trigger] ops@[i]).2 + 1,
        exists|i: int| 0 <= i < ops@.len() && r.1 + r.0 - 1 == (#[trigger] ops@[i]).1,
        forall|i: int| 0 <= i < ops@.len() ==> (#[trigger] ops@[i]).1 <= r.1 + r.0 - 1,
        exists|i: int| 0 <= i < ops@.len() && r.3 + r.2 - 1 == (#[trigger] ops@[i]).3,
        forall|i: int| 0 <= i < ops@.len() ==> (#[trigger] ops@[i]).3 <= r.3 + r.2 - 1,
        (r.0 as int, r.1 as int, r.2 as int, r.3 as int) == hunk_spec(ops@),
{
    let mut os = ops[0].0;
    let mut oe = ops[0].1;
    let mut ns = ops[0].2;
    let mut ne = ops[0].3;
    let mut k: usize = 1;
    while k < ops.len()
        invariant
            1 <= k <= ops@.len(),
            forall|i: int| 0 <= i < ops@.len() ==> (#[trigger] ops@[i]).0 <= ops@[i].1 && ops@[i].2 <= ops@[i].3,
            forall|i: int| 0 <= i < ops@.len() ==> (#[trigger] ops@[i]).0 < usize::MAX && ops@[i].2 < usize::MAX,
            os <= oe,
            ns <= ne,
            os < usize::MAX,
            ns < usize::MAX,
            exists|i: int| 0 <= i < k && os == (#[trigger] ops@[i]).0,
            forall|i: int| 0 <= i < k ==> os <= (#[trigger] ops@[i]).0,
            exists|i: int| 0 <= i < k && ns == (#[trigger] ops@[i]).2,
            forall|i: int| 0 <= i < k ==> ns <= (#[trigger] ops@[i]).2,
            exists|i: int| 0 <= i < k && oe == (#[trigger] ops@[i]).1,
            forall|i: int| 0 <= i < k ==> (#[trigger] ops@[i]).1 <= oe,
            exists|i: int| 0 <= i < k && ne == (#[trigger] ops@[i]).3,
            forall|i: int| 0 <= i < k ==> (#[trigger] ops@[i]).3 <= ne,
            os == old_first(ops@.take(k as int)),
            oe == old_last(ops@.take(k as int)),
            ns == new_first(ops@.take(k as int)),
            ne == new_last(ops@.take(k as int)),
        decreases ops@.len() - k,
    {
        proof {
            assert(ops@.take(k + 1).drop_last() =~= ops@.take(k as int));
        }
        let (a, b, c, d) = ops[k];
        if a < os {
            os = a;
        }
        if b > oe {
            oe = b;
        }
        if c < ns {
            ns = c;
        }
        if d > ne {
            ne = d;
        }
        k += 1;
    }
    proof {
        assert(ops@.take(ops@.len() as int) =~= ops@);
    }
    (os + 1, oe - os, ns + 1, ne - ns)
}

/// How a line of a unified diff changed.
#[derive(Debug, Clone, Copy, PartialEq, Eq, Structural)]
pub enum LineChange {
    Delete,
    Insert,
    Equal,
}

/// One hunk of a grouped line diff: its ops, each as the
/// `(old_start, old_end, new_start, new_end)` line ranges it covers, and
/// its lines, each with how it changed.
pub type DiffGroup = (Vec<(usize, usize, usize, usize)>, Vec<(LineChange, String)>);

/// The view of a hunk: its ops and its lines, each line by its text.
pub open spec fn group_view(g: DiffGroup) -> (
    Seq<(usize, usize, usize, usize)>,
    Seq<(LineChange, Seq<char>)>,
) {
    (g.0@, g.1@.map_values(|l: (LineChange, String)| (l.0, l.1@)))
}

/// What `similar` groups the line diff of `old` → `new` into, with
/// `context` unchanged lines around each change.
pub uninterp spec fn grouped_line_diff(old: Seq<char>, new: Seq<char>, context: usize) -> Seq<
    (Seq<(usize, usize, usize, usize)>, Seq<(LineChange, Seq<char>)>),
>;

/// Diffs `old` and `new` line by line with `similar::TextDiff::from_lines`,
/// groups the ops with `grouped_ops(context)` and lists each group's
/// changes with `iter_changes`. The groups are named by
/// `grouped_line_diff`; the crate's source shows that no group is empty
/// and that each op's ranges run forwards within the lines of its side,
/// of which a text has no more than it has bytes. The grouping doubles
/// `context`, so `requires` keeps it from overflowing.
#[verifier::external_body]
fn line_diff_groups(old: &str, new: &str, context: usize) -> (r: Vec<DiffGroup>)
    requires
        context <= usize::MAX / 2,
    ensures
        r@.map_values(|g: DiffGroup| group_view(g)) == grouped_line_diff(old@, new@, context),
        forall|i: int| 0 <= i < r@.len() ==> (#[trigger] r@[i]).0@.len() > 0,
        forall|i: int, k: int|
            0 <= i < r@.len() && 0 <= k < r@[i].0@.len() ==> {
                let o = #[trigger] r@[i].0@[k];
                &&& o.0 <= o.1 <= old.spec_bytes().len()
                &&& o.2 <= o.3 <= new.spec_bytes().len()
            },
{
    let diff = TextDiff::from_lines(old, new);
    let mut groups = Vec::new();
    for group in diff.grouped_ops(context) {
        let ops = group.iter().map(|op| (op.old_range().start, op.old_range().end, op.new_range().start, op.new_range().end)).collect();
        let lines = group.iter().flat_map(|op| diff.iter_changes(op)).map(|c| (match c.tag() {
            ChangeTag::Delete => LineChange::Delete,
            ChangeTag::Insert => LineChange::Insert,
            ChangeTag::Equal => LineChange::Equal,
        }, c.value().to_string())).collect();
        groups.push((ops, lines));
    }
    groups
}

/// The terminal style sequences of a diff (empty for plain text): the
/// `---` / `+++` header, the `@@` hunk line, deleted and inserted lines.
#[derive(Debug, Clone)]
pub struct DiffStyles {
    pub header_on: String,
    pub header_off: String,
    pub meta_on: String,
    pub meta_off: String,
    pub del_on: String,
    pub del_off: String,
    pub ins_on: String,
    pub ins_off: String,
}

/// `s` without one trailing `\n`.
pub open spec fn strip_newline(s: Seq<char>) -> Seq<char> {
    if s.len() > 0 && s.last() == '\n' {
        s.drop_last()
    } else {
        s
    }
}

/// One line of the diff body.
pub open spec fn change_line(c: (LineChange, Seq<char>), st: DiffStyles) -> Seq<char> {
    match c.0 {
        LineChange::Delete => st.del_on@ + "-"@ + strip_newline(c.1) + st.del_off@ + "\n"@,
        LineChange::Insert => st.ins_on@ + "+"@ + strip_newline(c.1) + st.ins_off@ + "\n"@,
        LineChange::Equal => " "@ + strip_newline(c.1) + "\n"@,
    }
}

/// The lines `cs`, one after another.
pub open spec fn change_lines(cs: Seq<(LineChange, Seq<char>)>, st: DiffStyles) -> Seq<char>
    decreases cs.len(),
{
    if cs.len() == 0 {
        seq![]
    } else {
        change_lines(cs.drop_last(), st) + change_line(cs.last(), st)
    }
}

/// One hunk: its `@@ -a,b +c,d @@` line, then its lines.
pub open spec fn hunk_text(
    g: (Seq<(usize, usize, usize, usize)>, Seq<(LineChange, Seq<char>)>),
    st: DiffStyles,
) -> Seq<char> {
    hunk_header(hunk_spec(g.0), st) + change_lines(g.1, st)
}

/// The `@@ -a,b +c,d @@` line of a hunk spanning `h`.
pub open spec fn hunk_header(h: (int, int, int, int), st: DiffStyles) -> Seq<char> {
    st.meta_on@ + "@@ -"@ + dec_digits(h.0 as nat) + ","@ + dec_digits(h.1 as nat) + " +"@
        + dec_digits(h.2 as nat) + ","@ + dec_digits(h.3 as nat) + " @@"@ + st.meta_off@ + "\n"@
}

/// The hunks `gs`, one after another.
pub open spec fn hunks_text(
    gs: Seq<(Seq<(usize, usize, usize, usize)>, Seq<(LineChange, Seq<char>)>)>,
    st: DiffStyles,
) -> Seq<char>
    decreases gs.len(),
{
    if gs.len() == 0 {
        seq![]
    } else {
        hunks_text(gs.drop_last(), st) + hunk_text(gs.last(), st)
    }
}

/// Lines of unchanged context around each change.
pub const DIFF_CONTEXT: usize = 3;

/// The unified diff of `old` → `new` under `label`.
pub open spec fn diff_text_spec(label: Seq<char>, old: Seq<char>, new: Seq<char>, st: DiffStyles) -> Seq<
    char,
> {
    st.header_on@ + "--- "@ + label + st.header_off@ + "\n"@ + st.header_on@ + "+++ "@ + label
        + st.header_off@ + "\n"@ + hunks_text(grouped_line_diff(old, new, DIFF_CONTEXT), st)
}

/// Append one diff body line.
fn push_change(out: &mut String, c: &(LineChange, String), st: &DiffStyles)
    ensures
        final(out)@ == old(out)@ + change_line((c.0, c.1@), *st),
{
    let text = c.1.as_str();
    let n = text.unicode_len();
    let line = if n > 0 && text.get_char(n - 1) == '\n' {
        text.substring_char(0, n - 1)
    } else {
        text
    };
    proof {
        assert(line@ == strip_newline(c.1@));
    }
    match c.0 {
        LineChange::Delete => {
            out.append(st.del_on.as_str());
            out.append("-");
            out.append(line);
            out.append(st.del_off.as_str());
        },
        LineChange::Insert => {
            out.append(st.ins_on.as_str());
            out.append("+");
            out.append(line);
            out.append(st.ins_off.as_str());
        },
        LineChange::Equal => {
            out.append(" ");
            out.append(line);
        },
    }
    out.append("\n");
}

/// Append the `@@` line of a hunk spanning `h`.
fn push_hunk_header(out: &mut String, h: (usize, usize, usize, usize), st: &DiffStyles)
    ensures
        final(out)@ == old(out)@ + hunk_header((h.0 as int, h.1 as int, h.2 as int, h.3 as int), *st),
{
    out.append(st.meta_on.as_str());
    out.append("@@ -");
    push_decimal(out, h.0 as u64);
    out.append(",");
    push_decimal(out, h.1 as u64);
    out.append(" +");
    push_decimal(out, h.2 as u64);
    out.append(",");
    push_decimal(out, h.3 as u64);
    out.append(" @@");
    out.append(st.meta_off.as_str());
    out.append("\n");
}

/// Append one hunk: its `@@` line, then its lines.
fn push_hunk(out: &mut String, group: &DiffGroup, st: &DiffStyles)
    requires
        group.0@.len() > 0,
        forall|k: int|
            0 <= k < group.0@.len() ==> {
                let o = #[trigger] group.0@[k];
                o.0 <= o.1 && o.2 <= o.3 && o.0 < usize::MAX && o.2 < usize::MAX
            },
    ensures
        final(out)@ == old(out)@ + hunk_text(group_view(*group), *st),
{
    let h = hunk_span(group.0.as_slice());
    push_hunk_header(out, h, st);
    let ghost lines = group_view(*group).1;
    let ghost line_head = out@;
    let mut k: usize = 0;
    proof {
        assert(lines.take(0) =~= seq![]);
    }
    while k < group.1.len()
        invariant
            k <= group.1@.len(),
            lines == group.1@.map_values(|l: (LineChange, String)| (l.0, l.1@)),
            out@ == line_head + change_lines(lines.take(k as int), *st),
        decreases group.1@.len() - k,
    {
        push_change(out, &group.1[k], st);
        proof {
            assert(lines.take(k + 1).drop_last() =~= lines.take(k as int));
        }
        k += 1;
    }
    proof {
        assert(lines.take(lines.len() as int) =~= lines);
    }
}

/// A coloured unified diff of `old` → `new` under a `label` header: the
/// `---` / `+++` lines, then for each group of changes (with three lines
/// of context) its `@@` line and its `-` / `+` / ` ` lines.
pub fn diff_text(label: &str, old: &str, new: &str, st: &DiffStyles) -> (r: String)
    requires
        old.spec_bytes().len() < usize::MAX,
        new.spec_bytes().len() < usize::MAX,
    ensures
        r@ == diff_text_spec(label@, old@, new@, *st),
{
    let mut out = String::new();
    out.append(st.header_on.as_str());
    out.append("--- ");
    out.append(label);
    out.append(st.header_off.as_str());
    out.append("\n");
    out.append(st.header_on.as_str());
    out.append("+++ ");
    out.append(label);
    out.append(st.header_off.as_str());
    out.append("\n");
    let groups = line_diff_groups(old, new, DIFF_CONTEXT);
    let ghost gs = grouped_line_diff(old@, new@, DIFF_CONTEXT);
    let ghost head = out@;
    let mut i: usize = 0;
    proof {
        assert(gs.take(0) =~= seq![]);
    }
    while i < groups.len()
        invariant
            i <= groups@.len(),
            groups@.map_values(|g: DiffGroup| group_view(g)) == gs,
            forall|j: int| 0 <= j < groups@.len() ==> (#[trigger] groups@[j]).0@.len() > 0,
            forall|j: int, k: int|
                0 <= j < groups@.len() && 0 <= k < groups@[j].0@.len() ==> {
                    let o = #[trigger] groups@[j].0@[k];
                    &&& o.0 <= o.1 <= old.spec_bytes().len()
                    &&& o.2 <= o.3 <= new.spec_bytes().len()
                },
            old.spec_bytes().len() < usize::MAX,
            new.spec_bytes().len() < usize::MAX,
            out@ == head + hunks_text(gs.take(i as int), *st),
        decreases groups@.len() - i,
    {
        let ghost before = out@;
        proof {
            assert(gs[i as int] == group_view(groups@[i as int]));
            assert forall|k: int| 0 <= k < groups@[i as int].0@.len() implies {
                let o = #[trigger] groups@[i as int].0@[k];
                o.0 <= o.1 && o.2 <= o.3 && o.0 < usize::MAX && o.2 < usize::MAX
            } by {
                let o = groups@[i as int].0@[k];
            }
        }
        push_hunk(&mut out, &groups[i], st);
        proof {
            assert(gs.take(i + 1).drop_last() =~= gs.take(i as int));
        }
        i += 1;
    }
    proof {
        assert(gs.take(gs.len() as int) =~= gs);
    }
    out
}

/// Why printing `n` formatted files to stdout is refused: only a single
/// file (or none) can go there.
pub open spec fn stdout_refusal_spec(n: nat) -> Option<Seq<char>> {
    if n <= 1 {
        None
    } else {
        Some("refusing to write "@ + dec_digits(n) + " files to stdout; use --write, --check, or --list"@)
    }
}

/// The error for printing `n` files to stdout, if it is refused.
pub fn stdout_refusal(n: usize) -> (r: Option<String>)
    ensures
        r matches Some(m) ==> stdout_refusal_spec(n as nat) == Some(m@),
        r is None <==> stdout_refusal_spec(n as nat) is None,
{
    if n <= 1 {
        return None;
    }
    let mut m = String::from_str("refusing to write ");
    push_decimal(&mut m, n as u64);
    m.append(" files to stdout; use --write, --check, or --list");
    Some(m)
}

/// One entry of the `--check --json` report.
#[derive(Debug, Clone)]
pub struct JsonFile {
    pub path: String,
    pub status: &'static str,
    pub message: Option<String>,
}

impl JsonFile {
    /// An already-formatted file.
    pub fn ok(path: String) -> (f: Self)
        ensures
            f.path == path,
            f.status@ == "ok"@,
            f.message is None,
    {
        JsonFile { path, status: "ok", message: None }
    }

    /// A file that `--check` would reformat.
    pub fn would_reformat(path: String) -> (f: Self)
        ensures
            f.path == path,
            f.status@ == "would_reformat"@,
            f.message is None,
    {
        JsonFile { path, status: "would_reformat", message: None }
    }

    /// A file that could not be read or formatted.
    pub fn error(path: String, message: String) -> (f: Self)
        ensures
            f.path == path,
            f.status@ == "error"@,
            f.message == Some(message),
    {
        JsonFile { path, status: "error", message: Some(message) }
    }
}

/// The outcome a list of discovery errors seeds a run with.
pub fn discovery_base(errors: &[String]) -> (o: Outcome)
    ensures
        o == (if errors@.len() > 0 {
            Outcome::Error
        } else {
            Outcome::Clean
        }),
{
    if errors.len() > 0 {
        Outcome::Error
    } else {
        Outcome::Clean
    }
}

} // verus!

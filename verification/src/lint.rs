//! The decisions of a `lint` run: how one input's diagnostics count into
//! the run's statistics, which outcome (and exit code) they imply, and
//! the records of the `--json` report.

use vstd::prelude::*;
use vstd::string::*;

use crate::diagnostics::{Described, Severity};
use crate::render_term::{full_form_spec, line_col, line_col_spec, quiet_line_spec, render, render_quiet, renderable};
use crate::stats::LintStats;

verus! {

/// Result of a lint run, ordered clean < findings < error.
#[derive(Debug, Clone, Copy, PartialEq, Eq, PartialOrd, Ord)]
pub enum Outcome {
    /// No findings, every input read cleanly.
    Clean,
    /// At least one finding that fails the run.
    Findings,
    /// An input could not be read, or the parser panicked.
    Error,
}

pub open spec fn rank_spec(o: Outcome) -> nat {
    match o {
        Outcome::Clean => 0,
        Outcome::Findings => 1,
        Outcome::Error => 2,
    }
}

/// The more severe of `a` and `b` (`a` on a tie).
pub open spec fn worse_spec(a: Outcome, b: Outcome) -> Outcome {
    if rank_spec(b) > rank_spec(a) {
        b
    } else {
        a
    }
}

/// Folding outcomes with `worse` keeps the most severe one whatever the
/// order the inputs come in: the combination is commutative,
/// associative and idempotent, and ranks as the larger of the two.
pub proof fn law_worse_folds_in_any_order(a: Outcome, b: Outcome, c: Outcome)
    ensures
        worse_spec(a, b) == worse_spec(b, a),
        worse_spec(worse_spec(a, b), c) == worse_spec(a, worse_spec(b, c)),
        worse_spec(a, a) == a,
        rank_spec(worse_spec(a, b)) == if rank_spec(a) >= rank_spec(b) {
            rank_spec(a)
        } else {
            rank_spec(b)
        },
{
}

impl Outcome {
    /// Position in the order clean < findings < error.
    pub fn rank(self) -> (r: u8)
        ensures
            r == rank_spec(self),
    {
        match self {
            Outcome::Clean => 0,
            Outcome::Findings => 1,
            Outcome::Error => 2,
        }
    }

    /// The more severe of two outcomes.
    pub fn worse(self, other: Outcome) -> (r: Outcome)
        ensures
            r == worse_spec(self, other),
    {
        if other.rank() > self.rank() {
            other
        } else {
            self
        }
    }

    /// Process exit code: 0 clean, 1 findings, 2 error.
    pub fn exit_code(self) -> (r: u8)
        ensures
            r == rank_spec(self),
    {
        self.rank()
    }
}

/// Which severities an input produced.
#[derive(Debug, Clone, Copy, PartialEq, Eq, Structural)]
pub struct Seen {
    pub error: bool,
    pub warning: bool,
}

impl Default for Seen {
    fn default() -> (s: Self)
        ensures
            s == (Seen { error: false, warning: false }),
    {
        Seen { error: false, warning: false }
    }
}

pub open spec fn seen_outcome(s: Seen, error_on_warning: bool) -> Outcome {
    if s.error || (s.warning && error_on_warning) {
        Outcome::Findings
    } else {
        Outcome::Clean
    }
}

impl Seen {
    /// The outcome these severities imply, given `--error-on-warning`.
    pub fn outcome(self, error_on_warning: bool) -> (r: Outcome)
        ensures
            r == seen_outcome(self, error_on_warning),
    {
        if self.error || (self.warning && error_on_warning) {
            Outcome::Findings
        } else {
            Outcome::Clean
        }
    }
}

/// Count one diagnostic's severity into `stats` and `seen`.
pub fn tally(severity: Severity, stats: &mut LintStats, seen: &mut Seen)
    requires
        old(stats).errors < usize::MAX,
        old(stats).warnings < usize::MAX,
    ensures
        *final(stats) == (match severity {
            Severity::Error => LintStats { errors: (old(stats).errors + 1) as usize, ..*old(stats) },
            Severity::Warning => LintStats {
                warnings: (old(stats).warnings + 1) as usize,
                ..*old(stats)
            },
        }),
        *final(seen) == (match severity {
            Severity::Error => Seen { error: true, ..*old(seen) },
            Severity::Warning => Seen { warning: true, ..*old(seen) },
        }),
{
    match severity {
        Severity::Error => {
            stats.errors = stats.errors + 1;
            seen.error = true;
        },
        Severity::Warning => {
            stats.warnings = stats.warnings + 1;
            seen.warning = true;
        },
    }
}

/// What became of one input.
#[derive(Debug)]
pub enum Scan {
    /// It could not be read; the reason.
    Unreadable(String),
    /// The parser panicked on it.
    Panicked,
    /// It parsed; its diagnostics.
    Parsed(Vec<Described>),
}

/// Number of diagnostics of `ds` with severity `s`.
pub open spec fn count_severity(ds: Seq<Described>, s: Severity) -> nat
    decreases ds.len(),
{
    if ds.len() == 0 {
        0
    } else {
        count_severity(ds.drop_last(), s) + (if ds.last().severity == s {
            1nat
        } else {
            0nat
        })
    }
}

/// The severities seen across `ds`.
pub open spec fn seen_in(ds: Seq<Described>) -> Seen {
    Seen {
        error: count_severity(ds, Severity::Error) > 0,
        warning: count_severity(ds, Severity::Warning) > 0,
    }
}

/// The statistics after counting one input into `s`.
pub open spec fn counted(s: LintStats, scan: Scan) -> LintStats {
    let scanned = LintStats { files_scanned: (s.files_scanned + 1) as usize, ..s };
    match scan {
        Scan::Parsed(ds) => if ds@.len() == 0 {
            LintStats { clean: (s.clean + 1) as usize, ..scanned }
        } else {
            LintStats {
                with_diagnostics: (s.with_diagnostics + 1) as usize,
                errors: (s.errors + count_severity(ds@, Severity::Error)) as usize,
                warnings: (s.warnings + count_severity(ds@, Severity::Warning)) as usize,
                ..scanned
            }
        },
        _ => LintStats { errored: (s.errored + 1) as usize, ..scanned },
    }
}

/// The outcome one input implies.
pub open spec fn scan_outcome(scan: Scan, error_on_warning: bool) -> Outcome {
    match scan {
        Scan::Parsed(ds) => if ds@.len() == 0 {
            Outcome::Clean
        } else {
            seen_outcome(seen_in(ds@), error_on_warning)
        },
        _ => Outcome::Error,
    }
}

/// None of the counters can overflow while counting `scan`.
pub open spec fn room_for(s: LintStats, scan: Scan) -> bool {
    &&& s.files_scanned < usize::MAX
    &&& s.clean < usize::MAX
    &&& s.errored < usize::MAX
    &&& s.with_diagnostics < usize::MAX
    &&& (scan matches Scan::Parsed(ds) ==> s.errors + ds@.len() <= usize::MAX && s.warnings
        + ds@.len() <= usize::MAX)
}

proof fn lemma_count_severity_bound(ds: Seq<Described>, s: Severity)
    ensures
        count_severity(ds, s) <= ds.len(),
    decreases ds.len(),
{
    if ds.len() > 0 {
        lemma_count_severity_bound(ds.drop_last(), s);
    }
}

/// Count one input into `stats` and return the outcome it implies.
pub fn lint_one(scan: &Scan, error_on_warning: bool, stats: &mut LintStats) -> (o: Outcome)
    requires
        room_for(*old(stats), *scan),
    ensures
        *final(stats) == counted(*old(stats), *scan),
        o == scan_outcome(*scan, error_on_warning),
{
    stats.files_scanned = stats.files_scanned + 1;
    match scan {
        Scan::Unreadable(_) | Scan::Panicked => {
            stats.errored = stats.errored + 1;
            Outcome::Error
        },
        Scan::Parsed(diags) => {
            if diags.len() == 0 {
                stats.clean = stats.clean + 1;
                return Outcome::Clean;
            }
            stats.with_diagnostics = stats.with_diagnostics + 1;
            let ghost base = *stats;
            let mut seen = Seen::default();
            let mut i: usize = 0;
            while i < diags.len()
                invariant
                    i <= diags@.len(),
                    base.errors + diags@.len() <= usize::MAX,
                    base.warnings + diags@.len() <= usize::MAX,
                    *stats == (LintStats {
                        errors: (base.errors + count_severity(
                            diags@.take(i as int),
                            Severity::Error,
                        )) as usize,
                        warnings: (base.warnings + count_severity(
                            diags@.take(i as int),
                            Severity::Warning,
                        )) as usize,
                        ..base
                    }),
                    seen == seen_in(diags@.take(i as int)),
                decreases diags@.len() - i,
            {
                proof {
                    assert(diags@.take(i + 1).drop_last() =~= diags@.take(i as int));
                    lemma_count_severity_bound(diags@.take(i as int), Severity::Error);
                    lemma_count_severity_bound(diags@.take(i as int), Severity::Warning);
                }
                tally(diags[i].severity, stats, &mut seen);
                i += 1;
            }
            proof {
                assert(diags@.take(diags@.len() as int) =~= diags@);
            }
            seen.outcome(error_on_warning)
        },
    }
}

/// Byte span of a diagnostic in the JSON report.
#[derive(Debug, Clone, Copy, PartialEq, Eq, Structural)]
pub struct JsonSpan {
    pub byte_start: u32,
    pub byte_end: u32,
}

/// 1-based line and column in the JSON report.
#[derive(Debug, Clone, Copy, PartialEq, Eq, Structural)]
pub struct JsonPos {
    pub line: usize,
    pub column: usize,
}

/// One diagnostic of the JSON report.
#[derive(Debug, Clone)]
pub struct JsonDiag {
    pub code: &'static str,
    pub severity: Severity,
    pub message: String,
    pub span: JsonSpan,
    pub start: JsonPos,
    pub end: JsonPos,
}

/// One input of the JSON report.
#[derive(Debug)]
pub struct JsonFile {
    pub path: String,
    pub status: &'static str,
    pub message: Option<String>,
    pub diagnostics: Vec<JsonDiag>,
}

/// `p` is the JSON position of byte `byte` of `b`.
pub open spec fn pos_at(p: JsonPos, b: Seq<u8>, byte: int) -> bool {
    (p.line as int, p.column as int) == line_col_spec(b, byte)
}

/// `j` reports `d`, with positions within `b`.
pub open spec fn json_diag_as(j: JsonDiag, b: Seq<u8>, d: Described) -> bool {
    &&& j.code == d.code
    &&& j.severity == d.severity
    &&& j.message@ == d.message@
    &&& j.span == JsonSpan { byte_start: d.span.start, byte_end: d.span.end }
    &&& pos_at(j.start, b, d.span.start as int)
    &&& pos_at(j.end, b, d.span.end as int)
}

/// The report of one diagnostic of `content`.
pub fn json_diag(content: &str, diag: &Described) -> (j: JsonDiag)
    requires
        content.spec_bytes().len() < usize::MAX,
    ensures
        json_diag_as(j, content.spec_bytes(), *diag),
{
    let (start_line, start_col) = line_col(content, diag.span.start as usize);
    let (end_line, end_col) = line_col(content, diag.span.end as usize);
    JsonDiag {
        code: diag.code,
        severity: diag.severity,
        message: diag.message.clone(),
        span: JsonSpan { byte_start: diag.span.start, byte_end: diag.span.end },
        start: JsonPos { line: start_line, column: start_col },
        end: JsonPos { line: end_line, column: end_col },
    }
}

/// `f` is the report entry of input `label` with content `b`.
pub open spec fn json_file_as(f: JsonFile, label: Seq<char>, b: Seq<u8>, scan: Scan) -> bool {
    &&& f.path@ == label
    &&& match scan {
        Scan::Unreadable(m) => {
            &&& f.status@ == "error"@
            &&& f.message matches Some(x) && x@ == m@
            &&& f.diagnostics@.len() == 0
        },
        Scan::Panicked => {
            &&& f.status@ == "error"@
            &&& f.message matches Some(x) && x@ == "the parser panicked"@
            &&& f.diagnostics@.len() == 0
        },
        Scan::Parsed(ds) => if ds@.len() == 0 {
            &&& f.status@ == "ok"@
            &&& f.message is None
            &&& f.diagnostics@.len() == 0
        } else {
            &&& f.status@ == "diagnostics"@
            &&& f.message is None
            &&& f.diagnostics@.len() == ds@.len()
            &&& forall|i: int|
                0 <= i < ds@.len() ==> json_diag_as(#[trigger] f.diagnostics@[i], b, ds@[i])
        },
    }
}

/// Count one input into `stats`, append its report entry to `files`,
/// and return the outcome it implies.
pub fn json_one(
    label: &str,
    content: &str,
    scan: &Scan,
    error_on_warning: bool,
    stats: &mut LintStats,
    files: &mut Vec<JsonFile>,
) -> (o: Outcome)
    requires
        room_for(*old(stats), *scan),
        content.spec_bytes().len() < usize::MAX,
    ensures
        *final(stats) == counted(*old(stats), *scan),
        o == scan_outcome(*scan, error_on_warning),
        final(files)@.len() == old(files)@.len() + 1,
        final(files)@.take(old(files)@.len() as int) == old(files)@,
        json_file_as(final(files)@.last(), label@, content.spec_bytes(), *scan),
{
    let outcome = lint_one(scan, error_on_warning, stats);
    let path = String::from_str(label);
    let entry = match scan {
        Scan::Unreadable(msg) => JsonFile {
            path,
            status: "error",
            message: Some(msg.clone()),
            diagnostics: Vec::new(),
        },
        Scan::Panicked => JsonFile {
            path,
            status: "error",
            message: Some(String::from_str("the parser panicked")),
            diagnostics: Vec::new(),
        },
        Scan::Parsed(diags) => {
            if diags.len() == 0 {
                JsonFile { path, status: "ok", message: None, diagnostics: Vec::new() }
            } else {
                let mut out: Vec<JsonDiag> = Vec::new();
                let mut i: usize = 0;
                while i < diags.len()
                    invariant
                        content.spec_bytes().len() < usize::MAX,
                        i <= diags@.len(),
                        out@.len() == i,
                        forall|k: int|
                            0 <= k < i ==> json_diag_as(
                                #[trigger] out@[k],
                                content.spec_bytes(),
                                diags@[k],
                            ),
                    decreases diags@.len() - i,
                {
                    out.push(json_diag(content, &diags[i]));
                    i += 1;
                }
                JsonFile { path, status: "diagnostics", message: None, diagnostics: out }
            }
        },
    };
    files.push(entry);
    proof {
        assert(files@.take(old(files)@.len() as int) =~= old(files)@);
    }
    outcome
}

/// How one diagnostic of a human-readable lint run reads: the one-line
/// form under `--quiet`, else the annotated snippet.
pub open spec fn diag_text(label: Seq<char>, source: &str, d: Described, quiet: bool) -> Seq<char> {
    if quiet {
        quiet_line_spec(label, source.spec_bytes(), d)
    } else {
        full_form_spec(label, source, d)
    }
}

/// The texts of `ds`, one after another.
pub open spec fn diags_text(label: Seq<char>, source: &str, ds: Seq<Described>, quiet: bool) -> Seq<
    char,
>
    decreases ds.len(),
{
    if ds.len() == 0 {
        seq![]
    } else {
        diags_text(label, source, ds.drop_last(), quiet) + diag_text(label, source, ds.last(), quiet)
    }
}

/// Render every diagnostic of one input for the terminal, in order.
pub fn render_diagnostics(label: &str, source: &str, diags: &[Described], quiet: bool) -> (r: String)
    requires
        source.spec_bytes().len() < usize::MAX,
        !quiet ==> forall|i: int| 0 <= i < diags@.len() ==> renderable(source, #[trigger] diags@[i]),
    ensures
        r@ == diags_text(label@, source, diags@, quiet),
{
    let mut out = String::new();
    let mut i: usize = 0;
    proof {
        assert(diags@.take(0) =~= seq![]);
    }
    while i < diags.len()
        invariant
            i <= diags@.len(),
            source.spec_bytes().len() < usize::MAX,
            !quiet ==> forall|k: int| 0 <= k < diags@.len() ==> renderable(source, #[trigger] diags@[k]),
            out@ == diags_text(label@, source, diags@.take(i as int), quiet),
        decreases diags@.len() - i,
    {
        let piece = if quiet {
            render_quiet(label, source, &diags[i])
        } else {
            render(label, source, &diags[i])
        };
        out.append(piece.as_str());
        proof {
            assert(diags@.take(i + 1).drop_last() =~= diags@.take(i as int));
        }
        i += 1;
    }
    proof {
        assert(diags@.take(diags@.len() as int) =~= diags@);
    }
    out
}

} // verus!

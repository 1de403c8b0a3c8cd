//! Run summaries for `lint --stats`: the counts a run accumulates and
//! the one-line human summary. The elapsed time arrives already
//! rendered (`38ms`, `1.4s`), so the summary is a pure function of the
//! counts.

use vstd::prelude::*;
use vstd::string::*;

use crate::text_fmt::{dec_digits, push_decimal};

verus! {

/// Accumulated counts for a `lint` run.
#[derive(Debug, Clone, Copy, PartialEq, Eq, Structural)]
pub struct LintStats {
    /// Inputs processed (post-discovery).
    pub files_scanned: usize,
    /// Inputs with no diagnostics.
    pub clean: usize,
    /// Inputs with at least one diagnostic.
    pub with_diagnostics: usize,
    /// Inputs that could not be read.
    pub errored: usize,
    /// Error-severity diagnostics across all inputs.
    pub errors: usize,
    /// Warning-severity diagnostics across all inputs.
    pub warnings: usize,
}

impl Default for LintStats {
    fn default() -> (s: Self)
        ensures
            s == (LintStats {
                files_scanned: 0,
                clean: 0,
                with_diagnostics: 0,
                errored: 0,
                errors: 0,
                warnings: 0,
            }),
    {
        LintStats { files_scanned: 0, clean: 0, with_diagnostics: 0, errored: 0, errors: 0, warnings: 0 }
    }
}

/// The `stats` object of `lint --json` output.
#[derive(Debug, Clone, Copy, PartialEq, Eq, Structural)]
pub struct LintStatsJson {
    pub files_scanned: usize,
    pub clean: usize,
    pub with_diagnostics: usize,
    pub errored: usize,
    pub errors: usize,
    pub warnings: usize,
    pub elapsed_ms: u128,
}

/// `""` for one, `"s"` otherwise.
pub open spec fn plural_spec(n: nat) -> Seq<char> {
    if n == 1 {
        ""@
    } else {
        "s"@
    }
}

/// `""` for one, `"s"` otherwise, for naive English pluralisation.
pub fn plural(n: usize) -> (r: &'static str)
    ensures
        r@ == plural_spec(n as nat),
{
    if n == 1 {
        ""
    } else {
        "s"
    }
}

/// The one-line human summary of `s` for a run that took `elapsed`.
pub open spec fn summary_spec(s: LintStats, elapsed: Seq<char>) -> Seq<char> {
    "aozora: scanned "@ + dec_digits(s.files_scanned as nat) + " file"@ + plural_spec(
        s.files_scanned as nat,
    ) + " in "@ + elapsed + " — "@ + dec_digits(s.clean as nat) + " clean, "@ + dec_digits(
        s.with_diagnostics as nat,
    ) + " with diagnostics, "@ + dec_digits(s.errored as nat) + " errored ("@ + dec_digits(
        s.errors as nat,
    ) + " error"@ + plural_spec(s.errors as nat) + ", "@ + dec_digits(s.warnings as nat)
        + " warning"@ + plural_spec(s.warnings as nat) + ")"@
}

impl LintStats {
    /// The one-line human summary printed to stderr; `elapsed` is the
    /// run time as rendered for humans (`38ms`, `1.4s`).
    pub fn summary(&self, elapsed: &str) -> (r: String)
        ensures
            r@ == summary_spec(*self, elapsed@),
    {
        let mut out = String::from_str("aozora: scanned ");
        push_decimal(&mut out, self.files_scanned as u64);
        out.append(" file");
        out.append(plural(self.files_scanned));
        out.append(" in ");
        out.append(elapsed);
        out.append(" — ");
        push_decimal(&mut out, self.clean as u64);
        out.append(" clean, ");
        push_decimal(&mut out, self.with_diagnostics as u64);
        out.append(" with diagnostics, ");
        push_decimal(&mut out, self.errored as u64);
        out.append(" errored (");
        push_decimal(&mut out, self.errors as u64);
        out.append(" error");
        out.append(plural(self.errors));
        out.append(", ");
        push_decimal(&mut out, self.warnings as u64);
        out.append(" warning");
        out.append(plural(self.warnings));
        out.append(")");
        out
    }

    /// The machine-readable form for `--json`.
    pub fn to_json(self, elapsed_ms: u128) -> (j: LintStatsJson)
        ensures
            j == (LintStatsJson {
                files_scanned: self.files_scanned,
                clean: self.clean,
                with_diagnostics: self.with_diagnostics,
                errored: self.errored,
                errors: self.errors,
                warnings: self.warnings,
                elapsed_ms,
            }),
    {
        LintStatsJson {
            files_scanned: self.files_scanned,
            clean: self.clean,
            with_diagnostics: self.with_diagnostics,
            errored: self.errored,
            errors: self.errors,
            warnings: self.warnings,
            elapsed_ms,
        }
    }
}

} // verus!

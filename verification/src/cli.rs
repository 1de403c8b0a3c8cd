//! The `aozora` command tree as plain values: the subcommands and their
//! arguments, and how the formatter's flags select its mode of operation.
//! Parsing argv into these values is the front end's job.

use vstd::prelude::*;

verus! {

/// When to colourise output.
#[derive(Debug, Clone, Copy, PartialEq, Eq, Structural)]
pub enum ColorChoice {
    /// Colour when the stream is a terminal.
    Auto,
    /// Always colour.
    Always,
    /// Never colour.
    Never,
}

/// How `--check` reports a file that would change.
#[derive(Debug, Clone, Copy, PartialEq, Eq, Structural)]
pub enum CheckReport {
    /// One line per file on stderr.
    Plain,
    /// A unified diff on stdout.
    Diff,
    /// One JSON document on stdout.
    Json,
}

/// What the formatter does with each input.
#[derive(Debug, Clone, Copy, PartialEq, Eq, Structural)]
pub enum Mode {
    /// Print the canonical form of the single input.
    Stdout,
    /// Rewrite files in place, listing the changed ones when `list`.
    Write { list: bool },
    /// List the inputs that would change.
    List,
    /// Report the inputs that would change and exit 1.
    Check(CheckReport),
}

/// `aozora fmt` — the formatter's arguments.
#[derive(Debug, Clone)]
pub struct FmtArgs {
    /// Files or directories; `-`, or none, reads stdin.
    pub paths: Vec<String>,
    /// `--write` / `-w`: rewrite files in place.
    pub write: bool,
    /// `--check`: report files that would change.
    pub check: bool,
    /// `--list` / `-l`: list files that would change.
    pub list: bool,
    /// `--diff`: print a unified diff (implies `--check`).
    pub diff: bool,
    /// `--json`: with `--check`, report as JSON.
    pub json: bool,
    /// `--color`.
    pub color: ColorChoice,
}

/// The mode the formatter's flags select: `--write` first (listing too
/// under `--list`), then `--check` (or `--diff`, which implies it) with
/// its report style, then `--list`, else the canonical form to stdout.
pub open spec fn mode_of(write: bool, check: bool, list: bool, diff: bool, json: bool) -> Mode {
    if write {
        Mode::Write { list }
    } else if check || diff {
        if json {
            Mode::Check(CheckReport::Json)
        } else if diff {
            Mode::Check(CheckReport::Diff)
        } else {
            Mode::Check(CheckReport::Plain)
        }
    } else if list {
        Mode::List
    } else {
        Mode::Stdout
    }
}

impl FmtArgs {
    /// The mode of operation the flags select.
    pub fn mode(&self) -> (m: Mode)
        ensures
            m == mode_of(self.write, self.check, self.list, self.diff, self.json),
    {
        if self.write {
            Mode::Write { list: self.list }
        } else if self.check || self.diff {
            if self.json {
                Mode::Check(CheckReport::Json)
            } else if self.diff {
                Mode::Check(CheckReport::Diff)
            } else {
                Mode::Check(CheckReport::Plain)
            }
        } else if self.list {
            Mode::List
        } else {
            Mode::Stdout
        }
    }

    /// The path arguments.
    pub fn paths(&self) -> (r: &Vec<String>)
        ensures
            r@ == self.paths@,
    {
        &self.paths
    }

    /// The colour policy.
    pub fn color(&self) -> (r: ColorChoice)
        ensures
            r == self.color,
    {
        self.color
    }
}

/// The `aozora` command line: which tool to run.
#[derive(Debug, Clone)]
pub struct Cli {
    /// Which tool to run.
    pub command: Command,
}

/// The `aozora` subcommands.
#[derive(Debug, Clone)]
pub enum Command {
    /// Format aozora documents.
    Fmt(FmtArgs),
    /// Lint aozora documents (alias `check`).
    Lint(LintArgs),
    /// Render a document to HTML.
    Render(RenderArgs),
    /// Explain a diagnostic code.
    Explain(ExplainArgs),
    /// Run the language server over stdio.
    Lsp(LspArgs),
    /// Print a shell completion script.
    Completions(CompletionsArgs),
    /// Print a man page.
    Man(ManArgs),
}

/// `aozora lint` — report diagnostics in the terminal.
#[derive(Debug, Clone)]
pub struct LintArgs {
    /// Files or directories to lint; `-`, or none, reads stdin.
    pub paths: Vec<String>,
    /// Emit machine-readable JSON.
    pub json: bool,
    /// One terse line per diagnostic.
    pub quiet: bool,
    /// Treat warnings as errors for the exit code.
    pub error_on_warning: bool,
    /// Re-run on every file change.
    pub watch: bool,
    /// Print a one-line summary to stderr.
    pub stats: bool,
    /// When to colourise output.
    pub color: ColorChoice,
}

/// `aozora render` — render a document to HTML.
#[derive(Debug, Clone)]
pub struct RenderArgs {
    /// The file to render; `-`, or none, reads stdin.
    pub path: Option<String>,
    /// Write HTML to this file instead of stdout.
    pub output: Option<String>,
    /// Wrap the fragment in a standalone HTML5 document.
    pub standalone: bool,
    /// Open the result in the default browser (implies `standalone`).
    pub open: bool,
    /// Print render stats to stderr.
    pub stats: bool,
    /// When to colourise error output.
    pub color: ColorChoice,
}

impl RenderArgs {
    /// Whether the output is a standalone document: `--standalone`, or
    /// `--open`, which implies it.
    pub fn wants_standalone(&self) -> (r: bool)
        ensures
            r == (self.standalone || self.open),
    {
        self.standalone || self.open
    }
}

/// `aozora explain` — explain a diagnostic code.
#[derive(Debug, Clone)]
pub struct ExplainArgs {
    /// The code (with or without the `aozora::` prefix); none lists all.
    pub code: Option<String>,
    /// When to colourise output.
    pub color: ColorChoice,
}

/// `aozora lsp` — run the language server.
#[derive(Debug, Clone, Copy)]
pub struct LspArgs {
    /// Accepted for editor compatibility; the server always speaks stdio.
    pub stdio: bool,
}

/// `aozora completions` — print a shell completion script.
#[derive(Debug, Clone, Copy)]
pub struct CompletionsArgs {
    /// The shell to generate a script for.
    pub shell: CompletionShell,
}

/// Shells `aozora completions` can target.
#[derive(Debug, Clone, Copy, PartialEq, Eq, Structural)]
pub enum CompletionShell {
    /// Bash.
    Bash,
    /// Zsh.
    Zsh,
    /// Fish.
    Fish,
    /// PowerShell.
    Powershell,
    /// Nushell.
    Nushell,
}

/// `aozora man` — print a man page.
#[derive(Debug, Clone)]
pub struct ManArgs {
    /// The subcommand whose page to render; none for the top-level page.
    pub command: Option<String>,
}

} // verus!

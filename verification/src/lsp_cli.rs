//! The `aozora-lsp` daemon's command line as a plain value. The server
//! only ever speaks LSP over stdio; `--stdio` is accepted for editors.

use vstd::prelude::*;

verus! {

/// `aozora-lsp` — Language Server for aozora-flavored-markdown.
#[derive(Debug, Clone, Copy)]
pub struct Cli {
    /// Speak LSP over stdio; the only transport, so the flag is a no-op.
    pub stdio: bool,
}

} // verus!

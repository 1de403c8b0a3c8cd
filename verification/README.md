# aozora_tools

Authoring tools for aozora-bunko notation (青空文庫記法): a formatter, a
linter with `explain`, an HTML renderer, and a language server.

- `src/` is the library, written in Verus: its functions are verified,
  the public ones against contracts stating what they return. The
  exception is the small set of trusted wrappers around outside crates
  (marked `#[verifier::external_body]`), whose contracts are believed,
  not proved. It holds the text splicing and LSP
  coordinate arithmetic, the diagnostic catalogue and its descriptions,
  the formatter's and linter's decisions and reports, completion, hover,
  folding, symbols, linked editing, code actions, paragraph and segment
  cutting, the document edit log, and the tree-sitter syntax tree kept in
  step with the text by incremental reparses, with the gaiji spans read
  off it. Calls into the `aozora` parser, `aozora-encoding`,
  `tree-sitter`, `annotate-snippets` and `similar` stand behind those
  wrappers.
- `app/` is the `aozora` binary around the library: argument parsing
  (clap), file and terminal I/O, the `--watch` loop, and the tower-lsp
  transport with its per-document snapshots.
- `tests/` exercises the library on concrete inputs.

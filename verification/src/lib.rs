//! Verified core of the aozora authoring tools: text splicing, LSP
//! coordinate conversion, editor affordances, the diagnostic catalogue,
//! and the command-line reporting logic.
#![allow(unused_imports)]

pub mod utf8_bytes;
pub mod chars;
pub mod scan;

pub mod text_edit;
pub mod lines;
pub mod position;
pub mod line_index;
pub mod text_fmt;
pub mod diagnostics;
pub mod explain;
pub mod stats;
pub mod render_term;
pub mod lint;
pub mod render;
pub mod fmt;
pub mod on_type_formatting;
pub mod linked_editing;
pub mod completion;
pub mod half_width_emmet;
pub mod structured_snippets;
pub mod folding_range;
pub mod cli;
pub mod lsp_cli;
pub mod watch;
pub mod gaiji_spans;
pub mod hover;
pub mod document_symbol;
pub mod paragraph;
pub mod segmented_doc;
pub mod parse_cache;
pub mod segment_cache;
pub mod discover;
pub mod commands;
pub mod formatting;
pub mod lsp_diagnostics;
pub mod code_actions;
pub mod incremental;
pub mod inlay_hints;
pub mod doc_state;
pub mod lsp_sync;
pub mod metrics;

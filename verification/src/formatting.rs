//! `textDocument/formatting`: one whole-document replacement when the
//! canonical form differs from the buffer, no edit otherwise.

use vstd::prelude::*;
use vstd::string::*;

use crate::diagnostics::lexer_room;
use crate::fmt::{format_source, formatted};
use crate::position::{byte_offset_to_position, position_at, Position, Range, TextEdit};
use crate::utf8_bytes::{at_boundary, str_eq};

verus! {

/// The edits that canonicalise `source`.
pub fn format_edits(source: &str) -> (r: Vec<TextEdit>)
    requires
        lexer_room(source.spec_bytes().len()),
    ensures
        formatted(source@) == source@ ==> r@.len() == 0,
        formatted(source@) != source@ ==> r@.len() == 1 && r@[0].new_text@ == formatted(source@)
            && r@[0].range == (Range {
            start: Position { line: 0, character: 0 },
            end: position_at(source.spec_bytes(), source.spec_bytes().len() as int),
        }),
{
    let canonical = format_source(source);
    if str_eq(canonical.as_str(), source) {
        return Vec::new();
    }
    let end = byte_offset_to_position(source, source.as_bytes().len());
    vec![TextEdit { range: Range::new(Position::new(0, 0), end), new_text: canonical }]
}

} // verus!

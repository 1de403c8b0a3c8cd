//! `workspace/executeCommand`: canonicalising a slug. The selected text
//! (with or without its `［＃`…`］`) is trimmed, snapped to its canonical
//! form through the slug table, and replaced — keeping the brackets when
//! the selection had them — unless it is canonical already or unknown.

use vstd::prelude::*;
use vstd::string::*;

use crate::chars::{chars_of, starts_with, trim_chars, trim_spec};
use crate::position::{Range, TextEdit};
use crate::utf8_bytes::str_eq;

verus! {

/// The command identifier exchanged with the editor.
pub const COMMAND_CANONICALIZE_SLUG: &'static str = "aozora.canonicalizeSlug";

/// `［＃`
pub open spec fn slug_open() -> Seq<char> {
    seq!['［', '＃']
}

/// `s` without a surrounding `［＃`…`］`: stripped only when both are
/// there.
pub open spec fn strip_brackets_spec(s: Seq<char>) -> Seq<char> {
    if starts_with(s, slug_open()) && s.len() >= 3 && s.last() == '］' {
        s.subrange(2, s.len() - 1)
    } else {
        s
    }
}

/// Strip a surrounding `［＃`…`］`.
pub fn strip_brackets(s: &str) -> (r: &str)
    ensures
        r@ == strip_brackets_spec(s@),
{
    let cs = chars_of(s);
    let n = cs.len();
    if n >= 3 && cs[0] == '［' && cs[1] == '＃' && cs[n - 1] == '］' {
        proof {
            assert(s@.subrange(0, 2) =~= slug_open());
        }
        s.substring_char(2, n - 1)
    } else {
        proof {
            if starts_with(s@, slug_open()) && s@.len() >= 3 {
                assert(s@.subrange(0, 2)[0] == s@[0]);
                assert(s@.subrange(0, 2)[1] == s@[1]);
            }
        }
        s
    }
}

/// The canonical form the slug table gives `input`, if it knows it.
pub uninterp spec fn canonical_slug(input: Seq<char>) -> Option<Seq<char>>;

/// `aozora::canonicalise_slug`: a canonical slug maps to itself, a known
/// variant to its canonical form, anything else to nothing — a lookup in
/// the crate's slug tables, a function of `input` alone.
#[verifier::external_body]
fn canonicalise(input: &str) -> (r: Option<&'static str>)
    ensures
        match (r, canonical_slug(input@)) {
            (Some(c), Some(t)) => c@ == t,
            (None, None) => true,
            _ => false,
        },
{
    aozora::canonicalise_slug(input)
}

/// A set of edits keyed by document.
#[derive(Debug, Clone)]
pub struct WorkspaceEdit {
    /// For each document, its edits.
    pub changes: Vec<(String, Vec<TextEdit>)>,
}

/// The replacement text, if the selection is to change: the canonical
/// form of its trimmed, unbracketed body, bracketed again when the
/// trimmed selection began with `［＃`; nothing when the body is unknown
/// or canonical already.
pub open spec fn canonicalized_spec(body: Seq<char>) -> Option<Seq<char>> {
    let trimmed = strip_brackets_spec(trim_spec(body));
    match canonical_slug(trimmed) {
        None => None,
        Some(c) => if c == trimmed {
            None
        } else if starts_with(trim_spec(body), slug_open()) {
            Some(slug_open() + c + seq!['］'])
        } else {
            Some(c)
        },
    }
}

/// The edit that canonicalises the slug in `body_text`, the text of
/// `range` in the document `uri`.
pub fn canonicalize_slug_edit(uri: String, range: Range, body_text: &str) -> (r: Option<WorkspaceEdit>)
    ensures
        match (r, canonicalized_spec(body_text@)) {
            (None, None) => true,
            (Some(w), Some(t)) => w.changes@.len() == 1 && w.changes@[0].0@ == uri@
                && w.changes@[0].1@.len() == 1 && w.changes@[0].1@[0].range == range
                && w.changes@[0].1@[0].new_text@ == t,
            _ => false,
        },
{
    let body = trim_chars(body_text);
    let trimmed = strip_brackets(body);
    let canonical = match canonicalise(trimmed) {
        Some(c) => c,
        None => {
            return None;
        },
    };
    if str_eq(canonical, trimmed) {
        return None;
    }
    let bc = chars_of(body);
    let bracketed = bc.len() >= 2 && bc[0] == '［' && bc[1] == '＃';
    proof {
        if bc@.len() >= 2 {
            assert(bracketed == (body@.subrange(0, 2) =~= slug_open()));
        }
    }
    let new_text = if bracketed {
        let mut t = String::from_str("［＃");
        t.append(canonical);
        t.append("］");
        proof {
            reveal_strlit("［＃");
            reveal_strlit("］");
            assert(t@ =~= slug_open() + canonical@ + seq!['］']);
        }
        t
    } else {
        String::from_str(canonical)
    };
    let edits = vec![TextEdit { range, new_text }];
    let changes = vec![(uri, edits)];
    Some(WorkspaceEdit { changes })
}

} // verus!

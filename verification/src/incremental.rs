//! A tree-sitter syntax tree kept in step with a document's text.
//!
//! The document owns a parser set to the aozora grammar, the text it last
//! saw, and its tree. A whole-text parse replaces the tree; an edit that
//! describes the change from the old text to the new one reparses with
//! the edited old tree, which tree-sitter reuses where it can. A
//! whole-text parse gives the grammar's tree of the text; an incremental
//! reparse gives the tree tree-sitter makes of the new text from the old
//! tree and the edit. Readers get the tree as a flat list of plain node
//! records in document order.

use vstd::prelude::*;
use vstd::string::*;
use vstd::utf8::encode_utf8;

use tree_sitter::{Parser, Tree};

use crate::doc_state::InputEdit;

verus! {

#[verifier::external_type_specification]
#[verifier::external_body]
pub struct ExTree(tree_sitter::Tree);

#[verifier::external_type_specification]
#[verifier::external_body]
pub struct ExParser(tree_sitter::Parser);

/// One node of a syntax tree, as plain values.
#[derive(Debug, Clone, Copy, PartialEq, Eq)]
pub struct NodeInfo {
    /// The grammar's numeric id for the node's kind.
    pub kind_id: u16,
    /// Whether the node is a named node (not an anonymous token).
    pub named: bool,
    /// Byte offset where the node starts.
    pub start_byte: usize,
    /// Byte offset just past the node.
    pub end_byte: usize,
    /// Distance from the root, which has depth 0.
    pub depth: u32,
}

/// The nodes, in document order, of the tree the aozora grammar gives
/// `text`.
pub uninterp spec fn ts_nodes(text: Seq<char>) -> Seq<NodeInfo>;

/// The nodes a syntax tree holds, in document order.
pub uninterp spec fn tree_nodes(tree: Tree) -> Seq<NodeInfo>;

/// The nodes of the tree tree-sitter makes of `new_text` from the old
/// tree `old` and the edit `e` (`Tree::edit`, then `Parser::parse` with
/// the edited tree).
pub uninterp spec fn ts_reparsed(old: Tree, new_text: Seq<char>, e: InputEdit) -> Seq<NodeInfo>;

/// The aozora grammar's numeric id for the named node kind `name`.
pub uninterp spec fn ts_kind_id(name: Seq<char>) -> u16;

/// A parser set to the aozora grammar: `Parser::new` followed by
/// `Parser::set_language` with the bundled `tree_sitter_aozora::LANGUAGE`.
/// Nothing is claimed of the parser. Setting the language fails only when
/// the bundled grammar and the linked runtime disagree on their ABI, which
/// the build fixes once and for all.
#[verifier::external_body]
fn ts_parser() -> (parser: Parser) {
    let mut parser = Parser::new();
    parser.set_language(&tree_sitter_aozora::LANGUAGE.into()).expect("aozora grammar matches the runtime");
    parser
}

/// `Parser::parse` of `text` with no old tree. Claimed: the tree holds
/// the nodes the grammar gives `text`. `parse` returns no tree only for a
/// parser without a language, and every parser here comes from
/// `ts_parser`.
#[verifier::external_body]
fn ts_parse(parser: &mut Parser, text: &str) -> (tree: Tree)
    ensures
        tree_nodes(tree) == ts_nodes(text@),
{
    parser.parse(text, None).expect("a parser with a language returns a tree")
}

/// `Tree::edit` with `edit` (row/column points left at zero), then
/// `Parser::parse` of `new_text` with the edited tree as the old tree.
/// Claimed: the result holds the nodes tree-sitter makes from the old
/// tree, the new text and the edit (`ts_reparsed`); the grammar is fixed,
/// and parsing depends on nothing else. How those nodes compare with a
/// fresh parse of `new_text` is not claimed: tree-sitter documents the
/// old tree only as something the parser may reuse.
#[verifier::external_body]
fn ts_reparse(parser: &mut Parser, tree: Tree, new_text: &str, edit: InputEdit) -> (r: Tree)
    ensures
        tree_nodes(r) == ts_reparsed(tree, new_text@, edit),
{
    let mut tree = tree;
    let zero = tree_sitter::Point::default();
    tree.edit(&tree_sitter::InputEdit {
        start_byte: edit.start_byte,
        old_end_byte: edit.old_end_byte,
        new_end_byte: edit.new_end_byte,
        start_position: zero,
        old_end_position: zero,
        new_end_position: zero,
    });
    parser.parse(new_text, Some(&tree)).expect("a parser with a language returns a tree")
}

/// The nodes of `tree` in document order: for each descendant index of
/// the root (`Node::descendant_count`, `TreeCursor::goto_descendant`),
/// the node's kind id, whether it is named, its byte range and the
/// cursor's depth. Claimed: the list is the tree's nodes.
#[verifier::external_body]
fn ts_node_list(tree: &Tree) -> (nodes: Vec<NodeInfo>)
    ensures
        nodes@ == tree_nodes(*tree),
{
    let mut cursor = tree.walk();
    (0..tree.root_node().descendant_count()).map(|i| {
        cursor.goto_descendant(i);
        let node = cursor.node();
        NodeInfo {
            kind_id: node.kind_id(),
            named: node.is_named(),
            start_byte: node.start_byte(),
            end_byte: node.end_byte(),
            depth: cursor.depth(),
        }
    }).collect()
}

/// `Language::id_for_node_kind` of the aozora grammar for the named kind
/// `name`. Claimed: the id is the grammar's id for that kind.
#[verifier::external_body]
fn ts_kind(name: &str) -> (id: u16)
    ensures
        id == ts_kind_id(name@),
{
    tree_sitter::Language::new(tree_sitter_aozora::LANGUAGE).id_for_node_kind(name, true)
}

/// The grammar's id for the named node kind `name` (0 for a name the
/// grammar does not know).
pub fn node_kind_id(name: &str) -> (id: u16)
    ensures
        id == ts_kind_id(name@),
{
    ts_kind(name)
}

/// `edit` describes the change from `old` to `new`: the bytes before
/// `start_byte` and those from the old and new ends on are the same in
/// both, and the offsets fit both texts.
pub open spec fn edit_describes(old: Seq<u8>, new: Seq<u8>, e: InputEdit) -> bool {
    &&& e.start_byte <= e.old_end_byte <= old.len()
    &&& e.start_byte <= e.new_end_byte <= new.len()
    &&& old.len() - e.old_end_byte == new.len() - e.new_end_byte
    &&& old.subrange(0, e.start_byte as int) == new.subrange(0, e.start_byte as int)
    &&& old.subrange(e.old_end_byte as int, old.len() as int) == new.subrange(
        e.new_end_byte as int,
        new.len() as int,
    )
}

/// Whether `e` describes the change from `old` to `new`.
pub fn describes_edit(old: &[u8], new: &[u8], e: InputEdit) -> (r: bool)
    ensures
        r == edit_describes(old@, new@, e),
{
    if !(e.start_byte <= e.old_end_byte && e.old_end_byte <= old.len() && e.start_byte
        <= e.new_end_byte && e.new_end_byte <= new.len()) {
        return false;
    }
    if old.len() - e.old_end_byte != new.len() - e.new_end_byte {
        return false;
    }
    let s = e.start_byte;
    let mut i: usize = 0;
    while i < s
        invariant
            i <= s,
            s == e.start_byte,
            s <= old@.len(),
            s <= new@.len(),
            forall|k: int| 0 <= k < i ==> old@[k] == new@[k],
        decreases s - i,
    {
        if old[i] != new[i] {
            proof {
                assert(old@.subrange(0, s as int)[i as int] != new@.subrange(0, s as int)[i as int]);
            }
            return false;
        }
        i = i + 1;
    }
    assert(old@.subrange(0, s as int) =~= new@.subrange(0, s as int));
    let oe = e.old_end_byte;
    let ne = e.new_end_byte;
    let tail = old.len() - oe;
    let mut k: usize = 0;
    while k < tail
        invariant
            k <= tail,
            oe == e.old_end_byte,
            ne == e.new_end_byte,
            oe + tail == old@.len(),
            ne + tail == new@.len(),
            old@.len() == old.len(),
            new@.len() == new.len(),
            forall|m: int| 0 <= m < k ==> #[trigger] old@[oe + m] == new@[ne + m],
        decreases tail - k,
    {
        if old[oe + k] != new[ne + k] {
            proof {
                assert(old@.subrange(oe as int, old@.len() as int)[k as int] != new@.subrange(
                    ne as int,
                    new@.len() as int,
                )[k as int]);
            }
            return false;
        }
        k = k + 1;
    }
    assert forall|m: int| 0 <= m < tail implies old@.subrange(oe as int, old@.len() as int)[m]
        == new@.subrange(ne as int, new@.len() as int)[m] by {
        assert(old@[oe + m] == new@[ne + m]);
    }
    assert(old@.subrange(oe as int, old@.len() as int) =~= new@.subrange(ne as int, new@.len() as int));
    true
}

/// Per-document tree-sitter state: a parser, the text last parsed, and
/// the tree parsed from it (none before the first parse).
pub struct IncrementalDoc {
    parser: Parser,
    tree: Option<Tree>,
    text: String,
}

impl IncrementalDoc {
    /// The nodes of the current tree, if there is one.
    pub closed spec fn nodes(&self) -> Option<Seq<NodeInfo>> {
        match self.tree {
            Some(t) => Some(tree_nodes(t)),
            None => None,
        }
    }

    /// The current tree, if there is one.
    pub closed spec fn tree_spec(&self) -> Option<Tree> {
        self.tree
    }

    /// The text last parsed.
    pub closed spec fn text_view(&self) -> Seq<char> {
        self.text@
    }

    /// A document with a parser and no tree yet.
    pub fn new() -> (d: Self)
        ensures
            d.nodes() is None,
            d.text_view() == Seq::<char>::empty(),
    {
        IncrementalDoc { parser: ts_parser(), tree: None, text: String::new() }
    }

    /// Parse `text` whole, dropping any earlier tree.
    pub fn parse_full(&mut self, text: &str)
        ensures
            final(self).nodes() == Some(ts_nodes(text@)),
            final(self).text_view() == text@,
    {
        let tree = ts_parse(&mut self.parser, text);
        self.tree = Some(tree);
        self.text = text.to_owned();
    }

    /// The buffer now reads `new_text`, after the change `edit` describes.
    /// With a tree and an edit that describes the change from the text
    /// last parsed, reparse with the edited tree; otherwise parse
    /// `new_text` whole.
    pub fn apply_edit(&mut self, new_text: &str, edit: InputEdit)
        ensures
            final(self).nodes() is Some,
            final(self).text_view() == new_text@,
            !(old(self).nodes() is Some && edit_describes(
                encode_utf8(old(self).text_view()),
                new_text.spec_bytes(),
                edit,
            )) ==> final(self).nodes() == Some(ts_nodes(new_text@)),
            old(self).tree_spec() is Some && edit_describes(
                encode_utf8(old(self).text_view()),
                new_text.spec_bytes(),
                edit,
            ) ==> final(self).nodes() == Some(ts_reparsed(old(self).tree_spec()->0, new_text@, edit)),
    {
        let prior = self.tree.take();
        let tree = match prior {
            Some(t) => {
                if describes_edit(self.text.as_str().as_bytes(), new_text.as_bytes(), edit) {
                    ts_reparse(&mut self.parser, t, new_text, edit)
                } else {
                    ts_parse(&mut self.parser, new_text)
                }
            },
            None => ts_parse(&mut self.parser, new_text),
        };
        self.tree = Some(tree);
        self.text = new_text.to_owned();
    }

    /// The nodes of the current tree in document order, or `None` before
    /// the first parse.
    pub fn with_tree(&self) -> (r: Option<Vec<NodeInfo>>)
        ensures
            match self.nodes() {
                Some(n) => r matches Some(v) && v@ == n,
                None => r is None,
            },
    {
        match &self.tree {
            Some(t) => Some(ts_node_list(t)),
            None => None,
        }
    }

    /// The text last parsed.
    pub fn text(&self) -> (r: &str)
        ensures
            r@ == self.text_view(),
    {
        self.text.as_str()
    }
}

impl Default for IncrementalDoc {
    fn default() -> (d: Self)
        ensures
            d.nodes() is None,
            d.text_view() == Seq::<char>::empty(),
    {
        IncrementalDoc::new()
    }
}

} // verus!

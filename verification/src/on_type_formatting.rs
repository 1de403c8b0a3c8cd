//! On-type formatting: the moment a half-width trigger char is typed,
//! replace it in place with its full-width aozora counterpart
//! (`[` → `［`, `<` → `《`, `|` → `｜`, `*` → `※`, `{` → `〔`, …).
//! `#` is deliberately not a trigger: it appears in URLs.

use vstd::prelude::*;
use vstd::string::*;
use vstd::utf8::*;

use crate::chars::chars_of;
use crate::position::{
    byte_offset_to_position, offset_at, position_at, position_to_byte_offset, Position, Range,
    TextEdit,
};
use crate::utf8_bytes::{at_boundary, lemma_boundary_iff, lemma_str_valid};

verus! {

/// A substitution: the typed half-width char and its full-width form.
#[derive(Debug, Clone, Copy)]
pub struct Rule {
    pub typed: char,
    pub replacement: &'static str,
}

/// The substitution table, in lookup order.
pub open spec fn rules_spec() -> Seq<(char, Seq<char>)> {
    seq![
        ('[', "［"@),
        (']', "］"@),
        ('<', "《"@),
        ('>', "》"@),
        ('|', "｜"@),
        ('*', "※"@),
        ('{', "〔"@),
        ('}', "〕"@),
    ]
}

/// The trigger chars advertised to the editor, one per rule.
pub fn triggers() -> (v: Vec<&'static str>)
    ensures
        v@.len() == rules_spec().len(),
        forall|i: int| 0 <= i < v@.len() ==> (#[trigger] v@[i])@ == seq![rules_spec()[i].0],
{
    proof {
        reveal_strlit("[");
        reveal_strlit("]");
        reveal_strlit("<");
        reveal_strlit(">");
        reveal_strlit("|");
        reveal_strlit("*");
        reveal_strlit("{");
        reveal_strlit("}");
    }
    let v = vec!["[", "]", "<", ">", "|", "*", "{", "}"];
    proof {
        assert(v@.len() == 8);
        assert forall|i: int| 0 <= i < v@.len() implies (#[trigger] v@[i])@ == seq![
            rules_spec()[i].0,
        ] by {
            if i == 0 {
                assert(v@[0]@ =~= seq!['[']);
            } else if i == 1 {
                assert(v@[1]@ =~= seq![']']);
            } else if i == 2 {
                assert(v@[2]@ =~= seq!['<']);
            } else if i == 3 {
                assert(v@[3]@ =~= seq!['>']);
            } else if i == 4 {
                assert(v@[4]@ =~= seq!['|']);
            } else if i == 5 {
                assert(v@[5]@ =~= seq!['*']);
            } else if i == 6 {
                assert(v@[6]@ =~= seq!['{']);
            } else {
                assert(v@[7]@ =~= seq!['}']);
            }
        }
    }
    v
}

/// The substitution table, in lookup order.
pub fn rules() -> (v: Vec<Rule>)
    ensures
        v@.len() == rules_spec().len(),
        forall|i: int|
            0 <= i < v@.len() ==> (#[trigger] v@[i]).typed == rules_spec()[i].0
                && v@[i].replacement@ == rules_spec()[i].1,
{
    let v = vec![
        Rule { typed: '[', replacement: "［" },
        Rule { typed: ']', replacement: "］" },
        Rule { typed: '<', replacement: "《" },
        Rule { typed: '>', replacement: "》" },
        Rule { typed: '|', replacement: "｜" },
        Rule { typed: '*', replacement: "※" },
        Rule { typed: '{', replacement: "〔" },
        Rule { typed: '}', replacement: "〕" },
    ];
    proof {
        assert(v@.len() == 8);
        assert forall|i: int| 0 <= i < v@.len() implies (#[trigger] v@[i]).typed == rules_spec()[i].0
            && v@[i].replacement@ == rules_spec()[i].1 by {
            if i == 0 {
            } else if i == 1 {
            } else if i == 2 {
            } else if i == 3 {
            } else if i == 4 {
            } else if i == 5 {
            } else if i == 6 {
            } else {
            }
        }
    }
    v
}

/// The rule for the one-char string `ch`, if any.
pub open spec fn lookup_rule_spec(ch: Seq<char>) -> Option<(char, Seq<char>)> {
    if ch.len() != 1 {
        None
    } else if exists|i: int| 0 <= i < rules_spec().len() && (#[trigger] rules_spec()[i]).0 == ch[0] {
        let i = choose|i: int| 0 <= i < rules_spec().len() && (#[trigger] rules_spec()[i]).0 == ch[0];
        Some(rules_spec()[i])
    } else {
        None
    }
}

/// The rule whose trigger is `ch`, when `ch` is exactly one char.
pub fn lookup_rule(ch: &str) -> (r: Option<Rule>)
    ensures
        match lookup_rule_spec(ch@) {
            Some(rule) => r matches Some(x) && x.typed == rule.0 && x.replacement@ == rule.1,
            None => r is None,
        },
{
    let cs = chars_of(ch);
    if cs.len() != 1 {
        return None;
    }
    let c = cs[0];
    let found = if c == '[' {
        Some(Rule { typed: '[', replacement: "［" })
    } else if c == ']' {
        Some(Rule { typed: ']', replacement: "］" })
    } else if c == '<' {
        Some(Rule { typed: '<', replacement: "《" })
    } else if c == '>' {
        Some(Rule { typed: '>', replacement: "》" })
    } else if c == '|' {
        Some(Rule { typed: '|', replacement: "｜" })
    } else if c == '*' {
        Some(Rule { typed: '*', replacement: "※" })
    } else if c == '{' {
        Some(Rule { typed: '{', replacement: "〔" })
    } else if c == '}' {
        Some(Rule { typed: '}', replacement: "〕" })
    } else {
        None
    };
    proof {
        let rs = rules_spec();
        if found is None {
            assert forall|i: int| 0 <= i < rs.len() implies (#[trigger] rs[i]).0 != ch@[0] by {}
        } else {
            let k: int = if c == '[' { 0 } else if c == ']' { 1 } else if c == '<' { 2 } else if c
                == '>' { 3 } else if c == '|' { 4 } else if c == '*' { 5 } else if c == '{' { 6 } else { 7 };
            assert(rs[k].0 == ch@[0]);
            let j = choose|i: int| 0 <= i < rs.len() && (#[trigger] rs[i]).0 == ch@[0];
            assert(j == k);
        }
    }
    found
}

/// The edit replacing the trigger just typed before `position`, when
/// `ch` is a trigger, `position` names a byte offset past it, and that
/// trigger really sits right before the cursor.
pub open spec fn on_type_spec(b: Seq<u8>, position: Position, ch: Seq<char>) -> Option<(Range, Seq<char>)> {
    match lookup_rule_spec(ch) {
        None => None,
        Some(rule) => match offset_at(b, position) {
            None => None,
            Some(cursor) => if cursor < 1 || b[cursor - 1] != (rule.0 as u8) {
                None
            } else {
                Some((Range { start: position_at(b, cursor - 1), end: position_at(b, cursor) }, rule.1))
            },
        },
    }
}

/// The on-type substitution for `ch` typed at `position`: at most one
/// edit replacing the just-typed half-width char with its full-width
/// form.
pub fn format_on_type(source: &str, position: Position, ch: &str) -> (r: Vec<TextEdit>)
    ensures
        match on_type_spec(source.spec_bytes(), position, ch@) {
            None => r@.len() == 0,
            Some(e) => r@.len() == 1 && r@[0].range == e.0 && r@[0].new_text@ == e.1,
        },
{
    let rule = match lookup_rule(ch) {
        Some(rule) => rule,
        None => return Vec::new(),
    };
    let cursor = match position_to_byte_offset(source, position) {
        Some(c) => c,
        None => return Vec::new(),
    };
    if cursor < 1 {
        return Vec::new();
    }
    let typed_start = cursor - 1;
    let bytes = source.as_bytes();
    proof {
        assert(rule.typed == '[' || rule.typed == ']' || rule.typed == '<' || rule.typed == '>'
            || rule.typed == '|' || rule.typed == '*' || rule.typed == '{' || rule.typed == '}');
    }
    if bytes[typed_start] != rule.typed as u8 {
        return Vec::new();
    }
    proof {
        let b = source.spec_bytes();
        assert(!is_continuation_byte(b[typed_start as int]));
    }
    let range = Range {
        start: byte_offset_to_position(source, typed_start),
        end: byte_offset_to_position(source, cursor),
    };
    let mut out: Vec<TextEdit> = Vec::new();
    out.push(TextEdit { range, new_text: rule.replacement.to_owned() });
    out
}

} // verus!

//! Sub-character smushing: decides whether two individual code points that
//! would occupy the same column can merge into one, and into which.
//!
//! Rules are tried in a fixed priority order and the first match wins.  A
//! plain space never blocks a merge; a layout mode of exactly zero selects
//! universal smushing, where the later glyph simply overwrites the earlier
//! one.

use vstd::prelude::*;

use crate::figfont::{SMUSH_BIGX, SMUSH_EQUAL, SMUSH_HARDBLANK, SMUSH_HIERARCHY, SMUSH_PAIR,
    SMUSH_UNDERLINE};

verus! {

/// The characters that may replace an underscore under the underscore rule,
/// and the members of the six hierarchy classes.
pub open spec fn is_border_char(c: char) -> bool {
    ||| c == '|'
    ||| c == '/'
    ||| c == '\\'
    ||| c == '['
    ||| c == ']'
    ||| c == '{'
    ||| c == '}'
    ||| c == '('
    ||| c == ')'
    ||| c == '<'
    ||| c == '>'
}

/// Rank of a character in the hierarchy rule's six ordered classes
/// `|`, `/\`, `[]`, `{}`, `()`, `<>`; zero when it belongs to none.
pub open spec fn hierarchy_class(c: char) -> int {
    if c == '|' {
        1
    } else if c == '/' || c == '\\' {
        2
    } else if c == '[' || c == ']' {
        3
    } else if c == '{' || c == '}' {
        4
    } else if c == '(' || c == ')' {
        5
    } else if c == '<' || c == '>' {
        6
    } else {
        0
    }
}

/// Equal-character rule: two equal sub-characters merge into that character.
pub open spec fn spec_rule_1(l: char, r: char, mode: u32) -> Option<char> {
    if mode & SMUSH_EQUAL != 0 && l == r {
        Some(l)
    } else {
        None
    }
}

/// Underscore rule: an underscore is replaced by any border character.
pub open spec fn spec_rule_2(l: char, r: char, mode: u32) -> Option<char> {
    if mode & SMUSH_UNDERLINE != 0 {
        if l == '_' && is_border_char(r) {
            Some(r)
        } else if r == '_' && is_border_char(l) {
            Some(l)
        } else {
            None
        }
    } else {
        None
    }
}

/// Hierarchy rule: when the two sub-characters come from different border
/// classes, the one from the later class wins.
pub open spec fn spec_rule_3(l: char, r: char, mode: u32) -> Option<char> {
    if mode & SMUSH_HIERARCHY != 0 && hierarchy_class(l) != 0 && hierarchy_class(r) != 0
        && hierarchy_class(l) != hierarchy_class(r) {
        if hierarchy_class(l) < hierarchy_class(r) {
            Some(r)
        } else {
            Some(l)
        }
    } else {
        None
    }
}

/// Opposite-pair rule: opposing brackets, braces or parentheses, in either
/// order, collapse to a vertical bar.
pub open spec fn spec_rule_4(l: char, r: char, mode: u32) -> Option<char> {
    if mode & SMUSH_PAIR != 0 {
        if (l == '[' && r == ']') || (l == ']' && r == '[') || (l == '{' && r == '}') || (l == '}'
            && r == '{') || (l == '(' && r == ')') || (l == ')' && r == '(') {
            Some('|')
        } else {
            None
        }
    } else {
        None
    }
}

/// Big-X rule: `/\` becomes `|`, `\/` becomes `Y`, `><` becomes `X`.
/// `<>` is not matched in any way by this rule.
pub open spec fn spec_rule_5(l: char, r: char, mode: u32) -> Option<char> {
    if mode & SMUSH_BIGX != 0 {
        if l == '/' && r == '\\' {
            Some('|')
        } else if l == '\\' && r == '/' {
            Some('Y')
        } else if l == '>' && r == '<' {
            Some('X')
        } else {
            None
        }
    } else {
        None
    }
}

/// What `smush` returns: the full decision procedure over two sub-characters.
///
/// A plain space yields to anything.  Mode zero is universal smushing: the
/// hardblank yields to a visible character, otherwise the later glyph's
/// sub-character wins (the earlier one when rendering right to left).  Two
/// hardblanks merge only under the hardblank rule.  Otherwise the five rules
/// are tried in priority order and the first match wins; no match means the
/// two columns must not overlap here.
pub open spec fn spec_smush(l: char, r: char, hardblank: char, right2left: bool, mode: u32)
    -> Option<char> {
    if l == ' ' {
        Some(r)
    } else if r == ' ' {
        Some(l)
    } else if mode == 0 {
        if l == hardblank {
            Some(r)
        } else if r == hardblank {
            Some(l)
        } else if right2left {
            Some(l)
        } else {
            Some(r)
        }
    } else if l == hardblank && r == hardblank {
        if mode & SMUSH_HARDBLANK != 0 {
            Some(l)
        } else {
            None
        }
    } else if spec_rule_1(l, r, mode) is Some {
        spec_rule_1(l, r, mode)
    } else if spec_rule_2(l, r, mode) is Some {
        spec_rule_2(l, r, mode)
    } else if spec_rule_3(l, r, mode) is Some {
        spec_rule_3(l, r, mode)
    } else if spec_rule_4(l, r, mode) is Some {
        spec_rule_4(l, r, mode)
    } else {
        spec_rule_5(l, r, mode)
    }
}

/// Equal-character smushing (rule code value 1).
pub fn rule_1(l: char, r: char, mode: u32) -> (res: Option<char>)
    ensures
        res == spec_rule_1(l, r, mode),
{
    if mode & SMUSH_EQUAL != 0 && l == r {
        Some(l)
    } else {
        None
    }
}

/// Underscore smushing (rule code value 2).
pub fn rule_2(l: char, r: char, mode: u32) -> (res: Option<char>)
    ensures
        res == spec_rule_2(l, r, mode),
{
    if mode & SMUSH_UNDERLINE != 0 {
        if l == '_' && is_border(r) {
            Some(r)
        } else if r == '_' && is_border(l) {
            Some(l)
        } else {
            None
        }
    } else {
        None
    }
}

/// Hierarchy smushing (rule code value 4).
pub fn rule_3(l: char, r: char, mode: u32) -> (res: Option<char>)
    ensures
        res == spec_rule_3(l, r, mode),
{
    if mode & SMUSH_HIERARCHY != 0 {
        let cl = class_of(l);
        let cr = class_of(r);
        if cl != 0 && cr != 0 && cl != cr {
            if cl < cr {
                Some(r)
            } else {
                Some(l)
            }
        } else {
            None
        }
    } else {
        None
    }
}

/// Opposite-pair smushing (rule code value 8).
pub fn rule_4(l: char, r: char, mode: u32) -> (res: Option<char>)
    ensures
        res == spec_rule_4(l, r, mode),
{
    if mode & SMUSH_PAIR != 0 {
        if (l == '[' && r == ']') || (l == ']' && r == '[') || (l == '{' && r == '}') || (l == '}'
            && r == '{') || (l == '(' && r == ')') || (l == ')' && r == '(') {
            Some('|')
        } else {
            None
        }
    } else {
        None
    }
}

/// Big-X smushing (rule code value 16).
pub fn rule_5(l: char, r: char, mode: u32) -> (res: Option<char>)
    ensures
        res == spec_rule_5(l, r, mode),
{
    if mode & SMUSH_BIGX != 0 {
        if l == '/' && r == '\\' {
            Some('|')
        } else if l == '\\' && r == '/' {
            Some('Y')
        } else if l == '>' && r == '<' {
            Some('X')
        } else {
            None
        }
    } else {
        None
    }
}

fn is_border(c: char) -> (res: bool)
    ensures
        res == is_border_char(c),
{
    c == '|' || c == '/' || c == '\\' || c == '[' || c == ']' || c == '{' || c == '}' || c == '('
        || c == ')' || c == '<' || c == '>'
}

fn class_of(c: char) -> (res: u32)
    ensures
        res as int == hierarchy_class(c),
{
    if c == '|' {
        1
    } else if c == '/' || c == '\\' {
        2
    } else if c == '[' || c == ']' {
        3
    } else if c == '{' || c == '}' {
        4
    } else if c == '(' || c == ')' {
        5
    } else if c == '<' || c == '>' {
        6
    } else {
        0
    }
}

/// Decide whether the sub-characters `l` and `r` can share one column, and
/// which single sub-character results, under the given hardblank and layout
/// mode.  `None` means the two glyphs must not overlap at this column.
pub fn smush(l: char, r: char, hardblank: char, right2left: bool, mode: u32) -> (res: Option<char>)
    ensures
        res == spec_smush(l, r, hardblank, right2left, mode),
{
    if l == ' ' {
        return Some(r);
    }
    if r == ' ' {
        return Some(l);
    }

    // Universal smushing simply overrides the sub-character from the
    // earlier glyph with the sub-character from the later one, giving an
    // overlapping effect; visible characters take precedence over the
    // hardblank.
    if mode == 0 {
        if l == hardblank {
            return Some(r);
        }
        if r == hardblank {
            return Some(l);
        }
        if right2left {
            return Some(l);
        }
        return Some(r);
    }

    // Hardblank smushing (rule code value 32): two hardblanks merge into a
    // single hardblank, and nothing else ever merges with one.
    if l == hardblank && r == hardblank {
        if mode & SMUSH_HARDBLANK != 0 {
            return Some(l);
        } else {
            return None;
        }
    }

    if let Some(c) = rule_1(l, r, mode) {
        return Some(c);
    }
    if let Some(c) = rule_2(l, r, mode) {
        return Some(c);
    }
    if let Some(c) = rule_3(l, r, mode) {
        return Some(c);
    }
    if let Some(c) = rule_4(l, r, mode) {
        return Some(c);
    }
    rule_5(l, r, mode)
}

/// The equal-character rule treats its two arguments symmetrically.
pub proof fn lemma_rule_1_symmetric(l: char, r: char, mode: u32)
    ensures
        spec_rule_1(l, r, mode) == spec_rule_1(r, l, mode),
{
}

/// The hierarchy rule treats its two arguments symmetrically: whichever side
/// the later class stands on, the character from the later class wins.
pub proof fn lemma_rule_3_symmetric(l: char, r: char, mode: u32)
    ensures
        spec_rule_3(l, r, mode) == spec_rule_3(r, l, mode),
{
}

/// The opposite-pair rule treats its two arguments symmetrically: both
/// orders of a pair collapse to the same vertical bar.
pub proof fn lemma_rule_4_symmetric(l: char, r: char, mode: u32)
    ensures
        spec_rule_4(l, r, mode) == spec_rule_4(r, l, mode),
{
}

} // verus!

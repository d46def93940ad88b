//! The rewriting rules: spellings that are never correct, and the spacing
//! around punctuation.
//!
//! A rule says where a match that starts at a given position ends and what
//! the match is rewritten to. Matches are found from left to right, and the
//! search goes on behind each of them.

use crate::corrector::letters::{same_letter, spells};
use vstd::prelude::*;

verus! {

/// "pò" as a whole word: it is cut from "poco", so it takes an apostrophe.
pub const POCO: &'static str = r"(?i)\bp(ò)\b";

/// "qual" is cut short, never elided, so it takes no apostrophe.
pub const QUAL: &'static str = r"(?i)\bqual'([eè])";

/// "un" takes no apostrophe before a masculine word.
pub const UN: &'static str = r"(?i)\bun'(altro|uomo|amico|anno|attimo)\b";

/// "d'accordo" is two words joined by an apostrophe.
pub const ACCORDO: &'static str = r"(?i)\bdaccordo\b";

/// Blanks in front of a punctuation mark.
pub const SPACED_MARK: &'static str = r"[ \t]+([,.;:!?])";

/// Two or more blanks in a row.
pub const BLANKS: &'static str = r"[ \t]{2,}";

/// One of the rewriting rules.
pub enum Rule {
    /// `pò` becomes `po'`.
    Poco,
    /// `qual'` before an "e" becomes `qual` and a space.
    Qual,
    /// `un'` before a masculine word becomes `un` and a space.
    Un,
    /// `daccordo` becomes `d'accordo`.
    Accordo,
    /// Blanks before a punctuation mark go.
    SpacedMark,
    /// A run of blanks becomes one space.
    Blanks,
}

/// Whether a character outside ASCII is a word character in the sense of `\b`.
pub uninterp spec fn unicode_word(c: char) -> bool;

/// The word characters outside ASCII.
pub open spec fn word_class() -> spec_fn(char) -> bool {
    |c: char| unicode_word(c)
}

/// Whether `c` is a word character, when `wide` tells it outside ASCII.
pub open spec fn is_word(wide: spec_fn(char) -> bool, c: char) -> bool {
    if c <= '\u{7f}' {
        'a' <= c <= 'z' || 'A' <= c <= 'Z' || '0' <= c <= '9' || c == '_'
    } else {
        c == 'è' || c == 'È' || c == 'ò' || c == 'Ò' || wide(c)
    }
}

/// A word boundary: a word character on exactly one side of position `i`.
pub open spec fn boundary(wide: spec_fn(char) -> bool, t: Seq<char>, i: int) -> bool {
    (0 < i <= t.len() && is_word(wide, t[i - 1])) != (0 <= i < t.len() && is_word(wide, t[i]))
}

/// A space or a tab.
pub open spec fn is_blank(c: char) -> bool {
    c == ' ' || c == '\t'
}

/// A mark that takes no space in front of it.
pub open spec fn is_mark(c: char) -> bool {
    c == ',' || c == '.' || c == ';' || c == ':' || c == '!' || c == '?'
}

/// Where the run of blanks that starts at `i` ends.
pub open spec fn blanks_end(t: Seq<char>, i: int) -> int
    decreases t.len() - i,
{
    if 0 <= i < t.len() && is_blank(t[i]) {
        blanks_end(t, i + 1)
    } else {
        i
    }
}

/// Where the masculine noun that starts at `i` ends, or `i` if none does.
pub open spec fn noun_end(t: Seq<char>, i: int) -> int {
    if spells(t, i, seq!['a', 'l', 't', 'r', 'o']) {
        i + 5
    } else if spells(t, i, seq!['u', 'o', 'm', 'o']) {
        i + 4
    } else if spells(t, i, seq!['a', 'm', 'i', 'c', 'o']) {
        i + 5
    } else if spells(t, i, seq!['a', 'n', 'n', 'o']) {
        i + 4
    } else if spells(t, i, seq!['a', 't', 't', 'i', 'm', 'o']) {
        i + 6
    } else {
        i
    }
}

/// Where the match of `rule` that starts at `i` ends, or `i` if none does.
pub open spec fn match_end(
    rule: Rule,
    wide: spec_fn(char) -> bool,
    t: Seq<char>,
    i: int,
) -> int {
    match rule {
        Rule::Poco => if boundary(wide, t, i) && spells(t, i, seq!['p', 'ò']) && boundary(
            wide,
            t,
            i + 2,
        ) {
            i + 2
        } else {
            i
        },
        Rule::Qual => if boundary(wide, t, i) && spells(t, i, seq!['q', 'u', 'a', 'l', '\'']) && i
            + 5 < t.len() && (same_letter(t[i + 5], 'e') || same_letter(t[i + 5], 'è')) {
            i + 6
        } else {
            i
        },
        Rule::Un => {
            let e = noun_end(t, i + 3);
            if boundary(wide, t, i) && spells(t, i, seq!['u', 'n', '\'']) && i + 3 < e && boundary(
                wide,
                t,
                e,
            ) {
                e
            } else {
                i
            }
        },
        Rule::Accordo => if boundary(wide, t, i) && spells(
            t,
            i,
            seq!['d', 'a', 'c', 'c', 'o', 'r', 'd', 'o'],
        ) && boundary(wide, t, i + 8) {
            i + 8
        } else {
            i
        },
        Rule::SpacedMark => {
            let e = blanks_end(t, i);
            if i < e < t.len() && is_mark(t[e]) {
                e + 1
            } else {
                i
            }
        },
        Rule::Blanks => {
            let e = blanks_end(t, i);
            if i + 2 <= e {
                e
            } else {
                i
            }
        },
    }
}

/// What `rule` writes in place of its match `t[i..e]`.
pub open spec fn rewritten(rule: Rule, t: Seq<char>, i: int, e: int) -> Seq<char> {
    match rule {
        Rule::Poco => seq!['p', 'o', '\''],
        Rule::Qual => seq!['q', 'u', 'a', 'l', ' ', t[e - 1]],
        Rule::Un => seq!['u', 'n', ' '] + t.subrange(i + 3, e),
        Rule::Accordo => seq!['d', '\'', 'a', 'c', 'c', 'o', 'r', 'd', 'o'],
        Rule::SpacedMark => seq![t[e - 1]],
        Rule::Blanks => seq![' '],
    }
}

/// `t` from `i` on, with every match of `rule` rewritten.
pub open spec fn rewrite_from(
    rule: Rule,
    wide: spec_fn(char) -> bool,
    t: Seq<char>,
    i: int,
) -> Seq<char>
    decreases t.len() - i,
{
    if 0 <= i < t.len() {
        let e = match_end(rule, wide, t, i);
        if i < e <= t.len() {
            rewritten(rule, t, i, e) + rewrite_from(rule, wide, t, e)
        } else {
            seq![t[i]] + rewrite_from(rule, wide, t, i + 1)
        }
    } else {
        Seq::empty()
    }
}

/// `t` with every match of `rule` rewritten.
pub open spec fn rewrite(rule: Rule, wide: spec_fn(char) -> bool, t: Seq<char>) -> Seq<char> {
    rewrite_from(rule, wide, t, 0)
}

/// The pattern of `rule`.
pub open spec fn pattern_of(rule: Rule) -> Seq<char> {
    match rule {
        Rule::Poco => POCO@,
        Rule::Qual => QUAL@,
        Rule::Un => UN@,
        Rule::Accordo => ACCORDO@,
        Rule::SpacedMark => SPACED_MARK@,
        Rule::Blanks => BLANKS@,
    }
}

/// The replacement of `rule`, where `$1` stands for the first group.
pub open spec fn replacement_of(rule: Rule) -> Seq<char> {
    match rule {
        Rule::Poco => "po'"@,
        Rule::Qual => "qual $1"@,
        Rule::Un => "un $1"@,
        Rule::Accordo => "d'accordo"@,
        Rule::SpacedMark => "$1"@,
        Rule::Blanks => " "@,
    }
}

/// Compiles `pattern` with `regex::Regex::new` and rewrites every
/// non-overlapping match in `text` with `Regex::replace_all`.
///
/// Claimed of the two, for the six rules: the patterns compile, matches are
/// taken from left to right as [`rewrite`] says, `(?i)` lets each letter of
/// these patterns stand in either case and nothing else, `\b` is
/// [`boundary`], and `$1` is what the group matched. Which characters outside
/// ASCII count as word characters is left to [`unicode_word`], but that the
/// vowels of the patterns do.
#[verifier::external_body]
pub(crate) fn replace_all(pattern: &str, text: &str, replacement: &str) -> (result: String)
    requires
        exists|rule: Rule|
            pattern@ == #[trigger] pattern_of(rule) && replacement@ == replacement_of(rule),
    ensures
        forall|rule: Rule|
            pattern@ == #[trigger] pattern_of(rule) && replacement@ == replacement_of(rule)
                ==> result@ == rewrite(rule, |c: char| unicode_word(c), text@),
{
    regex::Regex::new(pattern).unwrap().replace_all(text, replacement).into_owned()
}

impl Rule {
    /// The pattern that finds the rule's matches.
    pub fn pattern(&self) -> (p: &'static str)
        ensures
            p@ == pattern_of(*self),
    {
        match self {
            Rule::Poco => POCO,
            Rule::Qual => QUAL,
            Rule::Un => UN,
            Rule::Accordo => ACCORDO,
            Rule::SpacedMark => SPACED_MARK,
            Rule::Blanks => BLANKS,
        }
    }

    /// What a match is rewritten to.
    pub fn replacement(&self) -> (r: &'static str)
        ensures
            r@ == replacement_of(*self),
    {
        match self {
            Rule::Poco => "po'",
            Rule::Qual => "qual $1",
            Rule::Un => "un $1",
            Rule::Accordo => "d'accordo",
            Rule::SpacedMark => "$1",
            Rule::Blanks => " ",
        }
    }

    /// Rewrites every match of the rule.
    pub fn apply(&self, text: &str) -> (result: String)
        ensures
            result@ == rewrite(*self, word_class(), text@),
    {
        let result: String = replace_all(self.pattern(), text, self.replacement());
        assert(word_class() =~= |c: char| unicode_word(c));
        result
    }
}

/// `t` with the spellings corrected that are wrong in any context.
pub open spec fn respelled(wide: spec_fn(char) -> bool, t: Seq<char>) -> Seq<char> {
    rewrite(
        Rule::Accordo,
        wide,
        rewrite(Rule::Un, wide, rewrite(Rule::Qual, wide, rewrite(Rule::Poco, wide, t))),
    )
}

/// `t` without blanks before punctuation marks and with single spaces for
/// runs of blanks.
pub open spec fn respaced(wide: spec_fn(char) -> bool, t: Seq<char>) -> Seq<char> {
    rewrite(Rule::Blanks, wide, rewrite(Rule::SpacedMark, wide, t))
}

/// Corrects the spellings that are never correct in Italian, whatever the
/// context.
pub fn fix_always_wrong_spellings(text: &str) -> (result: String)
    ensures
        result@ == respelled(word_class(), text@),
{
    let poco: String = Rule::Poco.apply(text);
    let qual: String = Rule::Qual.apply(poco.as_str());
    let un: String = Rule::Un.apply(qual.as_str());
    Rule::Accordo.apply(un.as_str())
}

/// Collapses runs of blanks and removes blanks before punctuation, which are
/// always wrong in Italian typography. Spacing *after* punctuation is left
/// alone: touching it would corrupt decimals ("1,5"), times and URLs.
pub fn normalize_whitespace_and_punctuation(text: &str) -> (result: String)
    ensures
        result@ == respaced(word_class(), text@),
{
    let marks: String = Rule::SpacedMark.apply(text);
    Rule::Blanks.apply(marks.as_str())
}

} // verus!

//! A rewriting rule seen character by character: what each character of the
//! text turns into, and where it lands.

use crate::corrector::letters::same_letter;
use crate::corrector::spelling::{
    blanks_end, is_blank, match_end, rewrite, rewrite_from, rewritten, Rule,
};
use vstd::prelude::*;

verus! {

/// Whether a match of `rule` starts at `i`.
pub open spec fn hits(rule: Rule, wide: spec_fn(char) -> bool, t: Seq<char>, i: int) -> bool {
    0 <= i < t.len() && i < match_end(rule, wide, t, i)
}

/// What the character at `i` turns into.
#[verifier::opaque]
pub open spec fn piece(
    rule: Rule,
    wide: spec_fn(char) -> bool,
    t: Seq<char>,
    i: int,
) -> Seq<char> {
    match rule {
        Rule::Poco => if hits(rule, wide, t, i) {
            seq!['p']
        } else if hits(rule, wide, t, i - 1) {
            seq!['o', '\'']
        } else {
            seq![t[i]]
        },
        Rule::Qual => if hits(rule, wide, t, i) {
            seq!['q']
        } else if hits(rule, wide, t, i - 1) {
            seq!['u']
        } else if hits(rule, wide, t, i - 2) {
            seq!['a']
        } else if hits(rule, wide, t, i - 3) {
            seq!['l']
        } else if hits(rule, wide, t, i - 4) {
            seq![' ']
        } else {
            seq![t[i]]
        },
        Rule::Un => if hits(rule, wide, t, i) {
            seq!['u']
        } else if hits(rule, wide, t, i - 1) {
            seq!['n']
        } else if hits(rule, wide, t, i - 2) {
            seq![' ']
        } else {
            seq![t[i]]
        },
        Rule::Accordo => if hits(rule, wide, t, i) {
            seq!['d', '\'']
        } else if hits(rule, wide, t, i - 1) {
            seq!['a']
        } else if hits(rule, wide, t, i - 2) {
            seq!['c']
        } else if hits(rule, wide, t, i - 3) {
            seq!['c']
        } else if hits(rule, wide, t, i - 4) {
            seq!['o']
        } else if hits(rule, wide, t, i - 5) {
            seq!['r']
        } else if hits(rule, wide, t, i - 6) {
            seq!['d']
        } else if hits(rule, wide, t, i - 7) {
            seq!['o']
        } else {
            seq![t[i]]
        },
        Rule::SpacedMark => if hits(rule, wide, t, i) {
            Seq::empty()
        } else {
            seq![t[i]]
        },
        Rule::Blanks => if is_blank(t[i]) && 0 < i && is_blank(t[i - 1]) {
            Seq::empty()
        } else if hits(rule, wide, t, i) {
            seq![' ']
        } else {
            seq![t[i]]
        },
    }
}

/// What the first `n` characters turn into.
pub open spec fn pieces(
    rule: Rule,
    wide: spec_fn(char) -> bool,
    t: Seq<char>,
    n: int,
) -> Seq<char>
    decreases n,
{
    if n <= 0 {
        Seq::empty()
    } else {
        pieces(rule, wide, t, n - 1) + piece(rule, wide, t, n - 1)
    }
}

/// No match reaches over position `i`.
pub open spec fn is_cut(rule: Rule, wide: spec_fn(char) -> bool, t: Seq<char>, i: int) -> bool {
    forall|s: int| 0 <= s < i && #[trigger] hits(rule, wide, t, s) ==> match_end(rule, wide, t, s) <= i
}

pub proof fn lemma_blanks_end(t: Seq<char>, i: int)
    requires
        0 <= i <= t.len(),
    ensures
        i <= blanks_end(t, i) <= t.len(),
        forall|j: int| i <= j < blanks_end(t, i) ==> is_blank(#[trigger] t[j]),
        blanks_end(t, i) < t.len() ==> !is_blank(t[blanks_end(t, i)]),
        forall|j: int| i <= j <= blanks_end(t, i) ==> #[trigger] blanks_end(t, j) == blanks_end(t, i),
    decreases t.len() - i,
{
    if i < t.len() && is_blank(t[i]) {
        lemma_blanks_end(t, i + 1);
    }
}

/// A match lies inside the text, and no other starts within it but those that
/// end with it.
pub proof fn lemma_match(rule: Rule, wide: spec_fn(char) -> bool, t: Seq<char>, i: int)
    requires
        hits(rule, wide, t, i),
    ensures
        match_end(rule, wide, t, i) <= t.len(),
        forall|s: int|
            i < s < match_end(rule, wide, t, i) && #[trigger] hits(rule, wide, t, s) ==> match_end(
                rule,
                wide,
                t,
                s,
            ) == match_end(rule, wide, t, i) && (rule is SpacedMark || rule is Blanks),
{
    match rule {
        Rule::SpacedMark => {
            lemma_blanks_end(t, i);
        },
        Rule::Blanks => {
            lemma_blanks_end(t, i);
        },
        Rule::Poco => {
            lemma_match_poco(wide, t, i);
        },
        Rule::Qual => {
            lemma_match_qual(wide, t, i);
        },
        Rule::Un => {
            lemma_match_un(wide, t, i);
        },
        Rule::Accordo => {
            lemma_match_accordo(wide, t, i);
        },
    }
}

proof fn lemma_match_poco(wide: spec_fn(char) -> bool, t: Seq<char>, i: int)
    requires
        hits(Rule::Poco, wide, t, i),
    ensures
        match_end(Rule::Poco, wide, t, i) == i + 2 <= t.len(),
        !hits(Rule::Poco, wide, t, i + 1),
{
    assert(same_letter(t[i + 1], 'ò'));
}

proof fn lemma_match_qual(wide: spec_fn(char) -> bool, t: Seq<char>, i: int)
    requires
        hits(Rule::Qual, wide, t, i),
    ensures
        match_end(Rule::Qual, wide, t, i) == i + 6 <= t.len(),
        forall|s: int| i < s < i + 6 ==> !#[trigger] hits(Rule::Qual, wide, t, s),
{
    assert(same_letter(t[i + 1], 'u') && same_letter(t[i + 2], 'a') && same_letter(t[i + 3], 'l')
        && t[i + 4] == '\'');
    assert forall|s: int| i < s < i + 6 implies !#[trigger] hits(Rule::Qual, wide, t, s) by {
        assert(hits(Rule::Qual, wide, t, s) ==> same_letter(t[s], 'q'));
    }
}

proof fn lemma_match_un(wide: spec_fn(char) -> bool, t: Seq<char>, i: int)
    requires
        hits(Rule::Un, wide, t, i),
    ensures
        i + 3 < match_end(Rule::Un, wide, t, i) <= t.len(),
        forall|s: int|
            i < s < match_end(Rule::Un, wide, t, i) ==> !#[trigger] hits(Rule::Un, wide, t, s),
{
    let e = match_end(Rule::Un, wide, t, i);
    assert(same_letter(t[i + 1], 'n') && t[i + 2] == '\'');
    assert forall|s: int| i < s < e implies !#[trigger] hits(Rule::Un, wide, t, s) by {
        assert(hits(Rule::Un, wide, t, s) ==> same_letter(t[s], 'u') && same_letter(t[s + 1], 'n'));
    }
}

proof fn lemma_match_accordo(wide: spec_fn(char) -> bool, t: Seq<char>, i: int)
    requires
        hits(Rule::Accordo, wide, t, i),
    ensures
        match_end(Rule::Accordo, wide, t, i) == i + 8 <= t.len(),
        forall|s: int| i < s < i + 8 ==> !#[trigger] hits(Rule::Accordo, wide, t, s),
{
    assert(same_letter(t[i + 1], 'a') && same_letter(t[i + 2], 'c') && same_letter(t[i + 3], 'c')
        && same_letter(t[i + 4], 'o') && same_letter(t[i + 5], 'r') && same_letter(t[i + 6], 'd')
        && same_letter(t[i + 7], 'o'));
    assert forall|s: int| i < s < i + 8 implies !#[trigger] hits(Rule::Accordo, wide, t, s) by {
        assert(hits(Rule::Accordo, wide, t, s) ==> same_letter(t[s], 'd') && same_letter(
            t[s + 1],
            'a',
        ));
    }
}

/// The characters of a match turn into what the rule writes in its place.
proof fn lemma_match_pieces(rule: Rule, wide: spec_fn(char) -> bool, t: Seq<char>, i: int)
    requires
        hits(rule, wide, t, i),
        is_cut(rule, wide, t, i),
    ensures
        pieces(rule, wide, t, match_end(rule, wide, t, i)) == pieces(rule, wide, t, i) + rewritten(
            rule,
            t,
            i,
            match_end(rule, wide, t, i),
        ),
{
    let e = match_end(rule, wide, t, i);
    lemma_match(rule, wide, t, i);
    match rule {
        Rule::Poco => {
            lemma_poco_pieces(wide, t, i);
        },
        Rule::Qual => {
            lemma_qual_pieces(wide, t, i);
        },
        Rule::Accordo => {
            lemma_accordo_pieces(wide, t, i);
        },
        Rule::Un => {
            lemma_un_tail(wide, t, i, e - i - 3);
            lemma_un_head(wide, t, i);
        },
        Rule::SpacedMark => {
            lemma_mark_pieces(wide, t, i);
        },
        Rule::Blanks => {
            lemma_blanks_end(t, i);
            if 0 < i && is_blank(t[i - 1]) {
                assert(blanks_end(t, i - 1) == blanks_end(t, i));
                assert(hits(rule, wide, t, i - 1));
            }
            lemma_blanks_tail(wide, t, i, e);
        },
    }
}

proof fn lemma_poco_pieces(wide: spec_fn(char) -> bool, t: Seq<char>, i: int)
    requires
        hits(Rule::Poco, wide, t, i),
    ensures
        pieces(Rule::Poco, wide, t, i + 2) == pieces(Rule::Poco, wide, t, i) + seq!['p', 'o', '\''],
{
    reveal(piece);
    let r = Rule::Poco;
    lemma_match(r, wide, t, i);
    assert(piece(r, wide, t, i) == seq!['p']);
    assert(piece(r, wide, t, i + 1) == seq!['o', '\'']);
    assert(pieces(r, wide, t, i + 1) == pieces(r, wide, t, i) + piece(r, wide, t, i));
    assert(pieces(r, wide, t, i + 2) == pieces(r, wide, t, i + 1) + piece(r, wide, t, i + 1));
}

proof fn lemma_qual_pieces(wide: spec_fn(char) -> bool, t: Seq<char>, i: int)
    requires
        hits(Rule::Qual, wide, t, i),
    ensures
        pieces(Rule::Qual, wide, t, i + 6) == pieces(Rule::Qual, wide, t, i) + seq![
            'q',
            'u',
            'a',
            'l',
            ' ',
            t[i + 5],
        ],
{
    let r = Rule::Qual;
    lemma_match_qual(wide, t, i);
    assert(piece(r, wide, t, i) == seq!['q']) by {
        reveal(piece);
    }
    assert(piece(r, wide, t, i + 1) == seq!['u']) by {
        reveal(piece);
    }
    assert(piece(r, wide, t, i + 2) == seq!['a']) by {
        reveal(piece);
    }
    assert(piece(r, wide, t, i + 3) == seq!['l']) by {
        reveal(piece);
    }
    assert(piece(r, wide, t, i + 4) == seq![' ']) by {
        reveal(piece);
    }
    assert(piece(r, wide, t, i + 5) == seq![t[i + 5]]) by {
        reveal(piece);
    }
    assert(pieces(r, wide, t, i + 1) == pieces(r, wide, t, i) + piece(r, wide, t, i));
    assert(pieces(r, wide, t, i + 2) == pieces(r, wide, t, i + 1) + piece(r, wide, t, i + 1));
    assert(pieces(r, wide, t, i + 3) == pieces(r, wide, t, i + 2) + piece(r, wide, t, i + 2));
    assert(pieces(r, wide, t, i + 4) == pieces(r, wide, t, i + 3) + piece(r, wide, t, i + 3));
    assert(pieces(r, wide, t, i + 5) == pieces(r, wide, t, i + 4) + piece(r, wide, t, i + 4));
    assert(pieces(r, wide, t, i + 6) == pieces(r, wide, t, i + 5) + piece(r, wide, t, i + 5));
}

proof fn lemma_accordo_pieces(wide: spec_fn(char) -> bool, t: Seq<char>, i: int)
    requires
        hits(Rule::Accordo, wide, t, i),
    ensures
        pieces(Rule::Accordo, wide, t, i + 8) == pieces(Rule::Accordo, wide, t, i) + seq![
            'd',
            '\'',
            'a',
            'c',
            'c',
            'o',
            'r',
            'd',
            'o',
        ],
{
    let r = Rule::Accordo;
    lemma_match_accordo(wide, t, i);
    assert(piece(r, wide, t, i) == seq!['d', '\'']) by {
        reveal(piece);
    }
    assert(piece(r, wide, t, i + 1) == seq!['a']) by {
        reveal(piece);
    }
    assert(piece(r, wide, t, i + 2) == seq!['c']) by {
        reveal(piece);
    }
    assert(piece(r, wide, t, i + 3) == seq!['c']) by {
        reveal(piece);
    }
    assert(piece(r, wide, t, i + 4) == seq!['o']) by {
        reveal(piece);
    }
    assert(piece(r, wide, t, i + 5) == seq!['r']) by {
        reveal(piece);
    }
    assert(piece(r, wide, t, i + 6) == seq!['d']) by {
        reveal(piece);
    }
    assert(piece(r, wide, t, i + 7) == seq!['o']) by {
        reveal(piece);
    }
    assert(pieces(r, wide, t, i + 1) == pieces(r, wide, t, i) + piece(r, wide, t, i));
    assert(pieces(r, wide, t, i + 2) == pieces(r, wide, t, i + 1) + piece(r, wide, t, i + 1));
    assert(pieces(r, wide, t, i + 3) == pieces(r, wide, t, i + 2) + piece(r, wide, t, i + 2));
    assert(pieces(r, wide, t, i + 4) == pieces(r, wide, t, i + 3) + piece(r, wide, t, i + 3));
    assert(pieces(r, wide, t, i + 5) == pieces(r, wide, t, i + 4) + piece(r, wide, t, i + 4));
    assert(pieces(r, wide, t, i + 6) == pieces(r, wide, t, i + 5) + piece(r, wide, t, i + 5));
    assert(pieces(r, wide, t, i + 7) == pieces(r, wide, t, i + 6) + piece(r, wide, t, i + 6));
    assert(pieces(r, wide, t, i + 8) == pieces(r, wide, t, i + 7) + piece(r, wide, t, i + 7));
}

proof fn lemma_un_head(wide: spec_fn(char) -> bool, t: Seq<char>, i: int)
    requires
        hits(Rule::Un, wide, t, i),
    ensures
        pieces(Rule::Un, wide, t, i + 3) == pieces(Rule::Un, wide, t, i) + seq!['u', 'n', ' '],
{
    reveal(piece);
    let r = Rule::Un;
    lemma_match(r, wide, t, i);
    assert(piece(r, wide, t, i) == seq!['u']);
    assert(piece(r, wide, t, i + 1) == seq!['n']);
    assert(piece(r, wide, t, i + 2) == seq![' ']);
    assert(pieces(r, wide, t, i + 1) == pieces(r, wide, t, i) + piece(r, wide, t, i));
    assert(pieces(r, wide, t, i + 2) == pieces(r, wide, t, i + 1) + piece(r, wide, t, i + 1));
    assert(pieces(r, wide, t, i + 3) == pieces(r, wide, t, i + 2) + piece(r, wide, t, i + 2));
}

proof fn lemma_mark_pieces(wide: spec_fn(char) -> bool, t: Seq<char>, i: int)
    requires
        hits(Rule::SpacedMark, wide, t, i),
    ensures
        ({
            let e = match_end(Rule::SpacedMark, wide, t, i);
            pieces(Rule::SpacedMark, wide, t, e) == pieces(Rule::SpacedMark, wide, t, i) + seq![
                t[e - 1],
            ]
        }),
{
    reveal(piece);
    let e = match_end(Rule::SpacedMark, wide, t, i);
    lemma_blanks_end(t, i);
    lemma_mark_head(wide, t, i, e - 1);
    assert(piece(Rule::SpacedMark, wide, t, e - 1) == seq![t[e - 1]]);
}

proof fn lemma_un_tail(wide: spec_fn(char) -> bool, t: Seq<char>, i: int, m: int)
    requires
        hits(Rule::Un, wide, t, i),
        0 <= m <= match_end(Rule::Un, wide, t, i) - i - 3,
    ensures
        pieces(Rule::Un, wide, t, i + 3 + m) == pieces(Rule::Un, wide, t, i + 3) + t.subrange(
            i + 3,
            i + 3 + m,
        ),
    decreases m,
{
    reveal(piece);
    lemma_match(Rule::Un, wide, t, i);
    if m > 0 {
        lemma_un_tail(wide, t, i, m - 1);
        let k = i + 3 + m - 1;
        assert(piece(Rule::Un, wide, t, k) == seq![t[k]]);
    }
}

pub proof fn lemma_mark_head(wide: spec_fn(char) -> bool, t: Seq<char>, i: int, j: int)
    requires
        hits(Rule::SpacedMark, wide, t, i),
        i <= j <= blanks_end(t, i),
    ensures
        pieces(Rule::SpacedMark, wide, t, j) == pieces(Rule::SpacedMark, wide, t, i),
    decreases j,
{
    reveal(piece);
    lemma_blanks_end(t, i);
    if j > i {
        lemma_mark_head(wide, t, i, j - 1);
        assert(blanks_end(t, j - 1) == blanks_end(t, i));
        assert(hits(Rule::SpacedMark, wide, t, j - 1));
    }
}

proof fn lemma_blanks_tail(wide: spec_fn(char) -> bool, t: Seq<char>, i: int, j: int)
    requires
        hits(Rule::Blanks, wide, t, i),
        0 < i ==> !is_blank(t[i - 1]),
        i < j <= blanks_end(t, i),
    ensures
        pieces(Rule::Blanks, wide, t, j) == pieces(Rule::Blanks, wide, t, i) + seq![' '],
    decreases j,
{
    reveal(piece);
    lemma_blanks_end(t, i);
    if j > i + 1 {
        lemma_blanks_tail(wide, t, i, j - 1);
    }
}

/// A character outside every match stays.
proof fn lemma_kept(rule: Rule, wide: spec_fn(char) -> bool, t: Seq<char>, i: int)
    requires
        0 <= i < t.len(),
        is_cut(rule, wide, t, i),
        !hits(rule, wide, t, i),
    ensures
        piece(rule, wide, t, i) == seq![t[i]],
{
    reveal(piece);
    match rule {
        Rule::Blanks => {
            if is_blank(t[i]) && 0 < i && is_blank(t[i - 1]) {
                lemma_blanks_end(t, i - 1);
                lemma_blanks_end(t, i);
                assert(blanks_end(t, i) > i);
                assert(hits(rule, wide, t, i - 1));
            }
        },
        Rule::Un => {
            if hits(rule, wide, t, i - 1) {
                assert(match_end(rule, wide, t, i - 1) > i);
            }
            if hits(rule, wide, t, i - 2) {
                assert(match_end(rule, wide, t, i - 2) > i);
            }
        },
        _ => {},
    }
}

proof fn lemma_scan(rule: Rule, wide: spec_fn(char) -> bool, t: Seq<char>, i: int)
    requires
        0 <= i <= t.len(),
        is_cut(rule, wide, t, i),
    ensures
        pieces(rule, wide, t, i) + rewrite_from(rule, wide, t, i) == pieces(
            rule,
            wide,
            t,
            t.len() as int,
        ),
    decreases t.len() - i,
{
    if i < t.len() {
        let e = match_end(rule, wide, t, i);
        if hits(rule, wide, t, i) {
            lemma_match(rule, wide, t, i);
            lemma_match_pieces(rule, wide, t, i);
            lemma_scan(rule, wide, t, e);
        } else {
            lemma_scan(rule, wide, t, i + 1);
            lemma_kept(rule, wide, t, i);
        }
    }
}

/// Rewriting is turning every character into its piece.
pub proof fn lemma_pieces(rule: Rule, wide: spec_fn(char) -> bool, t: Seq<char>)
    ensures
        rewrite(rule, wide, t) == pieces(rule, wide, t, t.len() as int),
{
    lemma_scan(rule, wide, t, 0);
}

} // verus!

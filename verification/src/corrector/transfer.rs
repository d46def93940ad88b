//! How matches in a rewritten text trace back to the text it came from.

use crate::corrector::letters::{capital, same_letter, spells};
use crate::corrector::pieces::{
    hits, lemma_blanks_end, lemma_mark_head, lemma_match, lemma_pieces, piece, pieces,
};
use crate::corrector::spelling::{
    blanks_end, boundary, is_blank, is_mark, is_word, match_end, noun_end, rewrite, Rule,
};
use vstd::prelude::*;

verus! {

/// `rule` finds nothing to rewrite in `t`.
pub open spec fn is_clean(rule: Rule, wide: spec_fn(char) -> bool, t: Seq<char>) -> bool {
    forall|i: int| !#[trigger] hits(rule, wide, t, i)
}

/// Where the piece of the character at `i` starts in the rewritten text.
pub open spec fn landing(rule: Rule, wide: spec_fn(char) -> bool, t: Seq<char>, i: int) -> int {
    pieces(rule, wide, t, i).len() as int
}

pub proof fn lemma_prefix(rule: Rule, wide: spec_fn(char) -> bool, t: Seq<char>, i: int, n: int)
    requires
        0 <= i <= n <= t.len(),
    ensures
        landing(rule, wide, t, i) <= landing(rule, wide, t, n),
        pieces(rule, wide, t, n).take(landing(rule, wide, t, i)) == pieces(rule, wide, t, i),
    decreases n,
{
    if i < n {
        lemma_prefix(rule, wide, t, i, n - 1);
    }
}

/// The piece of the character at `i` stands where it lands.
pub proof fn lemma_landing(rule: Rule, wide: spec_fn(char) -> bool, t: Seq<char>, i: int)
    requires
        0 <= i < t.len(),
    ensures
        ({
            let u = rewrite(rule, wide, t);
            let p = piece(rule, wide, t, i);
            let at = landing(rule, wide, t, i);
            &&& 0 <= at
            &&& landing(rule, wide, t, i + 1) == at + p.len()
            &&& at + p.len() <= u.len()
            &&& u.take(at) == pieces(rule, wide, t, i)
            &&& forall|k: int| 0 <= k < p.len() ==> #[trigger] p[k] == u[at + k]
        }),
{
    let n = t.len() as int;
    let u = rewrite(rule, wide, t);
    let p = piece(rule, wide, t, i);
    let at = landing(rule, wide, t, i);
    lemma_pieces(rule, wide, t);
    lemma_prefix(rule, wide, t, i, n);
    lemma_prefix(rule, wide, t, i + 1, n);
    assert(pieces(rule, wide, t, i + 1) == pieces(rule, wide, t, i) + p);
    assert forall|k: int| 0 <= k < p.len() implies #[trigger] p[k] == u[at + k] by {
        assert(u.take(at + p.len())[at + k] == u[at + k]);
    }
}

proof fn lemma_source_before(
    rule: Rule,
    wide: spec_fn(char) -> bool,
    t: Seq<char>,
    q: int,
    n: int,
) -> (i: int)
    requires
        0 <= n <= t.len(),
        0 <= q < landing(rule, wide, t, n),
    ensures
        0 <= i < n,
        landing(rule, wide, t, i) <= q < landing(rule, wide, t, i + 1),
    decreases n,
{
    if landing(rule, wide, t, n - 1) <= q {
        n - 1
    } else {
        lemma_source_before(rule, wide, t, q, n - 1)
    }
}

/// The character that the one at `q` of the rewritten text came from.
pub proof fn lemma_source(
    rule: Rule,
    wide: spec_fn(char) -> bool,
    t: Seq<char>,
    q: int,
) -> (i: int)
    requires
        0 <= q < rewrite(rule, wide, t).len(),
    ensures
        0 <= i < t.len(),
        landing(rule, wide, t, i) <= q < landing(rule, wide, t, i + 1),
{
    lemma_pieces(rule, wide, t);
    lemma_source_before(rule, wide, t, q, t.len() as int)
}

/// `u` is `t` but for apostrophes turned into spaces and ASCII capitals turned
/// into small letters.
pub open spec fn is_softened(t: Seq<char>, u: Seq<char>) -> bool {
    &&& t.len() == u.len()
    &&& forall|j: int|
        0 <= j < t.len() ==> {
            ||| #[trigger] u[j] == t[j]
            ||| t[j] == '\'' && u[j] == ' '
            ||| 'a' <= u[j] <= 'z' && t[j] == capital(u[j])
        }
}

proof fn lemma_pointwise(rule: Rule, wide: spec_fn(char) -> bool, t: Seq<char>, n: int)
    requires
        rule is Qual || rule is Un,
        0 <= n <= t.len(),
    ensures
        landing(rule, wide, t, n) == n,
    decreases n,
{
    reveal(piece);
    if n > 0 {
        lemma_pointwise(rule, wide, t, n - 1);
    }
}

/// The rules that drop an apostrophe put a space in its place.
pub proof fn lemma_softens(rule: Rule, wide: spec_fn(char) -> bool, t: Seq<char>)
    requires
        rule is Qual || rule is Un,
    ensures
        is_softened(t, rewrite(rule, wide, t)),
        forall|j: int|
            0 <= j < t.len() ==> seq![#[trigger] rewrite(rule, wide, t)[j]] == piece(
                rule,
                wide,
                t,
                j,
            ),
{
    let u = rewrite(rule, wide, t);
    lemma_pieces(rule, wide, t);
    lemma_pointwise(rule, wide, t, t.len() as int);
    assert forall|j: int| 0 <= j < t.len() implies seq![#[trigger] u[j]] == piece(
        rule,
        wide,
        t,
        j,
    ) by {
        lemma_landing(rule, wide, t, j);
        lemma_pointwise(rule, wide, t, j);
        lemma_pointwise(rule, wide, t, j + 1);
        assert(piece(rule, wide, t, j)[0] == u[j + 0]);
    }
    assert forall|j: int| 0 <= j < t.len() implies {
        ||| #[trigger] u[j] == t[j]
        ||| t[j] == '\'' && u[j] == ' '
        ||| 'a' <= u[j] <= 'z' && t[j] == capital(u[j])
    } by {
        assert(seq![u[j]][0] == piece(rule, wide, t, j)[0]);
        if rule is Qual {
            lemma_qual_softens(wide, t, j);
        } else {
            lemma_un_softens(wide, t, j);
        }
    }
}

proof fn lemma_qual_softens(wide: spec_fn(char) -> bool, t: Seq<char>, j: int)
    requires
        0 <= j < t.len(),
    ensures
        ({
            let c = piece(Rule::Qual, wide, t, j)[0];
            c == t[j] || (t[j] == '\'' && c == ' ') || ('a' <= c <= 'z' && t[j] == capital(c))
        }),
{
    reveal(piece);
    assert(hits(Rule::Qual, wide, t, j - 1) ==> same_letter(t[j], 'u'));
    assert(hits(Rule::Qual, wide, t, j - 2) ==> same_letter(t[j], 'a'));
    assert(hits(Rule::Qual, wide, t, j - 3) ==> same_letter(t[j], 'l'));
    assert(hits(Rule::Qual, wide, t, j - 4) ==> t[j] == '\'');
}

proof fn lemma_un_softens(wide: spec_fn(char) -> bool, t: Seq<char>, j: int)
    requires
        0 <= j < t.len(),
    ensures
        ({
            let c = piece(Rule::Un, wide, t, j)[0];
            c == t[j] || (t[j] == '\'' && c == ' ') || ('a' <= c <= 'z' && t[j] == capital(c))
        }),
{
    reveal(piece);
    assert(hits(Rule::Un, wide, t, j - 1) ==> same_letter(t[j], 'n'));
    assert(hits(Rule::Un, wide, t, j - 2) ==> t[j] == '\'');
}

/// The letters and marks that the spelling rules look for.
pub open spec fn is_pattern_char(c: char) -> bool {
    'a' <= c <= 'z' || c == '\'' || c == 'è' || c == 'ò'
}

proof fn lemma_spells_soft(t: Seq<char>, u: Seq<char>, i: int, w: Seq<char>)
    requires
        is_softened(t, u),
        forall|k: int| 0 <= k < w.len() ==> is_pattern_char(#[trigger] w[k]),
        spells(u, i, w),
    ensures
        spells(t, i, w),
{
    assert forall|j: int| i <= j < i + w.len() implies same_letter(#[trigger] t[j], w[j - i]) by {
        assert(same_letter(u[j], w[j - i]));
        assert(is_pattern_char(w[j - i]));
    }
}

proof fn lemma_word_soft(wide: spec_fn(char) -> bool, t: Seq<char>, u: Seq<char>, j: int)
    requires
        is_softened(t, u),
        0 <= j < t.len(),
    ensures
        is_word(wide, u[j]) == is_word(wide, t[j]),
{
}

proof fn lemma_boundary_soft(wide: spec_fn(char) -> bool, t: Seq<char>, u: Seq<char>, i: int)
    requires
        is_softened(t, u),
    ensures
        boundary(wide, t, i) == boundary(wide, u, i),
{
    if 0 < i <= t.len() {
        lemma_word_soft(wide, t, u, i - 1);
    }
    if 0 <= i < t.len() {
        lemma_word_soft(wide, t, u, i);
    }
}

proof fn lemma_noun_soft(t: Seq<char>, u: Seq<char>, i: int)
    requires
        is_softened(t, u),
        noun_end(u, i) > i,
    ensures
        noun_end(t, i) == noun_end(u, i),
{
    if spells(u, i, seq!['a', 'l', 't', 'r', 'o']) {
        lemma_spells_soft(t, u, i, seq!['a', 'l', 't', 'r', 'o']);
    } else if spells(u, i, seq!['u', 'o', 'm', 'o']) {
        lemma_spells_soft(t, u, i, seq!['u', 'o', 'm', 'o']);
        assert(same_letter(t[i], 'u'));
    } else if spells(u, i, seq!['a', 'm', 'i', 'c', 'o']) {
        lemma_spells_soft(t, u, i, seq!['a', 'm', 'i', 'c', 'o']);
        assert(same_letter(t[i], 'a') && same_letter(t[i + 1], 'm'));
    } else if spells(u, i, seq!['a', 'n', 'n', 'o']) {
        lemma_spells_soft(t, u, i, seq!['a', 'n', 'n', 'o']);
        assert(same_letter(t[i], 'a') && same_letter(t[i + 1], 'n'));
    } else {
        lemma_spells_soft(t, u, i, seq!['a', 't', 't', 'i', 'm', 'o']);
        assert(same_letter(t[i], 'a') && same_letter(t[i + 1], 't'));
    }
}

/// A spelling rule that matches in a softened text matches in the text itself.
pub proof fn lemma_hits_soft(
    rule: Rule,
    wide: spec_fn(char) -> bool,
    t: Seq<char>,
    u: Seq<char>,
    i: int,
)
    requires
        rule is Poco || rule is Qual || rule is Un || rule is Accordo,
        is_softened(t, u),
        hits(rule, wide, u, i),
    ensures
        hits(rule, wide, t, i),
        match_end(rule, wide, t, i) == match_end(rule, wide, u, i),
{
    lemma_boundary_soft(wide, t, u, i);
    match rule {
        Rule::Poco => {
            lemma_spells_soft(t, u, i, seq!['p', 'ò']);
            lemma_boundary_soft(wide, t, u, i + 2);
        },
        Rule::Qual => {
            lemma_spells_soft(t, u, i, seq!['q', 'u', 'a', 'l', '\'']);
        },
        Rule::Un => {
            lemma_spells_soft(t, u, i, seq!['u', 'n', '\'']);
            lemma_noun_soft(t, u, i + 3);
            lemma_boundary_soft(wide, t, u, noun_end(u, i + 3));
        },
        Rule::Accordo => {
            lemma_spells_soft(t, u, i, seq!['d', 'a', 'c', 'c', 'o', 'r', 'd', 'o']);
            lemma_boundary_soft(wide, t, u, i + 8);
        },
        _ => {},
    }
}

/// The apostrophe of a match turns into a space.
proof fn lemma_apostrophe_goes(rule: Rule, wide: spec_fn(char) -> bool, t: Seq<char>, i: int)
    requires
        rule is Qual || rule is Un,
        hits(rule, wide, t, i),
    ensures
        rule is Qual ==> piece(rule, wide, t, i + 4) == seq![' '],
        rule is Un ==> piece(rule, wide, t, i + 2) == seq![' '],
{
    reveal(piece);
    lemma_match(rule, wide, t, i);
}

/// A match that starts at `i` has its apostrophe where it should.
proof fn lemma_apostrophe_at(rule: Rule, wide: spec_fn(char) -> bool, t: Seq<char>, i: int)
    requires
        rule is Qual || rule is Un,
        hits(rule, wide, t, i),
    ensures
        rule is Qual ==> i + 4 < t.len() && t[i + 4] == '\'',
        rule is Un ==> i + 2 < t.len() && t[i + 2] == '\'',
{
}

proof fn lemma_no_match_left(
    rule: Rule,
    wide: spec_fn(char) -> bool,
    t: Seq<char>,
    u: Seq<char>,
    i: int,
)
    requires
        rule is Qual || rule is Un,
        is_softened(t, u),
        forall|j: int|
            0 <= j < t.len() ==> seq![#[trigger] u[j]] == piece(rule, wide, t, j),
    ensures
        !hits(rule, wide, u, i),
{
    if hits(rule, wide, u, i) {
        lemma_hits_soft(rule, wide, t, u, i);
        lemma_apostrophe_at(rule, wide, u, i);
        lemma_apostrophe_goes(rule, wide, t, i);
        let a = if rule is Qual {
            i + 4
        } else {
            i + 2
        };
        assert(seq![u[a]][0] == seq![' '][0]);
    }
}

/// A rule that drops an apostrophe leaves itself nothing to do.
pub proof fn lemma_soft_rule_done(rule: Rule, wide: spec_fn(char) -> bool, t: Seq<char>)
    requires
        rule is Qual || rule is Un,
    ensures
        is_clean(rule, wide, rewrite(rule, wide, t)),
{
    let u = rewrite(rule, wide, t);
    lemma_softens(rule, wide, t);
    assert forall|i: int| !#[trigger] hits(rule, wide, u, i) by {
        lemma_no_match_left(rule, wide, t, u, i);
    }
}

/// Both are blanks or marks, or they are the same.
pub open spec fn is_alike(a: char, b: char) -> bool {
    a == b || ((is_blank(a) || is_mark(a)) && (is_blank(b) || is_mark(b)))
}

/// A stretch without blanks and marks in a respaced text stands in the text
/// itself, between like neighbours.
pub proof fn lemma_stretch(
    rule: Rule,
    wide: spec_fn(char) -> bool,
    t: Seq<char>,
    q: int,
    n: int,
) -> (i: int)
    requires
        rule is SpacedMark || rule is Blanks,
        0 <= q,
        0 < n,
        q + n <= rewrite(rule, wide, t).len(),
        forall|k: int|
            q <= k < q + n ==> !is_blank(#[trigger] rewrite(rule, wide, t)[k]) && !is_mark(
                rewrite(rule, wide, t)[k],
            ),
    ensures
        ({
            let u = rewrite(rule, wide, t);
            &&& 0 <= i
            &&& i + n <= t.len()
            &&& landing(rule, wide, t, i) == q
            &&& landing(rule, wide, t, i + n) == q + n
            &&& t.subrange(i, i + n) == u.subrange(q, q + n)
            &&& (0 < i <==> 0 < q)
            &&& (0 < i ==> is_alike(t[i - 1], u[q - 1]))
            &&& (i + n < t.len() <==> q + n < u.len())
            &&& (i + n < t.len() ==> is_alike(t[i + n], u[q + n]))
        }),
    decreases n,
{
    reveal(piece);
    let u = rewrite(rule, wide, t);
    lemma_pieces(rule, wide, t);
    if n == 1 {
        let i = lemma_source(rule, wide, t, q);
        lemma_landing(rule, wide, t, i);
        let p = piece(rule, wide, t, i);
        assert(p[0] == u[q + 0]);
        assert(p[0] == t[i]);
        lemma_left(rule, wide, t, i);
        lemma_right(rule, wide, t, i + 1);
        assert(t.subrange(i, i + 1) == u.subrange(q, q + 1));
        i
    } else {
        let i = lemma_stretch(rule, wide, t, q, n - 1);
        let e = i + n - 1;
        assert(t[e] == u[q + n - 1]);
        lemma_landing(rule, wide, t, e);
        assert(piece(rule, wide, t, e) == seq![t[e]]);
        lemma_right(rule, wide, t, e + 1);
        assert(t.subrange(i, i + n) == u.subrange(q, q + n));
        i
    }
}

/// What stands left of a character that is neither a blank nor a mark.
proof fn lemma_left(rule: Rule, wide: spec_fn(char) -> bool, t: Seq<char>, i: int)
    requires
        rule is SpacedMark || rule is Blanks,
        0 <= i < t.len(),
        !is_blank(t[i]) && !is_mark(t[i]),
    ensures
        0 < i <==> 0 < landing(rule, wide, t, i),
        0 < i ==> is_alike(t[i - 1], rewrite(rule, wide, t)[landing(rule, wide, t, i) - 1]),
{
    let u = rewrite(rule, wide, t);
    lemma_landing(rule, wide, t, i);
    if 0 < i {
        lemma_last_piece(rule, wide, t, i);
        assert(u.take(landing(rule, wide, t, i)).last() == u[landing(rule, wide, t, i) - 1]);
    }
}

/// The last character of what the first `i` turn into.
proof fn lemma_last_piece(rule: Rule, wide: spec_fn(char) -> bool, t: Seq<char>, i: int)
    requires
        rule is SpacedMark || rule is Blanks,
        0 < i <= t.len(),
        rule is SpacedMark && i < t.len() ==> !is_blank(t[i]) && !is_mark(t[i]),
        rule is SpacedMark ==> i < t.len(),
    ensures
        landing(rule, wide, t, i) > 0,
        is_alike(t[i - 1], pieces(rule, wide, t, i).last()),
        rule is Blanks ==> is_blank(t[i - 1]) == is_blank(pieces(rule, wide, t, i).last()),
    decreases i,
{
    reveal(piece);
    let p = piece(rule, wide, t, i - 1);
    if rule is SpacedMark {
        lemma_blanks_end(t, i - 1);
        assert(!hits(rule, wide, t, i - 1));
        assert(pieces(rule, wide, t, i).last() == t[i - 1]);
    } else if p.len() == 0 {
        lemma_last_piece(rule, wide, t, i - 1);
        assert(pieces(rule, wide, t, i) == pieces(rule, wide, t, i - 1));
    } else {
        assert(pieces(rule, wide, t, i).last() == p[0]);
        lemma_blanks_end(t, i - 1);
    }
}

/// What stands right of a character that is neither a blank nor a mark.
proof fn lemma_right(rule: Rule, wide: spec_fn(char) -> bool, t: Seq<char>, e: int)
    requires
        rule is SpacedMark || rule is Blanks,
        0 < e <= t.len(),
        !is_blank(t[e - 1]) && !is_mark(t[e - 1]),
    ensures
        e < t.len() <==> landing(rule, wide, t, e) < rewrite(rule, wide, t).len(),
        e < t.len() ==> is_alike(t[e], rewrite(rule, wide, t)[landing(rule, wide, t, e)]),
{
    reveal(piece);
    let u = rewrite(rule, wide, t);
    lemma_pieces(rule, wide, t);
    if e < t.len() {
        lemma_landing(rule, wide, t, e);
        let p = piece(rule, wide, t, e);
        lemma_blanks_end(t, e);
        if p.len() == 0 {
            assert(rule is SpacedMark);
            let m = blanks_end(t, e);
            lemma_mark_head(wide, t, e, m);
            lemma_landing(rule, wide, t, m);
            assert(piece(rule, wide, t, m) == seq![t[m]]);
            assert(piece(rule, wide, t, m)[0] == u[landing(rule, wide, t, m) + 0]);
        } else {
            assert(p[0] == u[landing(rule, wide, t, e) + 0]);
        }
    }
}

/// Neither a blank nor a mark stands in a match of a spelling rule.
proof fn lemma_match_solid(rule: Rule, wide: spec_fn(char) -> bool, u: Seq<char>, q: int)
    requires
        rule is Poco || rule is Qual || rule is Un || rule is Accordo,
        hits(rule, wide, u, q),
    ensures
        match_end(rule, wide, u, q) <= u.len(),
        forall|k: int|
            q <= k < match_end(rule, wide, u, q) ==> !is_blank(#[trigger] u[k]) && !is_mark(u[k]),
{
    lemma_match(rule, wide, u, q);
}

/// `t` holds from `i` on the `n` characters that `u` holds from `q` on, but
/// for capitals that are small letters in `u`.
pub open spec fn is_copy(t: Seq<char>, i: int, u: Seq<char>, q: int, n: int) -> bool {
    &&& 0 <= i && i + n <= t.len()
    &&& 0 <= q && q + n <= u.len()
    &&& forall|k: int|
        q <= k < q + n ==> {
            ||| #[trigger] u[k] == t[k - q + i]
            ||| 'a' <= u[k] <= 'z' && t[k - q + i] == capital(u[k])
        }
}

pub proof fn lemma_spells_copy(
    t: Seq<char>,
    i: int,
    u: Seq<char>,
    q: int,
    n: int,
    d: int,
    w: Seq<char>,
)
    requires
        is_copy(t, i, u, q, n),
        0 <= d,
        forall|k: int| 0 <= k < w.len() ==> is_pattern_char(#[trigger] w[k]),
        spells(u, q + d, w),
        d + w.len() <= n,
    ensures
        spells(t, i + d, w),
{
    assert forall|j: int| i + d <= j < i + d + w.len() implies same_letter(
        #[trigger] t[j],
        w[j - (i + d)],
    ) by {
        let k = j - i + q;
        assert(same_letter(u[k], w[k - (q + d)]));
        assert(is_pattern_char(w[k - (q + d)]));
    }
}

proof fn lemma_noun_copy(t: Seq<char>, i: int, u: Seq<char>, q: int, n: int, d: int)
    requires
        is_copy(t, i, u, q, n),
        0 <= d,
        noun_end(u, q + d) > q + d,
        noun_end(u, q + d) <= q + n,
    ensures
        noun_end(t, i + d) == noun_end(u, q + d) - q + i,
{
    if spells(u, q + d, seq!['a', 'l', 't', 'r', 'o']) {
        lemma_spells_copy(t, i, u, q, n, d, seq!['a', 'l', 't', 'r', 'o']);
    } else if spells(u, q + d, seq!['u', 'o', 'm', 'o']) {
        lemma_spells_copy(t, i, u, q, n, d, seq!['u', 'o', 'm', 'o']);
        assert(same_letter(t[i + d], 'u'));
    } else if spells(u, q + d, seq!['a', 'm', 'i', 'c', 'o']) {
        lemma_spells_copy(t, i, u, q, n, d, seq!['a', 'm', 'i', 'c', 'o']);
        assert(same_letter(t[i + d], 'a') && same_letter(t[i + d + 1], 'm'));
    } else if spells(u, q + d, seq!['a', 'n', 'n', 'o']) {
        lemma_spells_copy(t, i, u, q, n, d, seq!['a', 'n', 'n', 'o']);
        assert(same_letter(t[i + d], 'a') && same_letter(t[i + d + 1], 'n'));
    } else {
        lemma_spells_copy(t, i, u, q, n, d, seq!['a', 't', 't', 'i', 'm', 'o']);
        assert(same_letter(t[i + d], 'a') && same_letter(t[i + d + 1], 't'));
    }
}

/// A match that is copied between boundaries is a match of the copy.
proof fn lemma_hits_copy(
    rule: Rule,
    wide: spec_fn(char) -> bool,
    t: Seq<char>,
    i: int,
    u: Seq<char>,
    q: int,
)
    requires
        rule is Poco || rule is Qual || rule is Un || rule is Accordo,
        hits(rule, wide, u, q),
        is_copy(t, i, u, q, match_end(rule, wide, u, q) - q),
        boundary(wide, t, i),
        rule is Qual || boundary(wide, t, match_end(rule, wide, u, q) - q + i),
    ensures
        hits(rule, wide, t, i),
{
    let e = match_end(rule, wide, u, q);
    let n = e - q;
    match rule {
        Rule::Poco => {
            lemma_spells_copy(t, i, u, q, n, 0, seq!['p', 'ò']);
        },
        Rule::Qual => {
            lemma_spells_copy(t, i, u, q, n, 0, seq!['q', 'u', 'a', 'l', '\'']);
            assert(same_letter(u[q + 5], 'e') || same_letter(u[q + 5], 'è'));
            assert((q + 5) - q + i == i + 5);
        },
        Rule::Un => {
            lemma_spells_copy(t, i, u, q, n, 0, seq!['u', 'n', '\'']);
            lemma_noun_copy(t, i, u, q, n, 3);
        },
        Rule::Accordo => {
            lemma_spells_copy(t, i, u, q, n, 0, seq!['d', 'a', 'c', 'c', 'o', 'r', 'd', 'o']);
        },
        _ => {},
    }
}

/// A match starts at a boundary and, but for one rule, ends at one.
proof fn lemma_match_bounds(rule: Rule, wide: spec_fn(char) -> bool, u: Seq<char>, q: int)
    requires
        rule is Poco || rule is Qual || rule is Un || rule is Accordo,
        hits(rule, wide, u, q),
    ensures
        boundary(wide, u, q),
        rule is Qual || boundary(wide, u, match_end(rule, wide, u, q)),
{
}

/// The spacing rules make no work for a spelling rule.
pub proof fn lemma_clean_spaced(
    rule: Rule,
    spacing: Rule,
    wide: spec_fn(char) -> bool,
    t: Seq<char>,
)
    requires
        rule is Poco || rule is Qual || rule is Un || rule is Accordo,
        spacing is SpacedMark || spacing is Blanks,
        is_clean(rule, wide, t),
    ensures
        is_clean(rule, wide, rewrite(spacing, wide, t)),
{
    let u = rewrite(spacing, wide, t);
    assert forall|q: int| !#[trigger] hits(rule, wide, u, q) by {
        if hits(rule, wide, u, q) {
            let e = match_end(rule, wide, u, q);
            lemma_match_solid(rule, wide, u, q);
            lemma_match_bounds(rule, wide, u, q);
            let i = lemma_stretch(spacing, wide, t, q, e - q);
            assert(is_copy(t, i, u, q, e - q)) by {
                assert forall|k: int| q <= k < e implies #[trigger] u[k] == t[k - q + i] by {
                    assert(u.subrange(q, e)[k - q] == t.subrange(i, i + e - q)[k - q]);
                }
            }
            assert(u.subrange(q, e)[0] == t.subrange(i, i + e - q)[0]);
            assert(u.subrange(q, e)[e - q - 1] == t.subrange(i, i + e - q)[e - q - 1]);
            lemma_hits_copy(rule, wide, t, i, u, q);
            assert(hits(rule, wide, t, i));
        }
    }
}

/// The spacing rules leave themselves nothing to do, and collapsing blanks
/// puts none before a mark.
pub proof fn lemma_spacing_done(wide: spec_fn(char) -> bool, t: Seq<char>)
    ensures
        is_clean(Rule::SpacedMark, wide, rewrite(Rule::SpacedMark, wide, t)),
        is_clean(Rule::Blanks, wide, rewrite(Rule::Blanks, wide, t)),
        is_clean(Rule::SpacedMark, wide, t) ==> is_clean(
            Rule::SpacedMark,
            wide,
            rewrite(Rule::Blanks, wide, t),
        ),
{
    reveal(piece);
    let u = rewrite(Rule::SpacedMark, wide, t);
    assert forall|q: int| !#[trigger] hits(Rule::SpacedMark, wide, u, q) by {
        if hits(Rule::SpacedMark, wide, u, q) {
            lemma_blanks_end(u, q);
            let m = blanks_end(u, q);
            // The mark at `m` stays, and what is left of it is a blank.
            let j = lemma_source(Rule::SpacedMark, wide, t, m);
            lemma_landing(Rule::SpacedMark, wide, t, j);
            assert(piece(Rule::SpacedMark, wide, t, j)[0] == u[m + 0]);
            lemma_before_mark(wide, t, j);
            assert(u.take(m).last() == u[m - 1]);
        }
    }
    let v = rewrite(Rule::Blanks, wide, t);
    assert forall|q: int| !#[trigger] hits(Rule::Blanks, wide, v, q) by {
        if hits(Rule::Blanks, wide, v, q) {
            lemma_blanks_end(v, q);
            lemma_single_blank(wide, t, q + 1);
        }
    }
    if is_clean(Rule::SpacedMark, wide, t) {
        assert forall|q: int| !#[trigger] hits(Rule::SpacedMark, wide, v, q) by {
            if hits(Rule::SpacedMark, wide, v, q) {
                lemma_blanks_end(v, q);
                let m = blanks_end(v, q);
                let j = lemma_source(Rule::Blanks, wide, t, m);
                lemma_landing(Rule::Blanks, wide, t, j);
                assert(piece(Rule::Blanks, wide, t, j)[0] == v[m + 0]);
                assert(landing(Rule::Blanks, wide, t, j) == m);
                assert(v.take(m).last() == v[m - 1]);
                assert(0 < j) by {
                    assert(pieces(Rule::Blanks, wide, t, 0).len() == 0);
                }
                lemma_last_piece(Rule::Blanks, wide, t, j);
                assert(is_blank(t[j - 1]));
                assert(blanks_end(t, j) == j);
                assert(blanks_end(t, j - 1) == j);
                assert(hits(Rule::SpacedMark, wide, t, j - 1));
            }
        }
    }
}

/// Once blanks before marks are gone, a kept mark has no blank before it.
proof fn lemma_before_mark(wide: spec_fn(char) -> bool, t: Seq<char>, j: int)
    requires
        0 <= j < t.len(),
        is_mark(t[j]),
    ensures
        landing(Rule::SpacedMark, wide, t, j) > 0 ==> !is_blank(
            pieces(Rule::SpacedMark, wide, t, j).last(),
        ),
{
    lemma_before_mark_from(wide, t, j, j);
}

proof fn lemma_before_mark_from(wide: spec_fn(char) -> bool, t: Seq<char>, j: int, i: int)
    requires
        0 <= i <= j < t.len(),
        is_mark(t[j]),
        forall|k: int| i <= k < j ==> is_blank(#[trigger] t[k]),
    ensures
        landing(Rule::SpacedMark, wide, t, i) > 0 ==> !is_blank(
            pieces(Rule::SpacedMark, wide, t, i).last(),
        ),
    decreases i,
{
    reveal(piece);
    if 0 < i {
        if is_blank(t[i - 1]) {
            lemma_run_to(t, i - 1, j);
            assert(hits(Rule::SpacedMark, wide, t, i - 1));
            assert(pieces(Rule::SpacedMark, wide, t, i) == pieces(
                Rule::SpacedMark,
                wide,
                t,
                i - 1,
            ));
            lemma_before_mark_from(wide, t, j, i - 1);
        } else {
            assert(!hits(Rule::SpacedMark, wide, t, i - 1));
            assert(pieces(Rule::SpacedMark, wide, t, i).last() == t[i - 1]);
        }
    }
}

proof fn lemma_run_to(t: Seq<char>, i: int, j: int)
    requires
        0 <= i <= j < t.len(),
        !is_blank(t[j]),
        forall|k: int| i <= k < j ==> is_blank(#[trigger] t[k]),
    ensures
        blanks_end(t, i) == j,
    decreases j - i,
{
    if i < j {
        lemma_run_to(t, i + 1, j);
    }
}

/// Once runs of blanks are collapsed, no two blanks stand side by side.
proof fn lemma_single_blank(wide: spec_fn(char) -> bool, t: Seq<char>, q: int)
    requires
        0 < q < rewrite(Rule::Blanks, wide, t).len(),
    ensures
        !is_blank(rewrite(Rule::Blanks, wide, t)[q]) || !is_blank(
            rewrite(Rule::Blanks, wide, t)[q - 1],
        ),
{
    reveal(piece);
    let v = rewrite(Rule::Blanks, wide, t);
    let j = lemma_source(Rule::Blanks, wide, t, q);
    lemma_landing(Rule::Blanks, wide, t, j);
    assert(landing(Rule::Blanks, wide, t, j) == q);
    assert(piece(Rule::Blanks, wide, t, j)[0] == v[q + 0]);
    assert(v.take(q).last() == v[q - 1]);
    assert(0 < j) by {
        assert(pieces(Rule::Blanks, wide, t, 0).len() == 0);
    }
    lemma_last_piece(Rule::Blanks, wide, t, j);
    lemma_blanks_end(t, j);
}

/// A piece is one character, or two of which the second is an inserted
/// apostrophe.
pub proof fn lemma_shape(rule: Rule, wide: spec_fn(char) -> bool, t: Seq<char>, j: int)
    requires
        rule is Poco || rule is Accordo,
    ensures
        ({
            let p = piece(rule, wide, t, j);
            p.len() == 1 || (p.len() == 2 && p[1] == '\'' && (p[0] == 'o' || p[0] == 'd'))
        }),
{
    reveal(piece);
}

/// A stretch of a text with inserted apostrophes that holds none of those
/// came from characters side by side.
pub proof fn lemma_solid(
    rule: Rule,
    wide: spec_fn(char) -> bool,
    t: Seq<char>,
    q: int,
    n: int,
) -> (i: int)
    requires
        rule is Poco || rule is Accordo,
        0 <= q,
        0 < n,
        q + n <= rewrite(rule, wide, t).len(),
        rewrite(rule, wide, t)[q] != '\'',
        forall|k: int|
            q < k < q + n && #[trigger] rewrite(rule, wide, t)[k] == '\'' ==> rewrite(
                rule,
                wide,
                t,
            )[k - 1] != 'o' && rewrite(rule, wide, t)[k - 1] != 'd',
    ensures
        0 <= i,
        i + n <= t.len(),
        forall|k: int| i <= k < i + n ==> #[trigger] landing(rule, wide, t, k) == q + k - i,
        forall|k: int|
            i <= k < i + n ==> (#[trigger] piece(rule, wide, t, k))[0] == rewrite(
                rule,
                wide,
                t,
            )[q + k - i],
    decreases n,
{
    let u = rewrite(rule, wide, t);
    lemma_pieces(rule, wide, t);
    if n == 1 {
        let i = lemma_source(rule, wide, t, q);
        lemma_landing(rule, wide, t, i);
        lemma_shape(rule, wide, t, i);
        let p = piece(rule, wide, t, i);
        if landing(rule, wide, t, i) < q {
            assert(p[1] == u[landing(rule, wide, t, i) + 1]);
        }
        assert(p[0] == u[landing(rule, wide, t, i) + 0]);
        i
    } else {
        let i = lemma_solid(rule, wide, t, q, n - 1);
        let e = i + n - 2;
        lemma_landing(rule, wide, t, e);
        lemma_shape(rule, wide, t, e);
        let p = piece(rule, wide, t, e);
        assert(landing(rule, wide, t, e) == q + n - 2);
        assert(p[0] == u[q + n - 2]);
        if p.len() == 2 {
            assert(p[1] == u[q + n - 2 + 1]);
        }
        assert(landing(rule, wide, t, e + 1) == q + n - 1);
        assert(e + 1 < t.len());
        lemma_landing(rule, wide, t, e + 1);
        lemma_shape(rule, wide, t, e + 1);
        assert(piece(rule, wide, t, e + 1)[0] == u[q + n - 1 + 0]);
        i
    }
}

/// The first character of a piece is a word character where its source is.
pub proof fn lemma_first_word(rule: Rule, wide: spec_fn(char) -> bool, t: Seq<char>, j: int)
    requires
        rule is Poco || rule is Accordo,
        0 <= j < t.len(),
    ensures
        is_word(wide, piece(rule, wide, t, j)[0]) == is_word(wide, t[j]),
        rule is Accordo ==> piece(rule, wide, t, j)[0] == t[j] || ('a' <= piece(
            rule,
            wide,
            t,
            j,
        )[0] <= 'z' && t[j] == capital(piece(rule, wide, t, j)[0])),
{
    reveal(piece);
    match rule {
        Rule::Poco => {},
        _ => {
            assert(hits(rule, wide, t, j - 1) ==> same_letter(t[j], 'a'));
            assert(hits(rule, wide, t, j - 2) ==> same_letter(t[j], 'c'));
            assert(hits(rule, wide, t, j - 3) ==> same_letter(t[j], 'c'));
            assert(hits(rule, wide, t, j - 4) ==> same_letter(t[j], 'o'));
            assert(hits(rule, wide, t, j - 5) ==> same_letter(t[j], 'r'));
            assert(hits(rule, wide, t, j - 6) ==> same_letter(t[j], 'd'));
            assert(hits(rule, wide, t, j - 7) ==> same_letter(t[j], 'o'));
        },
    }
}

/// Where no apostrophe was put at the ends of a stretch, the boundaries there
/// are those of the text itself.
proof fn lemma_ends(rule: Rule, wide: spec_fn(char) -> bool, t: Seq<char>, i: int)
    requires
        rule is Poco || rule is Accordo,
        0 <= i <= t.len(),
        0 < i ==> piece(rule, wide, t, i - 1).len() == 1,
    ensures
        boundary(wide, rewrite(rule, wide, t), landing(rule, wide, t, i)) == boundary(wide, t, i),
{
    let u = rewrite(rule, wide, t);
    lemma_pieces(rule, wide, t);
    if 0 < i {
        lemma_landing(rule, wide, t, i - 1);
        lemma_first_word(rule, wide, t, i - 1);
        assert(piece(rule, wide, t, i - 1)[0] == u[landing(rule, wide, t, i - 1) + 0]);
    } else {
        assert(landing(rule, wide, t, i) == 0);
    }
    if i < t.len() {
        lemma_landing(rule, wide, t, i);
        lemma_shape(rule, wide, t, i);
        lemma_first_word(rule, wide, t, i);
        assert(piece(rule, wide, t, i)[0] == u[landing(rule, wide, t, i) + 0]);
    }
}

/// Rewriting `pò` leaves none.
pub proof fn lemma_poco_done(wide: spec_fn(char) -> bool, t: Seq<char>)
    ensures
        is_clean(Rule::Poco, wide, rewrite(Rule::Poco, wide, t)),
{
    reveal(piece);
    let r = Rule::Poco;
    let u = rewrite(r, wide, t);
    assert forall|q: int| !#[trigger] hits(r, wide, u, q) by {
        if hits(r, wide, u, q) {
            let i = lemma_solid(r, wide, t, q, 2);
            assert(piece(r, wide, t, i)[0] == u[q + i - i]);
            assert(piece(r, wide, t, i + 1)[0] == u[q + (i + 1) - i]);
            assert(same_letter(u[q], 'p') && same_letter(u[q + 1], 'ò'));
            assert(piece(r, wide, t, i + 1) == seq![t[i + 1]]);
            assert(!hits(r, wide, t, i));
            assert(piece(r, wide, t, i) == seq![t[i]]);
            if 0 < i && hits(r, wide, t, i - 2) {
                assert(boundary(wide, t, i));
                assert(same_letter(t[i - 1], 'ò'));
            }
            lemma_ends(r, wide, t, i);
            lemma_ends(r, wide, t, i + 2);
            lemma_landing(r, wide, t, i + 1);
            assert(landing(r, wide, t, i) == q);
            assert(landing(r, wide, t, i + 1) == q + 1);
            assert(spells(t, i, seq!['p', 'ò']));
            assert(hits(r, wide, t, i));
        }
    }
}

/// What stands at the ends of a match and before its apostrophes.
proof fn lemma_match_letters(rule: Rule, wide: spec_fn(char) -> bool, u: Seq<char>, q: int)
    requires
        rule is Poco || rule is Qual || rule is Un || rule is Accordo,
        hits(rule, wide, u, q),
    ensures
        q + 2 <= match_end(rule, wide, u, q) <= u.len(),
        same_letter(u[q], 'p') || same_letter(u[q], 'q') || same_letter(u[q], 'u') || same_letter(
            u[q],
            'd',
        ),
        rule is Qual || same_letter(u[match_end(rule, wide, u, q) - 1], 'o') || same_letter(
            u[match_end(rule, wide, u, q) - 1],
            'ò',
        ),
        forall|k: int|
            q < k < match_end(rule, wide, u, q) && #[trigger] u[k] == '\'' ==> same_letter(
                u[k - 1],
                'l',
            ) || same_letter(u[k - 1], 'n'),
{
    lemma_match(rule, wide, u, q);
    match rule {
        Rule::Qual => {
            assert(same_letter(u[q + 1], 'u') && same_letter(u[q + 2], 'a') && same_letter(
                u[q + 3],
                'l',
            ));
        },
        Rule::Un => {
            assert(same_letter(u[q + 1], 'n'));
        },
        _ => {},
    }
}

/// Where a stretch of `d'accordo` text came from, case aside.
proof fn lemma_accordo_copy(wide: spec_fn(char) -> bool, t: Seq<char>, q: int, n: int, i: int)
    requires
        0 < n,
        0 <= q,
        0 <= i,
        q + n <= rewrite(Rule::Accordo, wide, t).len(),
        i + n <= t.len(),
        forall|k: int|
            i <= k < i + n ==> (#[trigger] piece(Rule::Accordo, wide, t, k))[0] == rewrite(
                Rule::Accordo,
                wide,
                t,
            )[q + k - i],
    ensures
        is_copy(t, i, rewrite(Rule::Accordo, wide, t), q, n),
{
    let u = rewrite(Rule::Accordo, wide, t);
    assert forall|k: int| q <= k < q + n implies {
        ||| #[trigger] u[k] == t[k - q + i]
        ||| 'a' <= u[k] <= 'z' && t[k - q + i] == capital(u[k])
    } by {
        lemma_first_word(Rule::Accordo, wide, t, k - q + i);
        assert(piece(Rule::Accordo, wide, t, k - q + i)[0] == u[q + (k - q + i) - i]);
    }
}

/// Only the first letter of `daccordo` gets an apostrophe.
proof fn lemma_accordo_long(wide: spec_fn(char) -> bool, t: Seq<char>, j: int)
    requires
        0 <= j < t.len(),
    ensures
        piece(Rule::Accordo, wide, t, j).len() != 1 <==> hits(Rule::Accordo, wide, t, j),
        hits(Rule::Accordo, wide, t, j) ==> piece(Rule::Accordo, wide, t, j)[0] == 'd'
            && j + 1 < t.len() && same_letter(t[j + 1], 'a'),
{
    reveal(piece);
}

/// Rewriting `daccordo` leaves none, and makes no work for the other spelling
/// rules.
pub proof fn lemma_clean_accordo(rule: Rule, wide: spec_fn(char) -> bool, t: Seq<char>)
    requires
        rule is Poco || rule is Qual || rule is Un || rule is Accordo,
        rule is Accordo || is_clean(rule, wide, t),
    ensures
        is_clean(rule, wide, rewrite(Rule::Accordo, wide, t)),
{
    let u = rewrite(Rule::Accordo, wide, t);
    assert forall|q: int| !#[trigger] hits(rule, wide, u, q) by {
        lemma_no_match_accordo(rule, wide, t, q);
    }
}

proof fn lemma_no_match_accordo(rule: Rule, wide: spec_fn(char) -> bool, t: Seq<char>, q: int)
    requires
        rule is Poco || rule is Qual || rule is Un || rule is Accordo,
        rule is Accordo || is_clean(rule, wide, t),
    ensures
        !hits(rule, wide, rewrite(Rule::Accordo, wide, t), q),
{
    let r = Rule::Accordo;
    let u = rewrite(r, wide, t);
    if hits(rule, wide, u, q) {
        let e = match_end(rule, wide, u, q);
        let n = e - q;
        lemma_match_letters(rule, wide, u, q);
        lemma_match_bounds(rule, wide, u, q);
        let i = lemma_solid(r, wide, t, q, n);
        lemma_accordo_copy(wide, t, q, n, i);
        assert(landing(r, wide, t, i) == q);
        assert(landing(r, wide, t, i + n - 1) == q + n - 1);
        assert(piece(r, wide, t, i + n - 1)[0] == u[q + (i + n - 1) - i]);
        if 0 < i {
            lemma_accordo_long(wide, t, i - 1);
            assert(u[q] == t[q - q + i] || t[q - q + i] == capital(u[q]));
        }
        lemma_ends(r, wide, t, i);
        if !(rule is Qual) {
            lemma_accordo_long(wide, t, i + n - 1);
            lemma_landing(r, wide, t, i + n - 1);
            lemma_ends(r, wide, t, i + n);
        }
        lemma_hits_copy(rule, wide, t, i, u, q);
        assert(hits(rule, wide, t, i));
        lemma_accordo_long(wide, t, i);
        lemma_shape(r, wide, t, i);
        lemma_landing(r, wide, t, i);
        assert(landing(r, wide, t, i + 1) == q + (i + 1) - i);
    }
}

} // verus!

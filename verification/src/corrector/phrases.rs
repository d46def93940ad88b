//! What the corrections come to, phrase by phrase.

use crate::corrector::accents::{accented, accented_from, accented_word, word_end};
use crate::corrector::corrected;
use crate::corrector::laws::law_corrected_is_correct;
use crate::corrector::letters::{same_letter, spells};
use crate::corrector::pieces::{hits, lemma_blanks_end, lemma_pieces, piece, pieces};
use crate::corrector::spelling::{
    blanks_end, boundary, is_blank, is_mark, is_word, match_end, noun_end, respaced, respelled,
    rewrite, rewrite_from, rewritten, Rule,
};
use crate::corrector::words::{law_accent_keeps_the_word, without_accent};
use crate::text::ascii_lower;
use vstd::prelude::*;

verus! {

/// Whether a character keeps phrases apart: it is no word character and no
/// apostrophe.
pub open spec fn separates(wide: spec_fn(char) -> bool, c: char) -> bool {
    !is_word(wide, c) && c != '\''
}

/// Of the ASCII characters, all but letters, digits, the underscore and the
/// apostrophe keep phrases apart.
pub proof fn law_blanks_and_marks_keep_phrases_apart(wide: spec_fn(char) -> bool, c: char)
    requires
        c <= '\u{7f}',
    ensures
        separates(wide, c) <==> !('a' <= c <= 'z') && !('A' <= c <= 'Z') && !('0' <= c <= '9') && c
            != '_' && c != '\'',
{
}

/// The rules that correct spellings.
spec fn is_spelling(rule: Rule) -> bool {
    rule is Poco || rule is Qual || rule is Un || rule is Accordo
}

proof fn lemma_spells_cut(a: Seq<char>, c: char, b: Seq<char>, i: int, w: Seq<char>)
    requires
        0 <= i <= a.len(),
        forall|j: int| 0 <= j < w.len() ==> !same_letter(c, #[trigger] w[j]),
    ensures
        spells(a + seq![c] + b, i, w) == spells(a, i, w),
{
    let t = a + seq![c] + b;
    let n = a.len() as int;
    assert(t[n] == c);
    if i + w.len() <= n {
        assert forall|j: int| i <= j < i + w.len() implies t[j] == a[j] by {}
        if spells(t, i, w) {
            assert forall|j: int| i <= j < i + w.len() implies same_letter(
                #[trigger] a[j],
                w[j - i],
            ) by {
                assert(same_letter(t[j], w[j - i]));
            }
        }
    } else if spells(t, i, w) {
        assert(same_letter(t[n], w[n - i]));
    }
}

proof fn lemma_spells_shift(t: Seq<char>, m: int, i: int, w: Seq<char>)
    requires
        0 <= m <= t.len(),
        0 <= i,
    ensures
        spells(t, m + i, w) == spells(t.skip(m), i, w),
{
    let u = t.skip(m);
    if spells(t, m + i, w) {
        assert forall|j: int| i <= j < i + w.len() implies same_letter(
            #[trigger] u[j],
            w[j - i],
        ) by {
            assert(same_letter(t[m + j], w[m + j - (m + i)]));
        }
    }
    if spells(u, i, w) {
        assert forall|j: int| m + i <= j < m + i + w.len() implies same_letter(
            #[trigger] t[j],
            w[j - (m + i)],
        ) by {
            assert(same_letter(u[j - m], w[j - m - i]));
        }
    }
}

proof fn lemma_match_cut(
    rule: Rule,
    wide: spec_fn(char) -> bool,
    a: Seq<char>,
    c: char,
    b: Seq<char>,
    i: int,
)
    requires
        is_spelling(rule),
        separates(wide, c),
        0 <= i <= a.len(),
    ensures
        match_end(rule, wide, a + seq![c] + b, i) == match_end(rule, wide, a, i),
        match_end(rule, wide, a, i) <= a.len(),
        i <= match_end(rule, wide, a, i),
{
    let t = a + seq![c] + b;
    let n = a.len() as int;
    assert(t[n] == c && !is_word(wide, c));
    assert forall|k: int| 0 <= k <= n implies #[trigger] boundary(wide, t, k) == boundary(
        wide,
        a,
        k,
    ) by {
        if k > 0 {
            assert(t[k - 1] == a[k - 1]);
        }
        if k < n {
            assert(t[k] == a[k]);
        }
    }
    let po = seq!['p', 'ò'];
    let qual = seq!['q', 'u', 'a', 'l', '\''];
    let un = seq!['u', 'n', '\''];
    let accordo = seq!['d', 'a', 'c', 'c', 'o', 'r', 'd', 'o'];
    lemma_spells_cut(a, c, b, i, po);
    lemma_spells_cut(a, c, b, i, qual);
    lemma_spells_cut(a, c, b, i, un);
    lemma_spells_cut(a, c, b, i, accordo);
    match rule {
        Rule::Qual => {
            if spells(a, i, qual) && i + 5 < t.len() {
                if i + 5 < n {
                    assert(t[i + 5] == a[i + 5]);
                } else {
                    assert(t[i + 5] == c);
                }
            }
        },
        Rule::Un => {
            if spells(a, i, un) {
                lemma_spells_cut(a, c, b, i + 3, seq!['a', 'l', 't', 'r', 'o']);
                lemma_spells_cut(a, c, b, i + 3, seq!['u', 'o', 'm', 'o']);
                lemma_spells_cut(a, c, b, i + 3, seq!['a', 'm', 'i', 'c', 'o']);
                lemma_spells_cut(a, c, b, i + 3, seq!['a', 'n', 'n', 'o']);
                lemma_spells_cut(a, c, b, i + 3, seq!['a', 't', 't', 'i', 'm', 'o']);
                assert(noun_end(t, i + 3) == noun_end(a, i + 3));
            }
        },
        _ => {},
    }
}

proof fn lemma_match_shift(rule: Rule, wide: spec_fn(char) -> bool, t: Seq<char>, m: int, i: int)
    requires
        is_spelling(rule),
        0 < m <= t.len(),
        separates(wide, t[m - 1]),
        0 <= i <= t.len() - m,
    ensures
        match_end(rule, wide, t, m + i) == m + match_end(rule, wide, t.skip(m), i),
{
    let u = t.skip(m);
    assert(!is_word(wide, t[m - 1]));
    assert forall|k: int| 0 <= k <= u.len() implies #[trigger] boundary(wide, u, k) == boundary(
        wide,
        t,
        m + k,
    ) by {
        if k > 0 {
            assert(u[k - 1] == t[m + k - 1]);
        }
        if k < u.len() {
            assert(u[k] == t[m + k]);
        }
    }
    let po = seq!['p', 'ò'];
    let qual = seq!['q', 'u', 'a', 'l', '\''];
    let un = seq!['u', 'n', '\''];
    let accordo = seq!['d', 'a', 'c', 'c', 'o', 'r', 'd', 'o'];
    lemma_spells_shift(t, m, i, po);
    lemma_spells_shift(t, m, i, qual);
    lemma_spells_shift(t, m, i, un);
    lemma_spells_shift(t, m, i, accordo);
    assert(boundary(wide, u, i) == boundary(wide, t, m + i));
    match rule {
        Rule::Poco => {
            if spells(u, i, po) {
                assert(boundary(wide, u, i + 2) == boundary(wide, t, m + (i + 2)));
            }
        },
        Rule::Qual => {
            if i + 5 < u.len() {
                assert(u[i + 5] == t[m + i + 5]);
            }
        },
        Rule::Un => {
            lemma_spells_shift(t, m, i + 3, seq!['a', 'l', 't', 'r', 'o']);
            lemma_spells_shift(t, m, i + 3, seq!['u', 'o', 'm', 'o']);
            lemma_spells_shift(t, m, i + 3, seq!['a', 'm', 'i', 'c', 'o']);
            lemma_spells_shift(t, m, i + 3, seq!['a', 'n', 'n', 'o']);
            lemma_spells_shift(t, m, i + 3, seq!['a', 't', 't', 'i', 'm', 'o']);
            let e = noun_end(u, i + 3);
            assert(noun_end(t, m + i + 3) == m + e);
            if spells(u, i, un) && i + 3 < e {
                assert(boundary(wide, u, e) == boundary(wide, t, m + e));
            }
        },
        _ => {
            if spells(u, i, accordo) {
                assert(boundary(wide, u, i + 8) == boundary(wide, t, m + (i + 8)));
            }
        },
    }
}

proof fn lemma_rewrite_shift(
    rule: Rule,
    wide: spec_fn(char) -> bool,
    t: Seq<char>,
    m: int,
    i: int,
)
    requires
        is_spelling(rule),
        0 < m <= t.len(),
        separates(wide, t[m - 1]),
        0 <= i <= t.len() - m,
    ensures
        rewrite_from(rule, wide, t, m + i) == rewrite_from(rule, wide, t.skip(m), i),
    decreases t.len() - m - i,
{
    let u = t.skip(m);
    if i < u.len() {
        lemma_match_shift(rule, wide, t, m, i);
        let e = match_end(rule, wide, u, i);
        assert(u[i] == t[m + i]);
        if i < e <= u.len() {
            assert(u[e - 1] == t[m + e - 1]);
            if rule is Un {
                assert(hits(rule, wide, u, i));
                assert(i + 3 < e);
                assert(u.subrange(i + 3, e) =~= t.subrange(m + i + 3, m + e));
            }
            assert(rewritten(rule, u, i, e) =~= rewritten(rule, t, m + i, m + e));
            lemma_rewrite_shift(rule, wide, t, m, e);
        } else {
            lemma_rewrite_shift(rule, wide, t, m, i + 1);
        }
    }
}

proof fn lemma_rewrite_cut(
    rule: Rule,
    wide: spec_fn(char) -> bool,
    a: Seq<char>,
    c: char,
    b: Seq<char>,
    i: int,
)
    requires
        is_spelling(rule),
        separates(wide, c),
        0 <= i <= a.len(),
    ensures
        rewrite_from(rule, wide, a + seq![c] + b, i) == rewrite_from(rule, wide, a, i) + seq![c]
            + rewrite(rule, wide, b),
    decreases a.len() - i,
{
    let t = a + seq![c] + b;
    let n = a.len() as int;
    let rest = rewrite(rule, wide, b);
    lemma_match_cut(rule, wide, a, c, b, i);
    let e = match_end(rule, wide, a, i);
    if i < n {
        assert(t[i] == a[i]);
        if i < e {
            assert(t[e - 1] == a[e - 1]);
            if rule is Un {
                assert(t.subrange(i + 3, e) =~= a.subrange(i + 3, e));
            }
            assert(rewritten(rule, t, i, e) =~= rewritten(rule, a, i, e));
            lemma_rewrite_cut(rule, wide, a, c, b, e);
        } else {
            lemma_rewrite_cut(rule, wide, a, c, b, i + 1);
        }
        assert(rewrite_from(rule, wide, t, i) =~= rewrite_from(rule, wide, a, i) + seq![c] + rest);
    } else {
        assert(t[n] == c);
        lemma_rewrite_shift(rule, wide, t, n + 1, 0);
        assert(t.skip(n + 1) =~= b);
        assert(rewrite_from(rule, wide, t, n) == seq![c] + rewrite_from(rule, wide, t, n + 1));
        assert(rewrite_from(rule, wide, t, n) =~= rewrite_from(rule, wide, a, n) + seq![c] + rest);
    }
}

/// Spellings are corrected phrase by phrase: what keeps two phrases apart stays,
/// and each side of it is seen to on its own.
pub proof fn law_spellings_go_phrase_by_phrase(
    wide: spec_fn(char) -> bool,
    a: Seq<char>,
    c: char,
    b: Seq<char>,
)
    requires
        separates(wide, c),
    ensures
        respelled(wide, a + seq![c] + b) == respelled(wide, a) + seq![c] + respelled(wide, b),
        respelled(wide, Seq::empty()) == Seq::<char>::empty(),
{
    lemma_rewrite_cut(Rule::Poco, wide, a, c, b, 0);
    let a1 = rewrite(Rule::Poco, wide, a);
    let b1 = rewrite(Rule::Poco, wide, b);
    lemma_rewrite_cut(Rule::Qual, wide, a1, c, b1, 0);
    let a2 = rewrite(Rule::Qual, wide, a1);
    let b2 = rewrite(Rule::Qual, wide, b1);
    lemma_rewrite_cut(Rule::Un, wide, a2, c, b2, 0);
    let a3 = rewrite(Rule::Un, wide, a2);
    let b3 = rewrite(Rule::Un, wide, b2);
    lemma_rewrite_cut(Rule::Accordo, wide, a3, c, b3, 0);
}

proof fn lemma_no_hits(rule: Rule, wide: spec_fn(char) -> bool, t: Seq<char>, i: int)
    requires
        0 <= i <= t.len(),
        forall|s: int| i <= s < t.len() ==> !#[trigger] hits(rule, wide, t, s),
    ensures
        rewrite_from(rule, wide, t, i) == t.skip(i),
    decreases t.len() - i,
{
    if i < t.len() {
        assert(!hits(rule, wide, t, i));
        lemma_no_hits(rule, wide, t, i + 1);
        assert(seq![t[i]] + t.skip(i + 1) =~= t.skip(i));
    } else {
        assert(t.skip(i) =~= Seq::<char>::empty());
    }
}

/// A rule whose letters do not all occur in a text has nothing to rewrite there.
proof fn lemma_unmoved(rule: Rule, wide: spec_fn(char) -> bool, t: Seq<char>)
    requires
        is_spelling(rule),
        rule is Poco ==> forall|k: int|
            0 <= k < t.len() ==> #[trigger] t[k] != 'ò' && t[k] != 'Ò',
        rule is Qual || rule is Un ==> forall|k: int| 0 <= k < t.len() ==> #[trigger] t[k] != '\'',
        rule is Accordo ==> forall|k: int|
            0 <= k < t.len() ==> #[trigger] t[k] != 'd' && t[k] != 'D',
    ensures
        rewrite(rule, wide, t) == t,
{
    assert forall|s: int| 0 <= s < t.len() implies !#[trigger] hits(rule, wide, t, s) by {
        if hits(rule, wide, t, s) {
            match rule {
                Rule::Poco => {
                    assert(same_letter(t[s + 1], seq!['p', 'ò'][s + 1 - s]));
                },
                Rule::Qual => {
                    assert(same_letter(t[s + 4], seq!['q', 'u', 'a', 'l', '\''][s + 4 - s]));
                },
                Rule::Un => {
                    assert(same_letter(t[s + 2], seq!['u', 'n', '\''][s + 2 - s]));
                },
                _ => {
                    assert(same_letter(
                        t[s + 0],
                        seq!['d', 'a', 'c', 'c', 'o', 'r', 'd', 'o'][s - s],
                    ));
                },
            }
        }
    }
    lemma_no_hits(rule, wide, t, 0);
    assert(t.skip(0) =~= t);
}

/// "pò" is cut from "poco": in any case it becomes "po" with an apostrophe.
pub proof fn law_poco_takes_an_apostrophe(wide: spec_fn(char) -> bool, p: char, o: char)
    requires
        p == 'p' || p == 'P',
        o == 'ò' || o == 'Ò',
    ensures
        respelled(wide, seq![p, o]) == seq!['p', 'o', '\''],
{
    let t = seq![p, o];
    let po = seq!['p', 'ò'];
    assert(same_letter(t[0], po[0]) && same_letter(t[1], po[1]));
    assert(spells(t, 0, po));
    assert(is_word(wide, t[0]) && is_word(wide, t[1]));
    assert(boundary(wide, t, 0) && boundary(wide, t, 2));
    assert(match_end(Rule::Poco, wide, t, 0) == 2);
    let u = seq!['p', 'o', '\''];
    assert(rewrite_from(Rule::Poco, wide, t, 2) == Seq::<char>::empty());
    assert(rewrite(Rule::Poco, wide, t) =~= u);
    assert forall|s: int| 0 <= s < u.len() implies !#[trigger] hits(Rule::Qual, wide, u, s) by {}
    lemma_no_hits(Rule::Qual, wide, u, 0);
    assert(u.skip(0) =~= u);
    assert forall|s: int| 0 <= s < u.len() implies !#[trigger] hits(Rule::Un, wide, u, s) by {
        if hits(Rule::Un, wide, u, s) {
            assert(same_letter(u[s + 0], seq!['u', 'n', '\''][s - s]));
        }
    }
    lemma_no_hits(Rule::Un, wide, u, 0);
    lemma_unmoved(Rule::Accordo, wide, u);
}

/// Whether `w` is the lower-case word `l`, in any mix of cases.
pub open spec fn is_word_in_any_case(w: Seq<char>, l: Seq<char>) -> bool {
    w.len() == l.len() && forall|j: int| 0 <= j < w.len() ==> ascii_lower(#[trigger] w[j]) == l[j]
}

/// "qual" takes no apostrophe before an "e", with an accent or not, whatever
/// letters follow.
pub proof fn law_qual_takes_no_apostrophe(
    wide: spec_fn(char) -> bool,
    qual: Seq<char>,
    e: char,
    rest: Seq<char>,
)
    requires
        is_word_in_any_case(qual, seq!['q', 'u', 'a', 'l', '\'']),
        e == 'e' || e == 'E' || e == 'è' || e == 'È',
        forall|k: int|
            0 <= k < rest.len() ==> ('a' <= #[trigger] rest[k] <= 'z' || 'A' <= rest[k] <= 'Z'),
    ensures
        respelled(wide, qual + seq![e] + rest) == seq!['q', 'u', 'a', 'l', ' ', e] + rest,
{
    let t = qual + seq![e] + rest;
    let want = seq!['q', 'u', 'a', 'l', '\''];
    assert forall|j: int| 0 <= j < t.len() implies #[trigger] t[j] != 'ò' && t[j] != 'Ò' by {
        if j < 5 {
            assert(ascii_lower(qual[j]) == want[j]);
        } else if j > 5 {
            assert(t[j] == rest[j - 6]);
        }
    }
    lemma_unmoved(Rule::Poco, wide, t);
    assert forall|j: int| 0 <= j < 0 + 5 implies same_letter(#[trigger] t[j], want[j - 0]) by {
        assert(ascii_lower(qual[j]) == want[j]);
    }
    assert(spells(t, 0, want));
    assert(ascii_lower(qual[0]) == want[0]);
    assert(is_word(wide, t[0]));
    assert(t[5] == e);
    assert(match_end(Rule::Qual, wide, t, 0) == 6);
    assert forall|s: int| 6 <= s < t.len() implies !#[trigger] hits(Rule::Qual, wide, t, s) by {
        if hits(Rule::Qual, wide, t, s) {
            assert(same_letter(t[s + 4], want[s + 4 - s]));
            assert(t[s + 4] == rest[s + 4 - 6]);
        }
    }
    lemma_no_hits(Rule::Qual, wide, t, 6);
    assert(t.skip(6) =~= rest);
    let u = seq!['q', 'u', 'a', 'l', ' ', e] + rest;
    assert(rewrite(Rule::Qual, wide, t) =~= u);
    assert forall|k: int| 0 <= k < u.len() implies #[trigger] u[k] != '\'' by {
        if k > 5 {
            assert(u[k] == rest[k - 6]);
        }
    }
    lemma_unmoved(Rule::Un, wide, u);
    assert forall|s: int| 0 <= s < u.len() implies !#[trigger] hits(Rule::Accordo, wide, u, s) by {
        if hits(Rule::Accordo, wide, u, s) {
            assert(same_letter(u[s + 0], seq!['d', 'a', 'c', 'c', 'o', 'r', 'd', 'o'][s - s]));
            assert(s > 5);
            assert(u[s] == rest[s - 6]);
            if s > 6 {
                assert(u[s - 1] == rest[s - 7]);
            } else {
                assert(u[s - 1] == e);
            }
            assert(is_word(wide, u[s]) && is_word(wide, u[s - 1]));
        }
    }
    lemma_no_hits(Rule::Accordo, wide, u, 0);
    assert(u.skip(0) =~= u);
}

/// "un" takes no apostrophe before the masculine words "altro", "uomo",
/// "amico", "anno" and "attimo", which keep their case.
pub proof fn law_un_takes_no_apostrophe(wide: spec_fn(char) -> bool, un: Seq<char>, noun: Seq<char>)
    requires
        is_word_in_any_case(un, seq!['u', 'n', '\'']),
        is_word_in_any_case(noun, seq!['a', 'l', 't', 'r', 'o']) || is_word_in_any_case(
            noun,
            seq!['u', 'o', 'm', 'o'],
        ) || is_word_in_any_case(noun, seq!['a', 'm', 'i', 'c', 'o']) || is_word_in_any_case(
            noun,
            seq!['a', 'n', 'n', 'o'],
        ) || is_word_in_any_case(noun, seq!['a', 't', 't', 'i', 'm', 'o']),
    ensures
        respelled(wide, un + noun) == seq!['u', 'n', ' '] + noun,
{
    let t = un + noun;
    let n = t.len() as int;
    let head = seq!['u', 'n', '\''];
    assert forall|j: int| 0 <= j < noun.len() implies ('a' <= ascii_lower(#[trigger] noun[j])
        <= 'z') && ascii_lower(noun[j]) != 'd' && ascii_lower(noun[j]) != 'q' by {}
    assert forall|j: int| 0 <= j < n implies #[trigger] t[j] != 'ò' && t[j] != 'Ò' by {
        if j < 3 {
            assert(ascii_lower(un[j]) == head[j]);
        } else {
            assert(t[j] == noun[j - 3]);
            assert('a' <= ascii_lower(noun[j - 3]) <= 'z');
        }
    }
    lemma_unmoved(Rule::Poco, wide, t);
    assert forall|s: int| 0 <= s < n implies !#[trigger] hits(Rule::Qual, wide, t, s) by {
        if hits(Rule::Qual, wide, t, s) {
            assert(same_letter(t[s + 0], seq!['q', 'u', 'a', 'l', '\''][s - s]));
            if s < 3 {
                assert(ascii_lower(un[s]) == head[s]);
            } else {
                assert(t[s] == noun[s - 3]);
                assert(ascii_lower(noun[s - 3]) != 'q');
            }
        }
    }
    lemma_no_hits(Rule::Qual, wide, t, 0);
    assert(t.skip(0) =~= t);
    assert forall|j: int| 0 <= j < 0 + 3 implies same_letter(#[trigger] t[j], head[j - 0]) by {
        assert(ascii_lower(un[j]) == head[j]);
    }
    assert(spells(t, 0, head));
    lemma_noun(t, noun, seq!['a', 'l', 't', 'r', 'o']);
    lemma_noun(t, noun, seq!['u', 'o', 'm', 'o']);
    lemma_noun(t, noun, seq!['a', 'm', 'i', 'c', 'o']);
    lemma_noun(t, noun, seq!['a', 'n', 'n', 'o']);
    lemma_noun(t, noun, seq!['a', 't', 't', 'i', 'm', 'o']);
    let (x, y) = (ascii_lower(noun[0]), ascii_lower(noun[1]));
    assert(x == 'u' && y == 'o' || x == 'a' && (y == 'l' || y == 'm' || y == 'n' || y == 't'));
    assert(noun_end(t, 3) == n);
    assert(t[n - 1] == noun[noun.len() - 1]);
    assert('a' <= ascii_lower(noun[noun.len() - 1]) <= 'z');
    assert(ascii_lower(un[0]) == head[0]);
    assert(is_word(wide, t[0]) && is_word(wide, t[n - 1]));
    assert(boundary(wide, t, 0) && boundary(wide, t, n));
    assert(match_end(Rule::Un, wide, t, 0) == n);
    assert(t.subrange(3, n) =~= noun);
    let u = seq!['u', 'n', ' '] + noun;
    assert(rewrite_from(Rule::Un, wide, t, n) == Seq::<char>::empty());
    assert(rewrite(Rule::Un, wide, t) =~= u);
    assert forall|k: int| 0 <= k < u.len() implies #[trigger] u[k] != 'd' && u[k] != 'D' by {
        if k >= 3 {
            assert(u[k] == noun[k - 3]);
            assert(ascii_lower(noun[k - 3]) != 'd');
        }
    }
    lemma_unmoved(Rule::Accordo, wide, u);
}

/// A word that follows three characters to the end of a text is spelled there,
/// if it is that word, and no other that starts otherwise or is longer is.
proof fn lemma_noun(t: Seq<char>, noun: Seq<char>, l: Seq<char>)
    requires
        t.len() == 3 + noun.len(),
        forall|j: int| 0 <= j < noun.len() ==> #[trigger] t[3 + j] == noun[j],
        forall|j: int| 0 <= j < l.len() ==> 'a' <= #[trigger] l[j] <= 'z',
    ensures
        is_word_in_any_case(noun, l) ==> spells(t, 3, l),
        spells(t, 3, l) ==> l.len() <= noun.len() && forall|j: int|
            0 <= j < l.len() ==> ascii_lower(#[trigger] noun[j]) == l[j],
{
    if is_word_in_any_case(noun, l) {
        assert forall|j: int| 3 <= j < 3 + l.len() implies same_letter(
            #[trigger] t[j],
            l[j - 3],
        ) by {
            assert(t[3 + (j - 3)] == noun[j - 3]);
            assert(ascii_lower(noun[j - 3]) == l[j - 3]);
        }
    }
    if spells(t, 3, l) {
        assert forall|j: int| 0 <= j < l.len() implies ascii_lower(#[trigger] noun[j])
            == l[j] by {
            assert(t[3 + j] == noun[j]);
            assert(same_letter(t[3 + j], l[3 + j - 3]));
        }
    }
}

/// "daccordo" in any case becomes "d'accordo", and no other word of ASCII
/// letters is respelled.
pub proof fn law_daccordo_is_two_words(wide: spec_fn(char) -> bool, w: Seq<char>)
    requires
        w.len() > 0,
        forall|k: int| 0 <= k < w.len() ==> ('a' <= #[trigger] w[k] <= 'z' || 'A' <= w[k] <= 'Z'),
    ensures
        respelled(wide, w) == if is_word_in_any_case(
            w,
            seq!['d', 'a', 'c', 'c', 'o', 'r', 'd', 'o'],
        ) {
            seq!['d', '\'', 'a', 'c', 'c', 'o', 'r', 'd', 'o']
        } else {
            w
        },
{
    let accordo = seq!['d', 'a', 'c', 'c', 'o', 'r', 'd', 'o'];
    lemma_unmoved(Rule::Poco, wide, w);
    lemma_unmoved(Rule::Qual, wide, w);
    lemma_unmoved(Rule::Un, wide, w);
    assert forall|s: int| 0 < s < w.len() implies !#[trigger] hits(Rule::Accordo, wide, w, s) by {
        assert(is_word(wide, w[s]) && is_word(wide, w[s - 1]));
    }
    assert(is_word(wide, w[0]));
    if is_word_in_any_case(w, accordo) {
        assert forall|j: int| 0 <= j < 0 + 8 implies same_letter(
            #[trigger] w[j],
            accordo[j - 0],
        ) by {
            assert(ascii_lower(w[j]) == accordo[j]);
        }
        assert(spells(w, 0, accordo));
        assert(is_word(wide, w[7]));
        assert(boundary(wide, w, 0) && boundary(wide, w, 8));
        assert(match_end(Rule::Accordo, wide, w, 0) == 8);
        assert(rewrite_from(Rule::Accordo, wide, w, 8) == Seq::<char>::empty());
        assert(rewrite(Rule::Accordo, wide, w) =~= seq![
            'd',
            '\'',
            'a',
            'c',
            'c',
            'o',
            'r',
            'd',
            'o',
        ]);
    } else {
        if hits(Rule::Accordo, wide, w, 0) {
            assert(spells(w, 0, accordo));
            assert(boundary(wide, w, 8));
            if w.len() > 8 {
                assert(is_word(wide, w[8]) && is_word(wide, w[7]));
            }
            assert(w.len() == 8);
            assert forall|j: int| 0 <= j < w.len() implies ascii_lower(#[trigger] w[j])
                == accordo[j] by {
                assert(same_letter(w[j], accordo[j - 0]));
            }
        }
        lemma_no_hits(Rule::Accordo, wide, w, 0);
        assert(w.skip(0) =~= w);
    }
}

/// What a character says apart from its case and its accent. Blanks and
/// apostrophes say nothing.
pub open spec fn said_by(c: char) -> Seq<char> {
    if c == ' ' || c == '\t' || c == '\'' {
        Seq::empty()
    } else if c == 'È' {
        seq!['e']
    } else if c == 'Ò' {
        seq!['o']
    } else {
        seq![without_accent(ascii_lower(c))]
    }
}

/// What a text says apart from case, accents, blanks and apostrophes.
pub open spec fn said(t: Seq<char>) -> Seq<char>
    decreases t.len(),
{
    if t.len() == 0 {
        Seq::empty()
    } else {
        said(t.drop_last()) + said_by(t.last())
    }
}

proof fn lemma_said(a: Seq<char>, b: Seq<char>)
    ensures
        said(a + b) == said(a) + said(b),
    decreases b.len(),
{
    if b.len() == 0 {
        assert(a + b =~= a);
        assert(said(a) + said(b) =~= said(a));
    } else {
        lemma_said(a, b.drop_last());
        assert((a + b).drop_last() =~= a + b.drop_last());
        assert((a + b).last() == b.last());
        assert(said(a + b) =~= said(a) + said(b));
    }
}

proof fn lemma_said_one(c: char)
    ensures
        said(seq![c]) == said_by(c),
{
    let s = seq![c];
    assert(s.drop_last() =~= Seq::<char>::empty());
    assert(said(s.drop_last()) =~= Seq::<char>::empty());
    assert(said(s) =~= said_by(c));
}

proof fn lemma_said_same(a: Seq<char>, b: Seq<char>)
    requires
        a.len() == b.len(),
        forall|j: int| 0 <= j < a.len() ==> said_by(#[trigger] a[j]) == said_by(b[j]),
    ensures
        said(a) == said(b),
    decreases a.len(),
{
    if a.len() > 0 {
        let n = a.len() - 1;
        assert(said_by(a[n]) == said_by(b[n]));
        assert forall|j: int| 0 <= j < n implies said_by(#[trigger] a.drop_last()[j]) == said_by(
            b.drop_last()[j],
        ) by {
            assert(a.drop_last()[j] == a[j]);
        }
        lemma_said_same(a.drop_last(), b.drop_last());
    }
}

proof fn lemma_said_word(w: Seq<char>)
    ensures
        said(accented_word(w)) == said(w),
{
    law_accent_keeps_the_word(w);
    let u = accented_word(w);
    let n = w.len() as int;
    assert forall|j: int| 0 <= j < n implies said_by(#[trigger] u[j]) == said_by(w[j]) by {
        if u != w {
            if j < n - 1 {
                assert(ascii_lower(u[j]) == ascii_lower(w[j]));
            }
        }
    }
    lemma_said_same(u, w);
}

proof fn lemma_said_accented(t: Seq<char>, i: int)
    requires
        0 <= i <= t.len(),
    ensures
        said(accented_from(t, i)) == said(t.skip(i)),
    decreases t.len() - i,
{
    if i < t.len() {
        let e = word_end(t, i);
        if i < e <= t.len() {
            lemma_said_word(t.subrange(i, e));
            lemma_said_accented(t, e);
            lemma_said(accented_word(t.subrange(i, e)), accented_from(t, e));
            lemma_said(t.subrange(i, e), t.skip(e));
            assert(t.subrange(i, e) + t.skip(e) =~= t.skip(i));
        } else {
            lemma_said_accented(t, i + 1);
            lemma_said(seq![t[i]], accented_from(t, i + 1));
            lemma_said(seq![t[i]], t.skip(i + 1));
            assert(seq![t[i]] + t.skip(i + 1) =~= t.skip(i));
        }
    } else {
        assert(t.skip(i) =~= Seq::<char>::empty());
    }
}

/// What a rule writes in place of a character says the same.
proof fn lemma_said_piece(rule: Rule, wide: spec_fn(char) -> bool, t: Seq<char>, i: int)
    requires
        0 <= i < t.len(),
    ensures
        said(piece(rule, wide, t, i)) == said_by(t[i]),
{
    reveal(piece);
    lemma_said_one(t[i]);
    assert(said(Seq::<char>::empty()) =~= Seq::<char>::empty());
    match rule {
        Rule::Poco => {
            let w = seq!['p', 'ò'];
            if hits(rule, wide, t, i) {
                assert(same_letter(t[i + 0], w[i - i]));
                lemma_said_one('p');
            } else if hits(rule, wide, t, i - 1) {
                assert(same_letter(t[i - 1 + 1], w[i - (i - 1)]));
                lemma_said_one('o');
                lemma_said_one('\'');
                lemma_said(seq!['o'], seq!['\'']);
                assert(seq!['o'] + seq!['\''] =~= seq!['o', '\'']);
                assert(said(seq!['o', '\'']) =~= seq!['o']);
            }
        },
        Rule::Qual => {
            let w = seq!['q', 'u', 'a', 'l', '\''];
            lemma_said_one('q');
            lemma_said_one('u');
            lemma_said_one('a');
            lemma_said_one('l');
            lemma_said_one(' ');
            lemma_spelled_piece(rule, wide, t, i, 0, w);
            lemma_spelled_piece(rule, wide, t, i, 1, w);
            lemma_spelled_piece(rule, wide, t, i, 2, w);
            lemma_spelled_piece(rule, wide, t, i, 3, w);
            lemma_spelled_piece(rule, wide, t, i, 4, w);
        },
        Rule::Un => {
            let w = seq!['u', 'n', '\''];
            lemma_said_one('u');
            lemma_said_one('n');
            lemma_said_one(' ');
            lemma_spelled_piece(rule, wide, t, i, 0, w);
            lemma_spelled_piece(rule, wide, t, i, 1, w);
            lemma_spelled_piece(rule, wide, t, i, 2, w);
        },
        Rule::Accordo => {
            let w = seq!['d', 'a', 'c', 'c', 'o', 'r', 'd', 'o'];
            lemma_said_one('d');
            lemma_said_one('a');
            lemma_said_one('c');
            lemma_said_one('o');
            lemma_said_one('r');
            lemma_said_one('\'');
            lemma_said(seq!['d'], seq!['\'']);
            assert(seq!['d'] + seq!['\''] =~= seq!['d', '\'']);
            assert(said(seq!['d', '\'']) =~= seq!['d']);
            lemma_spelled_piece(rule, wide, t, i, 0, w);
            lemma_spelled_piece(rule, wide, t, i, 1, w);
            lemma_spelled_piece(rule, wide, t, i, 2, w);
            lemma_spelled_piece(rule, wide, t, i, 3, w);
            lemma_spelled_piece(rule, wide, t, i, 4, w);
            lemma_spelled_piece(rule, wide, t, i, 5, w);
            lemma_spelled_piece(rule, wide, t, i, 6, w);
            lemma_spelled_piece(rule, wide, t, i, 7, w);
        },
        Rule::SpacedMark => {
            if hits(rule, wide, t, i) {
                assert(is_blank(t[i]));
            }
        },
        Rule::Blanks => {
            lemma_said_one(' ');
            if hits(rule, wide, t, i) {
                assert(is_blank(t[i]));
            }
        },
    }
}

proof fn lemma_spelled_piece(
    rule: Rule,
    wide: spec_fn(char) -> bool,
    t: Seq<char>,
    i: int,
    k: int,
    w: Seq<char>,
)
    requires
        0 <= k < w.len(),
        rule is Qual && w == seq!['q', 'u', 'a', 'l', '\''] || rule is Un && w == seq![
            'u',
            'n',
            '\'',
        ] || rule is Accordo && w == seq!['d', 'a', 'c', 'c', 'o', 'r', 'd', 'o'],
    ensures
        hits(rule, wide, t, i - k) ==> same_letter(t[i], w[k]),
{
    if hits(rule, wide, t, i - k) {
        let s = i - k;
        assert(spells(t, s, w));
        assert(same_letter(t[s + k], w[s + k - s]));
    }
}

proof fn lemma_said_pieces(rule: Rule, wide: spec_fn(char) -> bool, t: Seq<char>, n: int)
    requires
        0 <= n <= t.len(),
    ensures
        said(pieces(rule, wide, t, n)) == said(t.take(n)),
    decreases n,
{
    if n > 0 {
        lemma_said_pieces(rule, wide, t, n - 1);
        lemma_said_piece(rule, wide, t, n - 1);
        lemma_said(pieces(rule, wide, t, n - 1), piece(rule, wide, t, n - 1));
        assert(t.take(n).drop_last() =~= t.take(n - 1));
        assert(t.take(n).last() == t[n - 1]);
    } else {
        assert(t.take(0) =~= Seq::<char>::empty());
    }
}

proof fn lemma_said_rewrite(rule: Rule, wide: spec_fn(char) -> bool, t: Seq<char>)
    ensures
        said(rewrite(rule, wide, t)) == said(t),
{
    lemma_pieces(rule, wide, t);
    lemma_said_pieces(rule, wide, t, t.len() as int);
    assert(t.take(t.len() as int) =~= t);
}

/// The corrections never change what is said: all letters, digits and marks stay
/// and keep their order. Only accents, the case of what is respelled,
/// apostrophes and blanks change.
pub proof fn law_corrections_keep_what_is_said(wide: spec_fn(char) -> bool, t: Seq<char>)
    ensures
        said(corrected(wide, t)) == said(t),
{
    lemma_said_accented(t, 0);
    assert(t.skip(0) =~= t);
    let a = accented(t);
    let b = rewrite(Rule::Poco, wide, a);
    let c = rewrite(Rule::Qual, wide, b);
    let d = rewrite(Rule::Un, wide, c);
    let e = rewrite(Rule::Accordo, wide, d);
    let f = rewrite(Rule::SpacedMark, wide, e);
    lemma_said_rewrite(Rule::Poco, wide, a);
    lemma_said_rewrite(Rule::Qual, wide, b);
    lemma_said_rewrite(Rule::Un, wide, c);
    lemma_said_rewrite(Rule::Accordo, wide, d);
    lemma_said_rewrite(Rule::SpacedMark, wide, e);
    lemma_said_rewrite(Rule::Blanks, wide, f);
}

/// Whether nothing that belongs to a word stands just before `i` and from `e`
/// on: there the text ends, or a character separates phrases.
pub open spec fn stands_alone(wide: spec_fn(char) -> bool, t: Seq<char>, i: int, e: int) -> bool {
    (i == 0 || separates(wide, t[i - 1])) && (e == t.len() || separates(wide, t[e]))
}

proof fn lemma_any_case(t: Seq<char>, i: int, l: Seq<char>)
    requires
        0 <= i,
        i + l.len() <= t.len(),
        is_word_in_any_case(t.subrange(i, i + l.len()), l),
        forall|j: int| 0 <= j < l.len() ==> ('a' <= #[trigger] l[j] <= 'z' || l[j] == '\''),
    ensures
        spells(t, i, l),
{
    assert forall|j: int| i <= j < i + l.len() implies same_letter(#[trigger] t[j], l[j - i]) by {
        assert(ascii_lower(t.subrange(i, i + l.len())[j - i]) == l[j - i]);
        assert('a' <= l[j - i] <= 'z' || l[j - i] == '\'');
    }
}

proof fn lemma_alone(wide: spec_fn(char) -> bool, t: Seq<char>, i: int, e: int)
    requires
        0 <= i < e <= t.len(),
        stands_alone(wide, t, i, e),
        is_word(wide, t[i]),
        is_word(wide, t[e - 1]),
    ensures
        boundary(wide, t, i),
        boundary(wide, t, e),
{
}

/// Whether the lower-case word `l` stands alone in `t` at `i`, in any case.
pub open spec fn stands_at(wide: spec_fn(char) -> bool, t: Seq<char>, i: int, l: Seq<char>) -> bool {
    &&& 0 <= i
    &&& i + l.len() <= t.len()
    &&& is_word_in_any_case(t.subrange(i, i + l.len()), l)
    &&& stands_alone(wide, t, i, i + l.len())
}

proof fn lemma_no_accordo(wide: spec_fn(char) -> bool, u: Seq<char>, i: int)
    requires
        !hits(Rule::Accordo, wide, u, i),
    ensures
        !stands_at(wide, u, i, seq!['d', 'a', 'c', 'c', 'o', 'r', 'd', 'o']),
{
    let l = seq!['d', 'a', 'c', 'c', 'o', 'r', 'd', 'o'];
    if stands_at(wide, u, i, l) {
        lemma_any_case(u, i, l);
        assert(same_letter(u[i + 0], l[i - i]) && same_letter(u[i + 7], l[i + 7 - i]));
        lemma_alone(wide, u, i, i + 8);
    }
}

/// A masculine word behind "un'" that stands alone is a match.
proof fn lemma_no_un(
    wide: spec_fn(char) -> bool,
    u: Seq<char>,
    i: int,
    noun: Seq<char>,
    l: Seq<char>,
)
    requires
        !hits(Rule::Un, wide, u, i),
        noun == seq!['a', 'l', 't', 'r', 'o'] || noun == seq!['u', 'o', 'm', 'o'] || noun == seq![
            'a',
            'm',
            'i',
            'c',
            'o',
        ] || noun == seq!['a', 'n', 'n', 'o'] || noun == seq!['a', 't', 't', 'i', 'm', 'o'],
        l == seq!['u', 'n', '\''] + noun,
    ensures
        !stands_at(wide, u, i, l),
{
    let e = i + l.len();
    if 0 <= i && e <= u.len() && is_word_in_any_case(u.subrange(i, e), l) && stands_alone(wide, u, i, e) {
        lemma_any_case(u, i, l);
        let un = seq!['u', 'n', '\''];
        assert forall|j: int| i <= j < i + 3 implies same_letter(#[trigger] u[j], un[j - i]) by {
            assert(same_letter(u[j], l[j - i]));
        }
        assert(spells(u, i, un));
        assert forall|j: int| i + 3 <= j < i + 3 + noun.len() implies same_letter(
            #[trigger] u[j],
            noun[j - (i + 3)],
        ) by {
            assert(same_letter(u[j], l[j - i]));
        }
        assert(spells(u, i + 3, noun));
        assert(same_letter(u[i + 3], noun[0]) && same_letter(u[i + 4], noun[1]));
        let a = seq!['a', 'l', 't', 'r', 'o'];
        let b = seq!['u', 'o', 'm', 'o'];
        let c = seq!['a', 'm', 'i', 'c', 'o'];
        let d = seq!['a', 'n', 'n', 'o'];
        let f = seq!['a', 't', 't', 'i', 'm', 'o'];
        if spells(u, i + 3, a) {
            assert(same_letter(u[i + 3], a[i + 3 - (i + 3)]) && same_letter(
                u[i + 4],
                a[i + 4 - (i + 3)],
            ));
        }
        if spells(u, i + 3, b) {
            assert(same_letter(u[i + 3], b[i + 3 - (i + 3)]) && same_letter(
                u[i + 4],
                b[i + 4 - (i + 3)],
            ));
        }
        if spells(u, i + 3, c) {
            assert(same_letter(u[i + 3], c[i + 3 - (i + 3)]) && same_letter(
                u[i + 4],
                c[i + 4 - (i + 3)],
            ));
        }
        if spells(u, i + 3, d) {
            assert(same_letter(u[i + 3], d[i + 3 - (i + 3)]) && same_letter(
                u[i + 4],
                d[i + 4 - (i + 3)],
            ));
        }
        assert(noun_end(u, i + 3) == e);
        assert(same_letter(u[i + 0], l[i - i]));
        assert(same_letter(u[e - 1], l[e - 1 - i]));
        lemma_alone(wide, u, i, e);
    }
}

/// "daccordo" is not left in a corrected text, where it stands alone, in any
/// case.
pub proof fn law_daccordo_is_not_left(wide: spec_fn(char) -> bool, t: Seq<char>, i: int)
    ensures
        !stands_at(wide, corrected(wide, t), i, seq!['d', 'a', 'c', 'c', 'o', 'r', 'd', 'o']),
{
    law_corrected_is_correct(wide, t);
    let u = corrected(wide, t);
    assert(!hits(Rule::Accordo, wide, u, i));
    lemma_no_accordo(wide, u, i);
}

/// Neither is "un" with an apostrophe before one of the masculine words.
pub proof fn law_wrong_un_is_not_left(
    wide: spec_fn(char) -> bool,
    t: Seq<char>,
    i: int,
    noun: Seq<char>,
)
    requires
        noun == seq!['a', 'l', 't', 'r', 'o'] || noun == seq!['u', 'o', 'm', 'o'] || noun == seq![
            'a',
            'm',
            'i',
            'c',
            'o',
        ] || noun == seq!['a', 'n', 'n', 'o'] || noun == seq!['a', 't', 't', 'i', 'm', 'o'],
    ensures
        !stands_at(wide, corrected(wide, t), i, seq!['u', 'n', '\''] + noun),
{
    law_corrected_is_correct(wide, t);
    let u = corrected(wide, t);
    assert(!hits(Rule::Un, wide, u, i));
    lemma_no_un(wide, u, i, noun, seq!['u', 'n', '\''] + noun);
}

/// Whether "pò" stands alone in `t` at `i`, in any case.
pub open spec fn is_po_at(wide: spec_fn(char) -> bool, t: Seq<char>, i: int) -> bool {
    &&& 0 <= i
    &&& i + 2 <= t.len()
    &&& t[i] == 'p' || t[i] == 'P'
    &&& t[i + 1] == 'ò' || t[i + 1] == 'Ò'
    &&& stands_alone(wide, t, i, i + 2)
}

/// Whether "qual" with an apostrophe and an "e" behind it starts in `t` at `i`,
/// in any case.
pub open spec fn is_qual_at(wide: spec_fn(char) -> bool, t: Seq<char>, i: int) -> bool {
    &&& 0 <= i
    &&& i + 6 <= t.len()
    &&& is_word_in_any_case(t.subrange(i, i + 5), seq!['q', 'u', 'a', 'l', '\''])
    &&& t[i + 5] == 'e' || t[i + 5] == 'E' || t[i + 5] == 'è' || t[i + 5] == 'È'
    &&& i == 0 || separates(wide, t[i - 1])
}

proof fn lemma_no_po(wide: spec_fn(char) -> bool, u: Seq<char>, i: int)
    requires
        !hits(Rule::Poco, wide, u, i),
    ensures
        !is_po_at(wide, u, i),
{
    if is_po_at(wide, u, i) {
        let l = seq!['p', 'ò'];
        assert forall|j: int| i <= j < i + 2 implies same_letter(#[trigger] u[j], l[j - i]) by {}
        assert(spells(u, i, l));
        lemma_alone(wide, u, i, i + 2);
    }
}

proof fn lemma_no_qual(wide: spec_fn(char) -> bool, u: Seq<char>, i: int)
    requires
        !hits(Rule::Qual, wide, u, i),
    ensures
        !is_qual_at(wide, u, i),
{
    if is_qual_at(wide, u, i) {
        let l = seq!['q', 'u', 'a', 'l', '\''];
        lemma_any_case(u, i, l);
        assert(same_letter(u[i + 0], l[i - i]));
        assert(boundary(wide, u, i));
    }
}

/// Neither is "pò", nor "qual" with an apostrophe before an "e".
pub proof fn law_no_wrong_apostrophe_is_left(wide: spec_fn(char) -> bool, t: Seq<char>, i: int)
    ensures
        !is_po_at(wide, corrected(wide, t), i),
        !is_qual_at(wide, corrected(wide, t), i),
{
    law_corrected_is_correct(wide, t);
    let u = corrected(wide, t);
    assert(!hits(Rule::Poco, wide, u, i));
    assert(!hits(Rule::Qual, wide, u, i));
    lemma_no_po(wide, u, i);
    lemma_no_qual(wide, u, i);
}

/// No blank is left before a punctuation mark, and no two in a row.
pub proof fn law_no_blank_too_many_is_left(wide: spec_fn(char) -> bool, t: Seq<char>, i: int)
    requires
        0 <= i < corrected(wide, t).len() - 1,
        corrected(wide, t)[i] == ' ' || corrected(wide, t)[i] == '\t',
    ensures
        ({
            let c = corrected(wide, t)[i + 1];
            c != ' ' && c != '\t' && c != ',' && c != '.' && c != ';' && c != ':' && c != '!' && c
                != '?'
        }),
{
    law_corrected_is_correct(wide, t);
    let u = corrected(wide, t);
    assert(!hits(Rule::SpacedMark, wide, u, i));
    assert(!hits(Rule::Blanks, wide, u, i));
    lemma_blanks_end(u, i);
    lemma_blanks_end(u, i + 1);
    lemma_blanks_end(u, i + 2);
    assert(blanks_end(u, i) == blanks_end(u, i + 1));
}

/// The rules that change the spacing.
spec fn is_spacing(rule: Rule) -> bool {
    rule is SpacedMark || rule is Blanks
}

proof fn lemma_spacing_shift(rule: Rule, wide: spec_fn(char) -> bool, t: Seq<char>, m: int, i: int)
    requires
        is_spacing(rule),
        0 <= m,
        0 <= i,
        m + i <= t.len(),
    ensures
        blanks_end(t, m + i) == m + blanks_end(t.skip(m), i),
        rewrite_from(rule, wide, t, m + i) == rewrite_from(rule, wide, t.skip(m), i),
    decreases t.len() - m - i,
{
    let u = t.skip(m);
    if m + i < t.len() {
        assert(u[i] == t[m + i]);
        lemma_spacing_shift(rule, wide, t, m, i + 1);
        lemma_blanks_end(u, i);
        let b = blanks_end(u, i);
        if b < u.len() {
            assert(u[b] == t[m + b]);
        }
        let e = match_end(rule, wide, u, i);
        assert(match_end(rule, wide, t, m + i) == m + e);
        if i < e <= u.len() {
            assert(u[e - 1] == t[m + e - 1]);
            lemma_spacing_shift(rule, wide, t, m, e);
        }
    }
}

proof fn lemma_blanks_cut(a: Seq<char>, rest: Seq<char>, i: int)
    requires
        0 <= i < a.len(),
        !is_blank(a.last()),
    ensures
        blanks_end(a + rest, i) == blanks_end(a, i),
        i <= blanks_end(a, i) < a.len(),
    decreases a.len() - i,
{
    assert((a + rest)[i] == a[i]);
    if is_blank(a[i]) {
        lemma_blanks_cut(a, rest, i + 1);
    }
}

/// A rule that changes the spacing sees to what stands on either side of a
/// character that is no blank on its own.
proof fn lemma_spacing_cut(
    rule: Rule,
    wide: spec_fn(char) -> bool,
    a: Seq<char>,
    rest: Seq<char>,
    i: int,
)
    requires
        is_spacing(rule),
        0 <= i <= a.len(),
        a.len() > 0 ==> !is_blank(a.last()),
    ensures
        rewrite_from(rule, wide, a + rest, i) == rewrite_from(rule, wide, a, i) + rewrite(
            rule,
            wide,
            rest,
        ),
    decreases a.len() - i,
{
    let t = a + rest;
    let n = a.len() as int;
    if i < n {
        lemma_blanks_cut(a, rest, i);
        assert(t[i] == a[i]);
        let b = blanks_end(a, i);
        assert(t[b] == a[b]);
        let e = match_end(rule, wide, a, i);
        assert(match_end(rule, wide, t, i) == e);
        if i < e <= n {
            assert(t[e - 1] == a[e - 1]);
            lemma_spacing_cut(rule, wide, a, rest, e);
        } else {
            lemma_spacing_cut(rule, wide, a, rest, i + 1);
        }
        assert(rewrite_from(rule, wide, t, i) =~= rewrite_from(rule, wide, a, i) + rewrite(
            rule,
            wide,
            rest,
        ));
    } else {
        lemma_spacing_shift(rule, wide, t, n, 0);
        assert(t.skip(n) =~= rest);
        assert(rewrite_from(rule, wide, t, n) =~= rewrite_from(rule, wide, a, n) + rewrite(
            rule,
            wide,
            rest,
        ));
    }
}

proof fn lemma_run_end(r: Seq<char>, b: Seq<char>, i: int)
    requires
        0 <= i <= r.len(),
        forall|k: int| 0 <= k < r.len() ==> is_blank(#[trigger] r[k]),
        b.len() > 0 ==> !is_blank(b[0]),
    ensures
        blanks_end(r + b, i) == r.len(),
    decreases r.len() - i,
{
    let t = r + b;
    if i < r.len() {
        assert(t[i] == r[i]);
        lemma_run_end(r, b, i + 1);
    } else if b.len() > 0 {
        assert(t[i] == b[0]);
    }
}

proof fn lemma_run_of_blanks(
    wide: spec_fn(char) -> bool,
    r: Seq<char>,
    b: Seq<char>,
    i: int,
)
    requires
        0 <= i <= r.len(),
        forall|k: int| 0 <= k < r.len() ==> is_blank(#[trigger] r[k]),
        b.len() > 0 ==> !is_blank(b[0]),
    ensures
        rewrite_from(Rule::SpacedMark, wide, r + b, i) == if b.len() > 0 && is_mark(b[0]) {
            rewrite(Rule::SpacedMark, wide, b)
        } else {
            r.skip(i) + rewrite(Rule::SpacedMark, wide, b)
        },
        i < r.len() ==> rewrite_from(Rule::Blanks, wide, r + b, i) == if i + 1 == r.len() {
            seq![r[i]] + rewrite(Rule::Blanks, wide, b)
        } else {
            seq![' '] + rewrite(Rule::Blanks, wide, b)
        },
    decreases r.len() - i,
{
    let t = r + b;
    let n = r.len() as int;
    lemma_run_end(r, b, i);
    lemma_spacing_shift(Rule::SpacedMark, wide, t, n, 0);
    lemma_spacing_shift(Rule::Blanks, wide, t, n, 0);
    assert(t.skip(n) =~= b);
    if i < n {
        assert(t[i] == r[i]);
        lemma_run_of_blanks(wide, r, b, i + 1);
        if b.len() > 0 {
            assert(t[n] == b[0]);
        }
        if b.len() > 0 && is_mark(b[0]) {
            assert(match_end(Rule::SpacedMark, wide, t, i) == n + 1);
            lemma_spacing_shift(Rule::SpacedMark, wide, t, n, 1);
            assert(blanks_end(b, 0) == 0);
            assert(match_end(Rule::SpacedMark, wide, b, 0) == 0);
            assert(rewrite(Rule::SpacedMark, wide, b) == seq![b[0]] + rewrite_from(
                Rule::SpacedMark,
                wide,
                b,
                1,
            ));
        } else {
            assert(match_end(Rule::SpacedMark, wide, t, i) == i);
            assert(seq![r[i]] + r.skip(i + 1) =~= r.skip(i));
            assert(seq![r[i]] + (r.skip(i + 1) + rewrite(Rule::SpacedMark, wide, b)) =~= r.skip(i)
                + rewrite(Rule::SpacedMark, wide, b));
        }
        assert(rewrite_from(Rule::Blanks, wide, t, n) == rewrite(Rule::Blanks, wide, b));
    } else {
        assert(r.skip(i) + rewrite(Rule::SpacedMark, wide, b) =~= rewrite(
            Rule::SpacedMark,
            wide,
            b,
        ));
    }
}

proof fn lemma_marks_end(wide: spec_fn(char) -> bool, a: Seq<char>, i: int)
    requires
        0 <= i < a.len(),
    ensures
        rewrite_from(Rule::SpacedMark, wide, a, i).len() > 0,
        rewrite_from(Rule::SpacedMark, wide, a, i).last() == a.last(),
    decreases a.len() - i,
{
    lemma_blanks_end(a, i);
    let e = match_end(Rule::SpacedMark, wide, a, i);
    let then = if i < e <= a.len() {
        e
    } else {
        i + 1
    };
    if then < a.len() {
        lemma_marks_end(wide, a, then);
    } else {
        assert(rewrite_from(Rule::SpacedMark, wide, a, then) =~= Seq::<char>::empty());
    }
}

/// Blanks between two pieces of text go before a punctuation mark. Elsewhere a
/// single one stays as it is, and more of them become one space. What stands on
/// either side is seen to on its own, and nothing else changes.
pub proof fn law_runs_of_blanks(
    wide: spec_fn(char) -> bool,
    a: Seq<char>,
    run: Seq<char>,
    b: Seq<char>,
)
    requires
        run.len() > 0,
        forall|k: int| 0 <= k < run.len() ==> (#[trigger] run[k] == ' ' || run[k] == '\t'),
        a.len() > 0 ==> a.last() != ' ' && a.last() != '\t',
        b.len() > 0 ==> b[0] != ' ' && b[0] != '\t',
    ensures
        ({
            let gap = if b.len() > 0 && (b[0] == ',' || b[0] == '.' || b[0] == ';' || b[0] == ':'
                || b[0] == '!' || b[0] == '?') {
                Seq::empty()
            } else if run.len() == 1 {
                run
            } else {
                seq![' ']
            };
            respaced(wide, a + run + b) == respaced(wide, a) + gap + respaced(wide, b)
        }),
{
    let x = rewrite(Rule::SpacedMark, wide, a);
    let y = rewrite(Rule::SpacedMark, wide, b);
    let rest = run + b;
    assert(a + run + b =~= a + rest);
    lemma_spacing_cut(Rule::SpacedMark, wide, a, rest, 0);
    lemma_run_of_blanks(wide, run, b, 0);
    assert(run.skip(0) =~= run);
    if a.len() > 0 {
        lemma_marks_end(wide, a, 0);
    } else {
        assert(x =~= Seq::<char>::empty());
    }
    if b.len() > 0 {
        assert(blanks_end(b, 0) == 0);
        assert(y == seq![b[0]] + rewrite_from(Rule::SpacedMark, wide, b, 1));
        assert(y[0] == b[0]);
    } else {
        assert(y =~= Seq::<char>::empty());
    }
    let fx = rewrite(Rule::Blanks, wide, x);
    let fy = rewrite(Rule::Blanks, wide, y);
    if b.len() > 0 && is_mark(b[0]) {
        lemma_spacing_cut(Rule::Blanks, wide, x, y, 0);
        assert(fx + Seq::<char>::empty() + fy =~= fx + fy);
    } else {
        lemma_spacing_cut(Rule::Blanks, wide, x, run + y, 0);
        lemma_run_of_blanks(wide, run, y, 0);
        if run.len() == 1 {
            assert(seq![run[0]] =~= run);
        }
        assert(fx + (run + fy) =~= fx + run + fy);
        assert(fx + (seq![' '] + fy) =~= fx + seq![' '] + fy);
    }
}

/// A text without blanks keeps its spacing.
pub proof fn law_text_without_blanks_keeps_its_spacing(wide: spec_fn(char) -> bool, t: Seq<char>)
    requires
        forall|k: int| 0 <= k < t.len() ==> #[trigger] t[k] != ' ' && t[k] != '\t',
    ensures
        respaced(wide, t) == t,
{
    assert forall|s: int| 0 <= s < t.len() implies !#[trigger] hits(
        Rule::SpacedMark,
        wide,
        t,
        s,
    ) && !hits(Rule::Blanks, wide, t, s) by {
        assert(!is_blank(t[s]));
    }
    assert forall|s: int| 0 <= s < t.len() implies !#[trigger] hits(Rule::Blanks, wide, t, s) by {
        assert(!hits(Rule::SpacedMark, wide, t, s));
    }
    lemma_no_hits(Rule::SpacedMark, wide, t, 0);
    lemma_no_hits(Rule::Blanks, wide, t, 0);
    assert(t.skip(0) =~= t);
}

/// The corrections come one behind the other: accents, then spellings, then
/// spacing. So a text with nothing but one kind of fault has just that mended.
pub proof fn law_corrections_do_not_get_in_the_way(wide: spec_fn(char) -> bool, t: Seq<char>)
    ensures
        accented(t) == t && respelled(wide, t) == t ==> corrected(wide, t) == respaced(wide, t),
        respelled(wide, accented(t)) == accented(t) && respaced(wide, accented(t)) == accented(t)
            ==> corrected(wide, t) == accented(t),
        accented(t) == t && respaced(wide, respelled(wide, t)) == respelled(wide, t) ==> corrected(
            wide,
            t,
        ) == respelled(wide, t),
{
}

/// Whether all of `w` are word characters, and it is none of the words that are
/// respelled by themselves.
pub open spec fn is_plain_word(wide: spec_fn(char) -> bool, w: Seq<char>) -> bool {
    &&& w.len() > 0
    &&& forall|k: int| 0 <= k < w.len() ==> is_word(wide, #[trigger] w[k])
    &&& !is_word_in_any_case(w, seq!['d', 'a', 'c', 'c', 'o', 'r', 'd', 'o'])
    &&& !(w.len() == 2 && (w[0] == 'p' || w[0] == 'P') && (w[1] == 'ò' || w[1] == 'Ò'))
}

/// A word, of whatever script, that is neither "daccordo" nor "pò" is not
/// respelled.
pub proof fn law_other_words_are_not_respelled(wide: spec_fn(char) -> bool, w: Seq<char>)
    requires
        is_plain_word(wide, w),
    ensures
        respelled(wide, w) == w,
{
    assert(w.subrange(0, w.len() as int) =~= w);
    lemma_no_word_hits(wide, w, 0, w);
    assert forall|k: int| 0 <= k < w.len() implies #[trigger] w[k] != '\'' by {
        assert(is_word(wide, w[k]));
    }
    assert forall|s: int| 0 <= s < w.len() implies !#[trigger] hits(
        Rule::Poco,
        wide,
        w,
        s,
    ) by {}
    lemma_no_hits(Rule::Poco, wide, w, 0);
    assert(w.skip(0) =~= w);
    lemma_unmoved(Rule::Qual, wide, w);
    lemma_unmoved(Rule::Un, wide, w);
    lemma_no_hits(Rule::Accordo, wide, w, 0);
}

/// In a word that stands in `t` at `at`, with no word character on either side,
/// no rule for a whole word starts, unless it is that word.
proof fn lemma_no_word_hits(wide: spec_fn(char) -> bool, t: Seq<char>, at: int, w: Seq<char>)
    requires
        is_plain_word(wide, w),
        0 <= at,
        at + w.len() <= t.len(),
        t.subrange(at, at + w.len()) == w,
        at == 0 || !is_word(wide, t[at - 1]),
        at + w.len() == t.len() || !is_word(wide, t[(at + w.len()) as int]),
    ensures
        forall|s: int|
            at <= s < at + w.len() ==> !#[trigger] hits(Rule::Poco, wide, t, s),
        forall|s: int|
            at <= s < at + w.len() ==> !#[trigger] hits(Rule::Accordo, wide, t, s),
{
    let e = at + w.len();
    let po = seq!['p', 'ò'];
    let accordo = seq!['d', 'a', 'c', 'c', 'o', 'r', 'd', 'o'];
    assert forall|k: int| at <= k < e implies t[k] == w[k - at] && is_word(
        wide,
        #[trigger] t[k],
    ) by {
        assert(t.subrange(at, e)[k - at] == t[k]);
        assert(is_word(wide, w[k - at]));
    }
    assert forall|s: int| at <= s < e implies !#[trigger] hits(Rule::Poco, wide, t, s) by {
        if hits(Rule::Poco, wide, t, s) {
            assert(is_word(wide, t[s]));
            if s > at {
                assert(is_word(wide, t[s - 1]));
            }
            assert(same_letter(t[s + 0], po[s - s]) && same_letter(t[s + 1], po[s + 1 - s]));
            assert(is_word(wide, t[s + 1]));
            lemma_word_closes(wide, t, at, e, s + 2);
            assert(w[0] == t[at] && w[1] == t[at + 1]);
        }
    }
    assert forall|s: int| at <= s < e implies !#[trigger] hits(Rule::Accordo, wide, t, s) by {
        if hits(Rule::Accordo, wide, t, s) {
            assert(is_word(wide, t[s]));
            if s > at {
                assert(is_word(wide, t[s - 1]));
            }
            assert forall|j: int| s <= j < s + 8 implies is_word(wide, #[trigger] t[j]) by {
                assert(same_letter(t[j], accordo[j - s]));
            }
            lemma_word_closes(wide, t, at, e, s + 8);
            assert forall|j: int| 0 <= j < w.len() implies ascii_lower(#[trigger] w[j])
                == accordo[j] by {
                assert(w[j] == t[at + j]);
                assert(same_letter(t[at + j], accordo[at + j - s]));
            }
        }
    }
}

/// A run of word characters that starts with a word and ends at a boundary ends
/// with it.
proof fn lemma_word_closes(wide: spec_fn(char) -> bool, t: Seq<char>, at: int, e: int, x: int)
    requires
        0 <= at < e <= t.len(),
        forall|k: int| at <= k < e ==> is_word(wide, #[trigger] t[k]),
        e == t.len() || !is_word(wide, t[e]),
        at < x <= t.len(),
        forall|k: int| at <= k < x ==> is_word(wide, #[trigger] t[k]),
        boundary(wide, t, x),
    ensures
        x == e,
{
    if x < e {
        assert(is_word(wide, t[x]) && is_word(wide, t[x - 1]));
    }
    if x > e {
        assert(is_word(wide, t[e]));
    }
}

/// Whether `w` is one of the masculine words before which "un" takes no
/// apostrophe, in any case.
spec fn is_masculine(w: Seq<char>) -> bool {
    ||| is_word_in_any_case(w, seq!['a', 'l', 't', 'r', 'o'])
    ||| is_word_in_any_case(w, seq!['u', 'o', 'm', 'o'])
    ||| is_word_in_any_case(w, seq!['a', 'm', 'i', 'c', 'o'])
    ||| is_word_in_any_case(w, seq!['a', 'n', 'n', 'o'])
    ||| is_word_in_any_case(w, seq!['a', 't', 't', 'i', 'm', 'o'])
}

/// Two words that an apostrophe joins stay as they are, unless they are "qual"
/// and a word that starts with an "e", or "un" and a masculine word: "un'amica" and
/// "l'altro" keep theirs.
pub proof fn law_other_apostrophes_stay(wide: spec_fn(char) -> bool, x: Seq<char>, y: Seq<char>)
    requires
        is_plain_word(wide, x),
        is_plain_word(wide, y),
        !(is_word_in_any_case(x, seq!['q', 'u', 'a', 'l']) && (y[0] == 'e' || y[0] == 'E' || y[0]
            == 'è' || y[0] == 'È')),
        is_word_in_any_case(x, seq!['u', 'n']) ==> !is_word_in_any_case(
            y,
            seq!['a', 'l', 't', 'r', 'o'],
        ) && !is_word_in_any_case(y, seq!['u', 'o', 'm', 'o']) && !is_word_in_any_case(
            y,
            seq!['a', 'm', 'i', 'c', 'o'],
        ) && !is_word_in_any_case(y, seq!['a', 'n', 'n', 'o']) && !is_word_in_any_case(
            y,
            seq!['a', 't', 't', 'i', 'm', 'o'],
        ),
    ensures
        respelled(wide, x + seq!['\''] + y) == x + seq!['\''] + y,
{
    let t = x + seq!['\''] + y;
    let m = x.len() as int;
    let n = t.len() as int;
    assert(t[m] == '\'' && !is_word(wide, '\''));
    assert(t.subrange(0, m) =~= x);
    assert(t.subrange(m + 1, n) =~= y);
    lemma_no_word_hits(wide, t, 0, x);
    lemma_no_word_hits(wide, t, m + 1, y);
    assert forall|s: int| 0 <= s < n implies !#[trigger] hits(Rule::Poco, wide, t, s) by {
        if s == m && hits(Rule::Poco, wide, t, s) {
            assert(same_letter(t[s + 0], seq!['p', 'ò'][s - s]));
        }
    }
    assert forall|s: int| 0 <= s < n implies !#[trigger] hits(Rule::Accordo, wide, t, s) by {
        if s == m && hits(Rule::Accordo, wide, t, s) {
            assert(same_letter(t[s + 0], seq!['d', 'a', 'c', 'c', 'o', 'r', 'd', 'o'][s - s]));
        }
    }
    lemma_no_hits(Rule::Poco, wide, t, 0);
    assert(t.skip(0) =~= t);
    assert forall|k: int| 0 <= k < n && #[trigger] t[k] == '\'' implies k == m by {
        if k < m {
            assert(is_word(wide, x[k]));
        } else if k > m {
            assert(is_word(wide, y[k - m - 1]));
        }
    }
    assert forall|s: int| 0 <= s < n implies !#[trigger] hits(Rule::Qual, wide, t, s) by {
        if hits(Rule::Qual, wide, t, s) {
            lemma_joined_qual(wide, x, y, s);
        }
    }
    lemma_no_hits(Rule::Qual, wide, t, 0);
    assert forall|s: int| 0 <= s < n implies !#[trigger] hits(Rule::Un, wide, t, s) by {
        if hits(Rule::Un, wide, t, s) {
            lemma_joined_un(wide, x, y, s);
        }
    }
    lemma_no_hits(Rule::Un, wide, t, 0);
    lemma_no_hits(Rule::Accordo, wide, t, 0);
}

proof fn lemma_joined_qual(wide: spec_fn(char) -> bool, x: Seq<char>, y: Seq<char>, s: int)
    requires
        is_plain_word(wide, x),
        is_plain_word(wide, y),
        hits(Rule::Qual, wide, x + seq!['\''] + y, s),
    ensures
        is_word_in_any_case(x, seq!['q', 'u', 'a', 'l']),
        y[0] == 'e' || y[0] == 'E' || y[0] == 'è' || y[0] == 'È',
{
    let t = x + seq!['\''] + y;
    let m = x.len() as int;
    let l = seq!['q', 'u', 'a', 'l', '\''];
    assert(same_letter(t[s + 4], l[s + 4 - s]));
    if s + 4 < m {
        assert(is_word(wide, x[s + 4]));
    } else if s + 4 > m {
        assert(is_word(wide, y[s + 4 - m - 1]));
    }
    assert(s + 4 == m);
    if s > 0 {
        assert(t[s] == x[s] && t[s - 1] == x[s - 1]);
        assert(is_word(wide, x[s]) && is_word(wide, x[s - 1]));
    }
    assert forall|j: int| 0 <= j < x.len() implies ascii_lower(#[trigger] x[j]) == seq![
        'q',
        'u',
        'a',
        'l',
    ][j] by {
        assert(t[j] == x[j]);
        assert(same_letter(t[j], l[j - s]));
    }
    assert(t[5] == y[0]);
}

proof fn lemma_joined_un(wide: spec_fn(char) -> bool, x: Seq<char>, y: Seq<char>, s: int)
    requires
        is_plain_word(wide, x),
        is_plain_word(wide, y),
        hits(Rule::Un, wide, x + seq!['\''] + y, s),
    ensures
        is_word_in_any_case(x, seq!['u', 'n']),
        is_masculine(y),
{
    let t = x + seq!['\''] + y;
    let m = x.len() as int;
    let n = t.len() as int;
    let l = seq!['u', 'n', '\''];
    assert(same_letter(t[s + 2], l[s + 2 - s]));
    if s + 2 < m {
        assert(is_word(wide, x[s + 2]));
    } else if s + 2 > m {
        assert(is_word(wide, y[s + 2 - m - 1]));
    }
    assert(s + 2 == m);
    if s > 0 {
        assert(t[s] == x[s] && t[s - 1] == x[s - 1]);
        assert(is_word(wide, x[s]) && is_word(wide, x[s - 1]));
    }
    assert forall|j: int| 0 <= j < x.len() implies ascii_lower(#[trigger] x[j]) == seq!['u', 'n'][j] by {
        assert(t[j] == x[j]);
        assert(same_letter(t[j], l[j - s]));
    }
    let e = noun_end(t, 3);
    assert forall|k: int| 3 <= k < n implies is_word(wide, #[trigger] t[k]) by {
        assert(t[k] == y[k - 3]);
        assert(is_word(wide, y[k - 3]));
    }
    assert(3 < e <= n && boundary(wide, t, e));
    if e < n {
        assert(is_word(wide, t[e]) && is_word(wide, t[e - 1]));
    }
    assert(e == n);
    assert forall|j: int| 0 <= j < y.len() implies #[trigger] t[3 + j] == y[j] by {}
    lemma_noun(t, y, seq!['a', 'l', 't', 'r', 'o']);
    lemma_noun(t, y, seq!['u', 'o', 'm', 'o']);
    lemma_noun(t, y, seq!['a', 'm', 'i', 'c', 'o']);
    lemma_noun(t, y, seq!['a', 'n', 'n', 'o']);
    lemma_noun(t, y, seq!['a', 't', 't', 'i', 'm', 'o']);
}

} // verus!

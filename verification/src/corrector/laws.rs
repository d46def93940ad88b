//! What holds of the corrections as a whole.

use crate::corrector::accents::{
    accent_table, accented, accented_from, accented_word, entry_from, in_word, is_entry,
    is_spelling_of, lemma_entries, lemma_entry, word_end,
};
use crate::corrector::corrected;
use crate::corrector::letters::{capital, is_accented_vowel, is_letter, same_letter, spells};
use crate::corrector::pieces::{hits, lemma_pieces, piece, pieces};
use crate::corrector::spelling::{
    is_blank, noun_end, respaced, rewrite, rewrite_from, Rule,
};
use crate::corrector::transfer::{
    is_clean, is_copy, landing, lemma_clean_accordo, lemma_clean_spaced, lemma_first_word,
    lemma_hits_soft, lemma_landing, lemma_poco_done, lemma_shape, lemma_soft_rule_done,
    lemma_softens, lemma_solid, lemma_spacing_done, lemma_stretch,
};
use vstd::prelude::*;

verus! {

/// A whole word of `t` stands at `i..e`.
pub open spec fn is_word_at(t: Seq<char>, i: int, e: int) -> bool {
    &&& 0 <= i < e <= t.len()
    &&& forall|j: int| i <= j < e ==> in_word(#[trigger] t[j])
    &&& (i == 0 || !in_word(t[i - 1]))
    &&& (e == t.len() || !in_word(t[e]))
}

/// Whether the table of accents has `w`.
pub open spec fn is_known(w: Seq<char>) -> bool {
    entry_from(w, 0) is Some
}

/// No word of `t` lacks an accent that the table has.
pub open spec fn is_accented(t: Seq<char>) -> bool {
    forall|i: int, e: int| #[trigger] is_word_at(t, i, e) ==> !is_known(t.subrange(i, e))
}

proof fn lemma_word_end(t: Seq<char>, i: int)
    requires
        0 <= i <= t.len(),
    ensures
        i <= word_end(t, i) <= t.len(),
        forall|j: int| i <= j < word_end(t, i) ==> in_word(#[trigger] t[j]),
        word_end(t, i) < t.len() ==> !in_word(t[word_end(t, i)]),
    decreases t.len() - i,
{
    if i < t.len() && in_word(t[i]) {
        lemma_word_end(t, i + 1);
    }
}

/// No word reaches over position `i`.
spec fn is_gap(t: Seq<char>, i: int) -> bool {
    i <= 0 || i >= t.len() || !in_word(t[i - 1]) || !in_word(t[i])
}

/// Restoring accents keeps a word's length and its being a word.
proof fn lemma_accented_word(w: Seq<char>)
    requires
        w.len() > 0,
        forall|j: int| 0 <= j < w.len() ==> in_word(#[trigger] w[j]),
    ensures
        accented_word(w).len() == w.len(),
        forall|j: int| 0 <= j < w.len() ==> in_word(#[trigger] accented_word(w)[j]),
        is_known(w) ==> is_accented_vowel(accented_word(w).last()),
        !is_known(w) ==> accented_word(w) == w,
{
    lemma_entries();
    lemma_entry(w, 0);
    if is_known(w) {
        let k = entry_from(w, 0)->0;
        assert(is_entry(accent_table()[k].0, accent_table()[k].1));
    }
}

/// Where restoring accents leaves each word and each other character.
proof fn lemma_accented_from(t: Seq<char>, i: int)
    requires
        0 <= i <= t.len(),
        is_gap(t, i),
    ensures
        accented_from(t, i).len() == t.len() - i,
        forall|s: int, e: int|
            i <= s && #[trigger] is_word_at(t, s, e) ==> accented_from(t, i).subrange(s - i, e - i)
                == accented_word(t.subrange(s, e)),
        forall|j: int|
            i <= j < t.len() && !in_word(#[trigger] t[j]) ==> accented_from(t, i)[j - i] == t[j],
    decreases t.len() - i,
{
    if i < t.len() {
        lemma_word_end(t, i);
        let m = word_end(t, i);
        let rest = accented_from(t, if i < m { m } else { i + 1 });
        if i < m {
            lemma_accented_word(t.subrange(i, m));
            lemma_accented_from(t, m);
            let head = accented_word(t.subrange(i, m));
            assert(accented_from(t, i) == head + rest);
            assert forall|s: int, e: int| i <= s && #[trigger] is_word_at(t, s, e) implies
                accented_from(t, i).subrange(s - i, e - i) == accented_word(t.subrange(s, e)) by {
                if s < m {
                    if s > i {
                        assert(in_word(t[s - 1]));
                    }
                    if e < m {
                        assert(in_word(t[e]));
                    }
                    if e > m {
                        assert(in_word(t[m]));
                    }
                    assert(accented_from(t, i).subrange(0, m - i) == head);
                } else {
                    assert(accented_from(t, i).subrange(s - i, e - i) == rest.subrange(
                        s - m,
                        e - m,
                    ));
                }
            }
        } else {
            lemma_accented_from(t, i + 1);
            assert(accented_from(t, i) == seq![t[i]] + rest);
            assert forall|s: int, e: int| i <= s && #[trigger] is_word_at(t, s, e) implies
                accented_from(t, i).subrange(s - i, e - i) == accented_word(t.subrange(s, e)) by {
                assert(in_word(t[s]));
                assert(accented_from(t, i).subrange(s - i, e - i) == rest.subrange(
                    s - i - 1,
                    e - i - 1,
                ));
            }
        }
    }
}

/// Every word character belongs to a word.
proof fn lemma_word_around(t: Seq<char>, j: int) -> (r: (int, int))
    requires
        0 <= j < t.len(),
        in_word(t[j]),
    ensures
        is_word_at(t, r.0, r.1),
        r.0 <= j < r.1,
{
    let s = lemma_word_start(t, j);
    lemma_word_end(t, j);
    (s, word_end(t, j))
}

proof fn lemma_word_start(t: Seq<char>, j: int) -> (s: int)
    requires
        0 <= j < t.len(),
        in_word(t[j]),
    ensures
        0 <= s <= j,
        forall|k: int| s <= k <= j ==> in_word(#[trigger] t[k]),
        s == 0 || !in_word(t[s - 1]),
    decreases j,
{
    if j > 0 && in_word(t[j - 1]) {
        lemma_word_start(t, j - 1)
    } else {
        j
    }
}

/// A word that ends in an accented vowel is not in the table.
proof fn lemma_accent_unknown(w: Seq<char>)
    requires
        w.len() > 0,
        is_accented_vowel(w.last()),
    ensures
        !is_known(w),
{
    lemma_entries();
    lemma_entry(w, 0);
    if is_known(w) {
        let k = entry_from(w, 0)->0;
        let key = accent_table()[k].0;
        assert(is_entry(key, accent_table()[k].1));
        assert(same_letter(w[w.len() - 1], key[w.len() - 1 - 0]));
    }
}

/// Restoring accents leaves none to restore.
proof fn lemma_accents_done(t: Seq<char>)
    ensures
        is_accented(accented(t)),
{
    let u = accented(t);
    lemma_accented_from(t, 0);
    assert forall|j: int| 0 <= j < t.len() implies in_word(#[trigger] u[j]) == in_word(t[j]) by {
        if in_word(t[j]) {
            let (s, e) = lemma_word_around(t, j);
            let w = t.subrange(s, e);
            lemma_accented_word(w);
            assert(u.subrange(s - 0, e - 0) == accented_word(w));
            assert(u.subrange(s, e)[j - s] == u[j]);
        } else {
            assert(accented_from(t, 0)[j - 0] == t[j]);
        }
    }
    assert forall|i: int, e: int| #[trigger] is_word_at(u, i, e) implies !is_known(
        u.subrange(i, e),
    ) by {
        assert(is_word_at(t, i, e)) by {
            assert forall|j: int| i <= j < e implies in_word(#[trigger] t[j]) by {
                assert(in_word(u[j]));
            }
            if i > 0 {
                assert(in_word(u[i - 1]) == in_word(t[i - 1]));
            }
            if e < t.len() {
                assert(in_word(u[e]) == in_word(t[e]));
            }
        }
        let w = t.subrange(i, e);
        lemma_accented_word(w);
        assert(u.subrange(i - 0, e - 0) == accented_word(w));
        if is_known(w) {
            lemma_accent_unknown(u.subrange(i, e));
        }
    }
}

/// A text without missing accents stays as it is.
proof fn lemma_accents_none(t: Seq<char>, i: int)
    requires
        is_accented(t),
        0 <= i <= t.len(),
        is_gap(t, i),
    ensures
        accented_from(t, i) == t.skip(i),
    decreases t.len() - i,
{
    if i < t.len() {
        lemma_word_end(t, i);
        let m = word_end(t, i);
        if i < m {
            lemma_accents_none(t, m);
            assert(is_word_at(t, i, m));
            lemma_accented_word(t.subrange(i, m));
            assert(t.subrange(i, m) + t.skip(m) == t.skip(i));
        } else {
            lemma_accents_none(t, i + 1);
            assert(seq![t[i]] + t.skip(i + 1) == t.skip(i));
        }
    }
}

/// A text without matches of a rule stays as it is.
proof fn lemma_rule_none(rule: Rule, wide: spec_fn(char) -> bool, t: Seq<char>, i: int)
    requires
        is_clean(rule, wide, t),
        0 <= i <= t.len(),
    ensures
        rewrite_from(rule, wide, t, i) == t.skip(i),
    decreases t.len() - i,
{
    if i < t.len() {
        assert(!hits(rule, wide, t, i));
        lemma_rule_none(rule, wide, t, i + 1);
        assert(seq![t[i]] + t.skip(i + 1) == t.skip(i));
    }
}

/// A word that the table has holds ASCII letters only; so does any copy of it,
/// and the table has that copy too.
proof fn lemma_known_copy(t: Seq<char>, i: int, u: Seq<char>, q: int, n: int) -> (key: Seq<char>)
    requires
        is_copy(t, i, u, q, n),
        n > 0,
        is_known(u.subrange(q, q + n)),
    ensures
        is_known(t.subrange(i, i + n)),
        exists|last: char| is_entry(key, last),
        key.len() == n,
        spells(t, i, key),
        spells(u, q, key),
        forall|k: int| i <= k < i + n ==> is_letter(#[trigger] t[k]),
{
    let w = u.subrange(q, q + n);
    let v = t.subrange(i, i + n);
    lemma_entries();
    lemma_entry(w, 0);
    lemma_entry(v, 0);
    let e = entry_from(w, 0)->0;
    let key = accent_table()[e].0;
    assert(is_entry(key, accent_table()[e].1));
    assert forall|j: int| q <= j < q + n implies same_letter(#[trigger] u[j], key[j - q]) by {
        assert(w[j - q] == u[j]);
        assert(same_letter(w[j - q], key[j - q - 0]));
    }
    assert forall|j: int| i <= j < i + n implies same_letter(#[trigger] t[j], key[j - i]) by {
        assert(same_letter(u[j - i + q], key[j - i + q - q]));
        assert('a' <= key[j - i] <= 'z');
    }
    assert forall|j: int| 0 <= j < n implies same_letter(#[trigger] v[j], key[j - 0]) by {
        assert(same_letter(t[i + j], key[i + j - i]));
    }
    assert(is_spelling_of(v, key));
    key
}

/// A character of a word that the table has is an ASCII letter.
proof fn lemma_known_letters(u: Seq<char>, q: int, n: int)
    requires
        0 <= q,
        n > 0,
        q + n <= u.len(),
        is_known(u.subrange(q, q + n)),
    ensures
        forall|k: int|
            q <= k < q + n ==> 'a' <= #[trigger] u[k] <= 'z' || 'A' <= u[k] <= 'Z',
{
    let key = lemma_known_copy(u, q, u, q, n);
    let last = choose|last: char| is_entry(key, last);
    assert(is_entry(key, last));
    assert forall|k: int| q <= k < q + n implies 'a' <= #[trigger] u[k] <= 'z' || 'A' <= u[k]
        <= 'Z' by {
        assert(same_letter(u[k], key[k - q]));
        assert('a' <= key[k - q] <= 'z');
    }
}

/// Changing the spacing brings no missing accent about.
proof fn lemma_accented_spaced(rule: Rule, wide: spec_fn(char) -> bool, t: Seq<char>)
    requires
        rule is SpacedMark || rule is Blanks,
        is_accented(t),
    ensures
        is_accented(rewrite(rule, wide, t)),
{
    let u = rewrite(rule, wide, t);
    assert forall|q: int, e: int| #[trigger] is_word_at(u, q, e) implies !is_known(
        u.subrange(q, e),
    ) by {
        if is_known(u.subrange(q, e)) {
            let n = e - q;
            lemma_known_letters(u, q, n);
            let i = lemma_stretch(rule, wide, t, q, n);
            assert forall|k: int| i <= k < i + n implies in_word(#[trigger] t[k]) by {
                assert(t.subrange(i, i + n)[k - i] == u.subrange(q, q + n)[k - i]);
                assert(in_word(u[q + (k - i)]));
            }
            assert(is_word_at(t, i, i + n));
        }
    }
}

/// What follows an apostrophe that a rule dropped, and what comes before it.
proof fn lemma_dropped(rule: Rule, wide: spec_fn(char) -> bool, t: Seq<char>, j: int)
    requires
        rule is Qual || rule is Un,
        0 <= j < t.len(),
        t[j] == '\'',
        rewrite(rule, wide, t)[j] == ' ',
    ensures
        j > 0,
        rule is Qual ==> same_letter(t[j - 1], 'l') && j + 1 < t.len() && (same_letter(
            t[j + 1],
            'e',
        ) || same_letter(t[j + 1], 'è')),
        rule is Un ==> same_letter(t[j - 1], 'n') && noun_end(t, j + 1) > j + 1,
{
    reveal(piece);
    lemma_softens(rule, wide, t);
    let u = rewrite(rule, wide, t);
    assert(seq![u[j]][0] == piece(rule, wide, t, j)[0]);
    if rule is Qual {
        let s = j - 4;
        assert(hits(rule, wide, t, s));
        assert(same_letter(t[s + 3], seq!['q', 'u', 'a', 'l', '\''][s + 3 - s]));
    } else {
        let s = j - 2;
        assert(hits(rule, wide, t, s));
        assert(same_letter(t[s + 1], seq!['u', 'n', '\''][s + 1 - s]));
    }
}

/// No entry of the table starts as one of the words that follow "un".
proof fn lemma_entry_no_noun(t: Seq<char>, i: int, key: Seq<char>, last: char)
    requires
        is_entry(key, last),
        spells(t, i, key),
    ensures
        noun_end(t, i) == i,
        !same_letter(t[i], 'e'),
        !same_letter(t[i], 'è'),
        !same_letter(t[i + key.len() - 1], 'l'),
        !same_letter(t[i + key.len() - 1], 'n'),
{
    assert(same_letter(t[i], key[i - i]));
    assert(same_letter(t[i + 1], key[i + 1 - i]));
    assert(same_letter(t[i + 2], key[i + 2 - i]));
    let e = i + key.len() - 1;
    assert(same_letter(t[e], key[e - i]));
    assert('a' <= key[0] <= 'z' && 'a' <= key[1] <= 'z' && 'a' <= key[2] <= 'z');
    if key.len() > 4 {
        assert(same_letter(t[i + 4], key[i + 4 - i]));
        assert('a' <= key[4] <= 'z');
    }
    if spells(t, i, seq!['a', 'l', 't', 'r', 'o']) {
        let w = seq!['a', 'l', 't', 'r', 'o'];
        assert(same_letter(t[i], w[i - i]) && same_letter(t[i + 1], w[i + 1 - i]));
    }
    if spells(t, i, seq!['u', 'o', 'm', 'o']) {
        let w = seq!['u', 'o', 'm', 'o'];
        assert(same_letter(t[i], w[i - i]) && same_letter(t[i + 1], w[i + 1 - i]));
    }
    if spells(t, i, seq!['a', 'm', 'i', 'c', 'o']) {
        let w = seq!['a', 'm', 'i', 'c', 'o'];
        assert(same_letter(t[i], w[i - i]) && same_letter(t[i + 1], w[i + 1 - i]));
    }
    if spells(t, i, seq!['a', 'n', 'n', 'o']) {
        let w = seq!['a', 'n', 'n', 'o'];
        assert(same_letter(t[i], w[i - i]) && same_letter(t[i + 1], w[i + 1 - i]));
        assert(same_letter(t[i + 2], w[i + 2 - i]));
    }
    if spells(t, i, seq!['a', 't', 't', 'i', 'm', 'o']) {
        let w = seq!['a', 't', 't', 'i', 'm', 'o'];
        assert(same_letter(t[i], w[i - i]) && same_letter(t[i + 1], w[i + 1 - i]));
        assert(same_letter(t[i + 4], w[i + 4 - i]));
    }
}

/// Dropping an apostrophe brings no missing accent about.
proof fn lemma_accented_soft(rule: Rule, wide: spec_fn(char) -> bool, t: Seq<char>)
    requires
        rule is Qual || rule is Un,
        is_accented(t),
    ensures
        is_accented(rewrite(rule, wide, t)),
{
    let u = rewrite(rule, wide, t);
    lemma_softens(rule, wide, t);
    assert forall|q: int, e: int| #[trigger] is_word_at(u, q, e) implies !is_known(
        u.subrange(q, e),
    ) by {
        if is_known(u.subrange(q, e)) {
            let n = e - q;
            lemma_known_letters(u, q, n);
            assert(is_copy(t, q, u, q, n)) by {
                assert forall|k: int| q <= k < q + n implies {
                    ||| #[trigger] u[k] == t[k - q + q]
                    ||| 'a' <= u[k] <= 'z' && t[k - q + q] == capital(u[k])
                } by {}
            }
            let key = lemma_known_copy(t, q, u, q, n);
            let last = choose|last: char| is_entry(key, last);
            lemma_entry_no_noun(t, q, key, last);
            if 0 < q && in_word(t[q - 1]) {
                assert(u[q - 1] == u[q - 1]);
                assert(t[q - 1] == '\'' && u[q - 1] == ' ');
                lemma_dropped(rule, wide, t, q - 1);
            }
            if e < t.len() && in_word(t[e]) {
                assert(u[e] == u[e]);
                assert(t[e] == '\'' && u[e] == ' ');
                lemma_dropped(rule, wide, t, e);
            }
            assert(is_word_at(t, q, e));
        }
    }
}

/// A piece that is no letter is the character itself, and one of a single
/// letter is that letter.
proof fn lemma_plain(rule: Rule, wide: spec_fn(char) -> bool, t: Seq<char>, j: int)
    requires
        rule is Poco || rule is Accordo,
        0 <= j < t.len(),
    ensures
        ({
            let p = piece(rule, wide, t, j);
            &&& p.len() > 0
            &&& !in_word(p[0]) ==> p == seq![t[j]]
            &&& p.len() == 1 ==> p[0] == t[j] || ('a' <= p[0] <= 'z' && t[j] == capital(p[0]))
        }),
{
    lemma_shape(rule, wide, t, j);
    lemma_first_word(rule, wide, t, j);
    reveal(piece);
}

/// Putting an apostrophe in brings no missing accent about.
proof fn lemma_accented_joined(rule: Rule, wide: spec_fn(char) -> bool, t: Seq<char>)
    requires
        rule is Poco || rule is Accordo,
        is_accented(t),
    ensures
        is_accented(rewrite(rule, wide, t)),
{
    let u = rewrite(rule, wide, t);
    assert forall|q: int, e: int| #[trigger] is_word_at(u, q, e) implies !is_known(
        u.subrange(q, e),
    ) by {
        if is_known(u.subrange(q, e)) {
            lemma_joined_word(rule, wide, t, q, e);
        }
    }
}

proof fn lemma_joined_word(
    rule: Rule,
    wide: spec_fn(char) -> bool,
    t: Seq<char>,
    q: int,
    e: int,
)
    requires
        rule is Poco || rule is Accordo,
        is_accented(t),
        is_word_at(rewrite(rule, wide, t), q, e),
    ensures
        !is_known(rewrite(rule, wide, t).subrange(q, e)),
{
    let u = rewrite(rule, wide, t);
    if is_known(u.subrange(q, e)) {
        let n = e - q;
        lemma_known_letters(u, q, n);
        let i = lemma_solid(rule, wide, t, q, n);
        assert forall|k: int| i <= k < i + n implies (#[trigger] piece(rule, wide, t, k)).len()
            == 1 by {
            lemma_shape(rule, wide, t, k);
            lemma_landing(rule, wide, t, k);
            let p = piece(rule, wide, t, k);
            assert(landing(rule, wide, t, k) == q + k - i);
            if p.len() == 2 {
                assert(p[1] == u[q + k - i + 1]);
                if k == i + n - 1 {
                    assert(e < u.len());
                }
            }
        }
        assert(is_copy(t, i, u, q, n)) by {
            assert forall|k: int| q <= k < q + n implies {
                ||| #[trigger] u[k] == t[k - q + i]
                ||| 'a' <= u[k] <= 'z' && t[k - q + i] == capital(u[k])
            } by {
                let j = k - q + i;
                lemma_plain(rule, wide, t, j);
                assert(piece(rule, wide, t, j).len() == 1);
                assert(piece(rule, wide, t, j)[0] == u[q + j - i]);
            }
        }
        let key = lemma_known_copy(t, i, u, q, n);
        assert(landing(rule, wide, t, i) == q + i - i);
        if 0 < i {
            lemma_landing(rule, wide, t, i - 1);
            lemma_shape(rule, wide, t, i - 1);
            lemma_plain(rule, wide, t, i - 1);
            let p = piece(rule, wide, t, i - 1);
            assert(p[p.len() - 1] == u[landing(rule, wide, t, i - 1) + (p.len() - 1)]);
            assert(!in_word(u[q - 1]));
            assert(!in_word(t[i - 1]));
        }
        if i + n < t.len() {
            assert(landing(rule, wide, t, i + n - 1) == q + (i + n - 1) - i);
            lemma_landing(rule, wide, t, i + n - 1);
            assert(piece(rule, wide, t, i + n - 1).len() == 1);
            lemma_landing(rule, wide, t, i + n);
            lemma_plain(rule, wide, t, i + n);
            let p = piece(rule, wide, t, i + n);
            assert(p[0] == u[landing(rule, wide, t, i + n) + 0]);
            assert(e < u.len());
            assert(!in_word(t[i + n]));
        }
        assert(is_word_at(t, i, i + n));
    }
}

/// Nothing that a correction looks for is left in `t`.
pub open spec fn is_correct(wide: spec_fn(char) -> bool, t: Seq<char>) -> bool {
    &&& is_accented(t)
    &&& is_clean(Rule::Poco, wide, t)
    &&& is_clean(Rule::Qual, wide, t)
    &&& is_clean(Rule::Un, wide, t)
    &&& is_clean(Rule::Accordo, wide, t)
    &&& is_clean(Rule::SpacedMark, wide, t)
    &&& is_clean(Rule::Blanks, wide, t)
}

/// A rule that drops an apostrophe makes no work for another spelling rule.
proof fn lemma_clean_soft(rule: Rule, soft: Rule, wide: spec_fn(char) -> bool, t: Seq<char>)
    requires
        rule is Poco || rule is Qual || rule is Un || rule is Accordo,
        soft is Qual || soft is Un,
        is_clean(rule, wide, t),
    ensures
        is_clean(rule, wide, rewrite(soft, wide, t)),
{
    let u = rewrite(soft, wide, t);
    lemma_softens(soft, wide, t);
    assert forall|i: int| !#[trigger] hits(rule, wide, u, i) by {
        if hits(rule, wide, u, i) {
            lemma_hits_soft(rule, wide, t, u, i);
            assert(!hits(rule, wide, t, i));
        }
    }
}

/// Restoring accents goes word by word, and changes only whole words that the
/// table has: every other word and every other character stays where and what
/// it was.
pub proof fn law_accents_keep_the_rest(t: Seq<char>)
    ensures
        accented(t).len() == t.len(),
        forall|j: int| 0 <= j < t.len() && !in_word(#[trigger] t[j]) ==> accented(t)[j] == t[j],
        forall|s: int, e: int| #[trigger]
            is_word_at(t, s, e) ==> accented(t).subrange(s, e) == accented_word(t.subrange(s, e)),
        forall|s: int, e: int|
            #[trigger] is_word_at(t, s, e) && !is_known(t.subrange(s, e)) ==> accented(t).subrange(
                s,
                e,
            ) == t.subrange(s, e),
        forall|s: int, e: int|
            #[trigger] is_word_at(t, s, e) && is_known(t.subrange(s, e)) ==> is_accented_vowel(
                accented(t)[e - 1],
            ),
{
    lemma_accented_from(t, 0);
    assert forall|j: int| 0 <= j < t.len() && !in_word(#[trigger] t[j]) implies accented(t)[j]
        == t[j] by {
        assert(accented_from(t, 0)[j - 0] == t[j]);
    }
    assert forall|s: int, e: int| #[trigger] is_word_at(t, s, e) implies accented(t).subrange(s, e)
        == accented_word(t.subrange(s, e)) by {
        assert(accented_from(t, 0).subrange(s - 0, e - 0) == accented_word(t.subrange(s, e)));
    }
    assert forall|s: int, e: int| #[trigger] is_word_at(t, s, e) && is_known(t.subrange(s, e)) implies
    is_accented_vowel(accented(t)[e - 1]) by {
        let w = t.subrange(s, e);
        lemma_accented_word(w);
        assert(accented(t).subrange(s, e) == accented_word(w));
        assert(accented_word(w)[e - s - 1] == accented(t)[e - 1]);
    }
    assert forall|s: int, e: int| #[trigger] is_word_at(t, s, e) && !is_known(
        t.subrange(s, e),
    ) implies accented(t).subrange(s, e) == t.subrange(s, e) by {
        lemma_accented_word(t.subrange(s, e));
    }
}

/// A corrected text has nothing left to correct.
pub proof fn law_corrected_is_correct(wide: spec_fn(char) -> bool, t: Seq<char>)
    ensures
        is_correct(wide, corrected(wide, t)),
{
    let a = accented(t);
    lemma_accents_done(t);
    let poco = rewrite(Rule::Poco, wide, a);
    lemma_accented_joined(Rule::Poco, wide, a);
    lemma_poco_done(wide, a);
    let qual = rewrite(Rule::Qual, wide, poco);
    lemma_accented_soft(Rule::Qual, wide, poco);
    lemma_soft_rule_done(Rule::Qual, wide, poco);
    lemma_clean_soft(Rule::Poco, Rule::Qual, wide, poco);
    let un = rewrite(Rule::Un, wide, qual);
    lemma_accented_soft(Rule::Un, wide, qual);
    lemma_soft_rule_done(Rule::Un, wide, qual);
    lemma_clean_soft(Rule::Poco, Rule::Un, wide, qual);
    lemma_clean_soft(Rule::Qual, Rule::Un, wide, qual);
    let accordo = rewrite(Rule::Accordo, wide, un);
    lemma_accented_joined(Rule::Accordo, wide, un);
    lemma_clean_accordo(Rule::Accordo, wide, un);
    lemma_clean_accordo(Rule::Poco, wide, un);
    lemma_clean_accordo(Rule::Qual, wide, un);
    lemma_clean_accordo(Rule::Un, wide, un);
    let marks = rewrite(Rule::SpacedMark, wide, accordo);
    lemma_spaced(Rule::SpacedMark, wide, accordo);
    lemma_spacing_done(wide, accordo);
    lemma_spaced(Rule::Blanks, wide, marks);
    lemma_spacing_done(wide, marks);
}

/// The spacing rules make no work for the corrections before them.
proof fn lemma_spaced(spacing: Rule, wide: spec_fn(char) -> bool, t: Seq<char>)
    requires
        spacing is SpacedMark || spacing is Blanks,
        is_accented(t),
        is_clean(Rule::Poco, wide, t),
        is_clean(Rule::Qual, wide, t),
        is_clean(Rule::Un, wide, t),
        is_clean(Rule::Accordo, wide, t),
    ensures
        is_accented(rewrite(spacing, wide, t)),
        is_clean(Rule::Poco, wide, rewrite(spacing, wide, t)),
        is_clean(Rule::Qual, wide, rewrite(spacing, wide, t)),
        is_clean(Rule::Un, wide, rewrite(spacing, wide, t)),
        is_clean(Rule::Accordo, wide, rewrite(spacing, wide, t)),
{
    lemma_accented_spaced(spacing, wide, t);
    lemma_clean_spaced(Rule::Poco, spacing, wide, t);
    lemma_clean_spaced(Rule::Qual, spacing, wide, t);
    lemma_clean_spaced(Rule::Un, spacing, wide, t);
    lemma_clean_spaced(Rule::Accordo, spacing, wide, t);
}

/// A text with nothing to correct comes back unchanged.
pub proof fn law_correct_stays(wide: spec_fn(char) -> bool, t: Seq<char>)
    requires
        is_correct(wide, t),
    ensures
        corrected(wide, t) == t,
{
    lemma_accents_none(t, 0);
    assert(t.skip(0) == t);
    lemma_rule_none(Rule::Poco, wide, t, 0);
    lemma_rule_none(Rule::Qual, wide, t, 0);
    lemma_rule_none(Rule::Un, wide, t, 0);
    lemma_rule_none(Rule::Accordo, wide, t, 0);
    lemma_rule_none(Rule::SpacedMark, wide, t, 0);
    lemma_rule_none(Rule::Blanks, wide, t, 0);
}

/// Correcting twice is correcting once.
pub proof fn law_idempotent(wide: spec_fn(char) -> bool, t: Seq<char>)
    ensures
        corrected(wide, corrected(wide, t)) == corrected(wide, t),
{
    law_corrected_is_correct(wide, t);
    law_correct_stays(wide, corrected(wide, t));
}

/// `t` without its spaces and tabs.
pub open spec fn without_blanks(t: Seq<char>) -> Seq<char> {
    t.filter(|c: char| !is_blank(c))
}

proof fn lemma_without_blanks(a: Seq<char>, b: Seq<char>)
    ensures
        without_blanks(a + b) == without_blanks(a) + without_blanks(b),
{
    Seq::filter_distributes_over_add(a, b, |c: char| !is_blank(c));
}

proof fn lemma_without_one(c: char)
    ensures
        without_blanks(seq![c]) == if is_blank(c) {
            Seq::<char>::empty()
        } else {
            seq![c]
        },
        without_blanks(Seq::<char>::empty()) == Seq::<char>::empty(),
{
    reveal(Seq::filter);
    let s = seq![c];
    assert(s.drop_last() == Seq::<char>::empty());
    assert(without_blanks(s.drop_last()) == Seq::<char>::empty());
    assert(s.last() == c);
    assert(Seq::<char>::empty().push(c) == s);
}

proof fn lemma_spacing_keeps(rule: Rule, wide: spec_fn(char) -> bool, t: Seq<char>, n: int)
    requires
        rule is SpacedMark || rule is Blanks,
        0 <= n <= t.len(),
    ensures
        without_blanks(pieces(rule, wide, t, n)) == without_blanks(t.take(n)),
        pieces(rule, wide, t, n).len() <= n,
    decreases n,
{
    if n > 0 {
        let i = n - 1;
        lemma_spacing_keeps(rule, wide, t, i);
        let p = piece(rule, wide, t, i);
        assert(without_blanks(p) == without_blanks(seq![t[i]]) && p.len() <= 1) by {
            reveal(piece);
            lemma_without_one(t[i]);
            lemma_without_one(' ');
            if hits(rule, wide, t, i) {
                assert(is_blank(t[i]));
            }
        }
        lemma_without_blanks(pieces(rule, wide, t, i), p);
        assert(t.take(n) == t.take(i) + seq![t[i]]);
        lemma_without_blanks(t.take(i), seq![t[i]]);
    } else {
        assert(t.take(0) == Seq::<char>::empty());
    }
}

/// Changing the spacing changes nothing but blanks: every other character
/// stays, in order, and the text never grows, so nothing is put behind a mark.
pub proof fn law_spacing_changes_only_blanks(wide: spec_fn(char) -> bool, t: Seq<char>)
    ensures
        without_blanks(respaced(wide, t)) == without_blanks(t),
        respaced(wide, t).len() <= t.len(),
{
    let marks = rewrite(Rule::SpacedMark, wide, t);
    lemma_pieces(Rule::SpacedMark, wide, t);
    lemma_spacing_keeps(Rule::SpacedMark, wide, t, t.len() as int);
    assert(t.take(t.len() as int) == t);
    lemma_pieces(Rule::Blanks, wide, marks);
    lemma_spacing_keeps(Rule::Blanks, wide, marks, marks.len() as int);
    assert(marks.take(marks.len() as int) == marks);
}

} // verus!

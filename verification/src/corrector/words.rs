//! What restoring accents comes to, word by word.

use crate::corrector::accents::{
    accent_table, accented, accented_from, accented_word, entry_from, in_word, is_spelling_of,
    lemma_entries, lemma_entry, with_last, word_end,
};
use crate::corrector::letters::{is_letter, same_letter};
use crate::text::ascii_lower;
use vstd::prelude::*;

verus! {

/// The words that are written with an accent at the end and are no words
/// without it.
pub open spec fn accented_words() -> Seq<Seq<char>> {
    seq![
        "perché"@,
        "poiché"@,
        "benché"@,
        "affinché"@,
        "finché"@,
        "anziché"@,
        "nonché"@,
        "cosicché"@,
        "sicché"@,
        "dacché"@,
        "fuorché"@,
        "granché"@,
        "più"@,
        "può"@,
        "già"@,
        "cioè"@,
        "perciò"@,
        "così"@,
        "laggiù"@,
        "quaggiù"@,
        "lassù"@,
        "quassù"@,
        "città"@,
        "università"@,
        "società"@,
        "qualità"@,
        "realtà"@,
        "libertà"@,
        "verità"@,
        "novità"@,
        "attività"@,
        "possibilità"@,
        "necessità"@,
        "difficoltà"@,
        "identità"@,
        "virtù"@,
        "gioventù"@,
        "tribù"@,
        "caffè"@,
        "lunedì"@,
        "martedì"@,
        "mercoledì"@,
        "giovedì"@,
        "venerdì"@,
    ]
}

/// A vowel without its accent, and anything else as it is.
pub open spec fn without_accent(c: char) -> char {
    if c == 'à' {
        'a'
    } else if c == 'è' || c == 'é' {
        'e'
    } else if c == 'ì' {
        'i'
    } else if c == 'ò' {
        'o'
    } else if c == 'ù' {
        'u'
    } else {
        c
    }
}

/// Whether `w` is the word `a` without its accent, in any mix of cases.
pub open spec fn is_plain_form(w: Seq<char>, a: Seq<char>) -> bool {
    &&& w.len() == a.len()
    &&& forall|j: int| 0 <= j < w.len() ==> ascii_lower(#[trigger] w[j]) == without_accent(a[j])
}

/// The words are those of the table, with the accents it gives them.
#[verifier::rlimit(60)]
proof fn lemma_table_words()
    ensures
        accented_words().len() == accent_table().len(),
        forall|k: int|
            0 <= k < accent_table().len() ==> #[trigger] accented_words()[k] == with_last(
                accent_table()[k].0,
                accent_table()[k].1,
            ),
        forall|k: int|
            0 <= k < accent_table().len() ==> without_accent((#[trigger] accent_table()[k]).1)
                == accent_table()[k].0.last(),
{
    reveal_strlit("perché");
    reveal_strlit("poiché");
    reveal_strlit("benché");
    reveal_strlit("affinché");
    reveal_strlit("finché");
    reveal_strlit("anziché");
    reveal_strlit("nonché");
    reveal_strlit("cosicché");
    reveal_strlit("sicché");
    reveal_strlit("dacché");
    reveal_strlit("fuorché");
    reveal_strlit("granché");
    reveal_strlit("più");
    reveal_strlit("può");
    reveal_strlit("già");
    reveal_strlit("cioè");
    reveal_strlit("perciò");
    reveal_strlit("così");
    reveal_strlit("laggiù");
    reveal_strlit("quaggiù");
    reveal_strlit("lassù");
    reveal_strlit("quassù");
    reveal_strlit("città");
    reveal_strlit("università");
    reveal_strlit("società");
    reveal_strlit("qualità");
    reveal_strlit("realtà");
    reveal_strlit("libertà");
    reveal_strlit("verità");
    reveal_strlit("novità");
    reveal_strlit("attività");
    reveal_strlit("possibilità");
    reveal_strlit("necessità");
    reveal_strlit("difficoltà");
    reveal_strlit("identità");
    reveal_strlit("virtù");
    reveal_strlit("gioventù");
    reveal_strlit("tribù");
    reveal_strlit("caffè");
    reveal_strlit("lunedì");
    reveal_strlit("martedì");
    reveal_strlit("mercoledì");
    reveal_strlit("giovedì");
    reveal_strlit("venerdì");
    reveal_strlit("perche");
    reveal_strlit("poiche");
    reveal_strlit("benche");
    reveal_strlit("affinche");
    reveal_strlit("finche");
    reveal_strlit("anziche");
    reveal_strlit("nonche");
    reveal_strlit("cosicche");
    reveal_strlit("sicche");
    reveal_strlit("dacche");
    reveal_strlit("fuorche");
    reveal_strlit("granche");
    reveal_strlit("piu");
    reveal_strlit("puo");
    reveal_strlit("gia");
    reveal_strlit("cioe");
    reveal_strlit("percio");
    reveal_strlit("cosi");
    reveal_strlit("laggiu");
    reveal_strlit("quaggiu");
    reveal_strlit("lassu");
    reveal_strlit("quassu");
    reveal_strlit("citta");
    reveal_strlit("universita");
    reveal_strlit("societa");
    reveal_strlit("qualita");
    reveal_strlit("realta");
    reveal_strlit("liberta");
    reveal_strlit("verita");
    reveal_strlit("novita");
    reveal_strlit("attivita");
    reveal_strlit("possibilita");
    reveal_strlit("necessita");
    reveal_strlit("difficolta");
    reveal_strlit("identita");
    reveal_strlit("virtu");
    reveal_strlit("gioventu");
    reveal_strlit("tribu");
    reveal_strlit("caffe");
    reveal_strlit("lunedi");
    reveal_strlit("martedi");
    reveal_strlit("mercoledi");
    reveal_strlit("giovedi");
    reveal_strlit("venerdi");
    assert forall|k: int| 0 <= k < accent_table().len() implies #[trigger] accented_words()[k]
        == with_last(accent_table()[k].0, accent_table()[k].1) by {
        assert(accented_words()[k] =~= with_last(accent_table()[k].0, accent_table()[k].1));
    }
}

proof fn lemma_same_letter(c: char, l: char)
    requires
        'a' <= l <= 'z',
    ensures
        same_letter(c, l) <==> ascii_lower(c) == l,
{
}

/// A word spells an entry of the table if it is the plain form of what the entry
/// gives.
proof fn lemma_plain_form(w: Seq<char>, k: int)
    requires
        0 <= k < accent_table().len(),
    ensures
        is_spelling_of(w, accent_table()[k].0) <==> is_plain_form(w, accented_words()[k]),
{
    lemma_entries();
    lemma_table_words();
    let key = accent_table()[k].0;
    let a = accented_words()[k];
    assert(a == with_last(key, accent_table()[k].1));
    assert forall|j: int| 0 <= j < key.len() implies without_accent(#[trigger] a[j]) == key[j] by {
        assert('a' <= key[j] <= 'z');
    }
    if is_spelling_of(w, key) {
        assert forall|j: int| 0 <= j < w.len() implies ascii_lower(#[trigger] w[j])
            == without_accent(a[j]) by {
            assert(same_letter(w[j], key[j - 0]));
            assert('a' <= key[j] <= 'z');
        }
    }
    if is_plain_form(w, a) {
        assert forall|j: int| 0 <= j < 0 + key.len() implies same_letter(
            #[trigger] w[j],
            key[j - 0],
        ) by {
            assert('a' <= key[j] <= 'z');
            assert(ascii_lower(w[j]) == without_accent(a[j]));
        }
    }
}

/// A word that is one of the accented words without its accent becomes that
/// word, and keeps the case of its first letter. Any other word stays as it is.
pub proof fn law_accents_are_those_of_the_words(w: Seq<char>)
    ensures
        ({
            let is_known = exists|k: int|
                0 <= k < accented_words().len() && #[trigger] is_plain_form(w, accented_words()[k]);
            &&& is_known ==> exists|k: int|
                0 <= k < accented_words().len() && #[trigger] is_plain_form(w, accented_words()[k])
                    && accented_word(w) == accented_words()[k].update(0, w[0])
            &&& !is_known ==> accented_word(w) == w
        }),
{
    lemma_entries();
    lemma_table_words();
    lemma_entry(w, 0);
    match entry_from(w, 0) {
        Some(k) => {
            lemma_plain_form(w, k);
            let key = accent_table()[k].0;
            let a = accented_words()[k];
            assert(a == with_last(key, accent_table()[k].1));
            assert('a' <= key[0] <= 'z');
            assert(same_letter(w[0], key[0 - 0]));
            assert(a[0] == key[0]);
            assert(accented_word(w) =~= a.update(0, w[0]));
            assert(is_plain_form(w, accented_words()[k]));
        },
        None => {
            assert forall|k: int| 0 <= k < accented_words().len() implies !#[trigger] is_plain_form(
                w,
                accented_words()[k],
            ) by {
                lemma_plain_form(w, k);
                assert(!is_spelling_of(w, accent_table()[k].0));
            }
        },
    }
}

/// In the accented words only the last letter is accented: an `e` is acute in
/// words in `-che` and grave in others.
#[verifier::rlimit(60)]
proof fn lemma_last_letters()
    ensures
        forall|k: int|
            0 <= k < accented_words().len() ==> {
                let a = #[trigger] accented_words()[k];
                let n = a.len() as int;
                &&& n >= 3
                &&& forall|j: int| 0 <= j < n - 1 ==> 'a' <= #[trigger] a[j] <= 'z'
                &&& a[n - 1] == 'à' || a[n - 1] == 'è' || a[n - 1] == 'é' || a[n - 1] == 'ì' || a[n
                    - 1] == 'ò' || a[n - 1] == 'ù'
                &&& a[n - 1] == 'é' <==> (a[n - 3] == 'c' && a[n - 2] == 'h')
            },
{
    reveal_strlit("perché");
    reveal_strlit("poiché");
    reveal_strlit("benché");
    reveal_strlit("affinché");
    reveal_strlit("finché");
    reveal_strlit("anziché");
    reveal_strlit("nonché");
    reveal_strlit("cosicché");
    reveal_strlit("sicché");
    reveal_strlit("dacché");
    reveal_strlit("fuorché");
    reveal_strlit("granché");
    reveal_strlit("più");
    reveal_strlit("può");
    reveal_strlit("già");
    reveal_strlit("cioè");
    reveal_strlit("perciò");
    reveal_strlit("così");
    reveal_strlit("laggiù");
    reveal_strlit("quaggiù");
    reveal_strlit("lassù");
    reveal_strlit("quassù");
    reveal_strlit("città");
    reveal_strlit("università");
    reveal_strlit("società");
    reveal_strlit("qualità");
    reveal_strlit("realtà");
    reveal_strlit("libertà");
    reveal_strlit("verità");
    reveal_strlit("novità");
    reveal_strlit("attività");
    reveal_strlit("possibilità");
    reveal_strlit("necessità");
    reveal_strlit("difficoltà");
    reveal_strlit("identità");
    reveal_strlit("virtù");
    reveal_strlit("gioventù");
    reveal_strlit("tribù");
    reveal_strlit("caffè");
    reveal_strlit("lunedì");
    reveal_strlit("martedì");
    reveal_strlit("mercoledì");
    reveal_strlit("giovedì");
    reveal_strlit("venerdì");
}

/// Restoring an accent never changes which word it is: the letters stay, the
/// first one in its case, and the last one is the vowel that it was. Words in
/// `-che` get an acute accent, and other words in `-e` a grave one.
pub proof fn law_accent_keeps_the_word(w: Seq<char>)
    ensures
        ({
            let u = accented_word(w);
            let n = w.len() as int;
            &&& u.len() == n
            &&& forall|j: int| 0 <= j < n - 1 ==> ascii_lower(#[trigger] u[j]) == ascii_lower(w[j])
            &&& n > 0 && u != w ==> {
                &&& u[0] == w[0]
                &&& n >= 3
                &&& (u[n - 1] == 'à' && ascii_lower(w[n - 1]) == 'a') || ((u[n - 1] == 'è' || u[n
                    - 1] == 'é') && ascii_lower(w[n - 1]) == 'e') || (u[n - 1] == 'ì'
                    && ascii_lower(w[n - 1]) == 'i') || (u[n - 1] == 'ò' && ascii_lower(w[n - 1])
                    == 'o') || (u[n - 1] == 'ù' && ascii_lower(w[n - 1]) == 'u')
                &&& u[n - 1] == 'é' <==> (ascii_lower(w[n - 3]) == 'c' && ascii_lower(w[n - 2])
                    == 'h' && ascii_lower(w[n - 1]) == 'e')
            }
        }),
{
    law_accents_are_those_of_the_words(w);
    lemma_last_letters();
    if exists|k: int|
        0 <= k < accented_words().len() && #[trigger] is_plain_form(w, accented_words()[k]) {
        let k = choose|k: int|
            0 <= k < accented_words().len() && #[trigger] is_plain_form(w, accented_words()[k])
                && accented_word(w) == accented_words()[k].update(0, w[0]);
        let a = accented_words()[k];
        let n = w.len() as int;
        assert(ascii_lower(w[n - 1]) == without_accent(a[n - 1]));
        assert(ascii_lower(w[n - 2]) == without_accent(a[n - 2]));
        assert(ascii_lower(w[n - 3]) == without_accent(a[n - 3]));
        assert('a' <= a[n - 2] <= 'z' && 'a' <= a[n - 3] <= 'z');
        let u = accented_word(w);
        assert forall|j: int| 0 <= j < n - 1 implies ascii_lower(#[trigger] u[j]) == ascii_lower(
            w[j],
        ) by {
            assert(ascii_lower(w[j]) == without_accent(a[j]));
            assert('a' <= a[j] <= 'z');
        }
    }
}

/// Words that are words without an accent too stay as they are, in any mix of
/// cases: to restore an accent there would change the meaning.
pub proof fn law_words_that_need_context_stay(w: Seq<char>, plain: Seq<char>)
    requires
        plain == "pero"@ || plain == "meta"@ || plain == "giacche"@ || plain == "subito"@ || plain
            == "te"@ || plain == "eta"@ || plain == "e"@ || plain == "si"@ || plain == "la"@ || plain
            == "da"@ || plain == "ne"@ || plain == "se"@,
        w.len() == plain.len(),
        forall|j: int| 0 <= j < w.len() ==> ascii_lower(#[trigger] w[j]) == plain[j],
    ensures
        accented_word(w) == w,
{
    reveal_strlit("pero");
    reveal_strlit("meta");
    reveal_strlit("giacche");
    reveal_strlit("subito");
    reveal_strlit("te");
    reveal_strlit("eta");
    reveal_strlit("e");
    reveal_strlit("si");
    reveal_strlit("la");
    reveal_strlit("da");
    reveal_strlit("ne");
    reveal_strlit("se");
    law_accents_are_those_of_the_words(w);
    assert forall|k: int| 0 <= k < accented_words().len() implies !#[trigger] is_plain_form(
        w,
        accented_words()[k],
    ) by {
        let a = accented_words()[k];
        if is_plain_form(w, a) {
            assert forall|j: int| 0 <= j < w.len() implies without_accent(#[trigger] a[j])
                == plain[j] by {
                assert(ascii_lower(w[j]) == plain[j]);
            }
            lemma_not_listed(a, k, plain);
        }
    }
}

#[verifier::rlimit(60)]
proof fn lemma_not_listed(a: Seq<char>, k: int, plain: Seq<char>)
    requires
        0 <= k < accented_words().len(),
        a == accented_words()[k],
        plain == "pero"@ || plain == "meta"@ || plain == "giacche"@ || plain == "subito"@ || plain
            == "te"@ || plain == "eta"@ || plain == "e"@ || plain == "si"@ || plain == "la"@ || plain
            == "da"@ || plain == "ne"@ || plain == "se"@,
    ensures
        a.len() != plain.len() || exists|j: int|
            0 <= j < a.len() && without_accent(#[trigger] a[j]) != plain[j],
{
    reveal_strlit("perché");
    reveal_strlit("poiché");
    reveal_strlit("benché");
    reveal_strlit("affinché");
    reveal_strlit("finché");
    reveal_strlit("anziché");
    reveal_strlit("nonché");
    reveal_strlit("cosicché");
    reveal_strlit("sicché");
    reveal_strlit("dacché");
    reveal_strlit("fuorché");
    reveal_strlit("granché");
    reveal_strlit("più");
    reveal_strlit("può");
    reveal_strlit("già");
    reveal_strlit("cioè");
    reveal_strlit("perciò");
    reveal_strlit("così");
    reveal_strlit("laggiù");
    reveal_strlit("quaggiù");
    reveal_strlit("lassù");
    reveal_strlit("quassù");
    reveal_strlit("città");
    reveal_strlit("università");
    reveal_strlit("società");
    reveal_strlit("qualità");
    reveal_strlit("realtà");
    reveal_strlit("libertà");
    reveal_strlit("verità");
    reveal_strlit("novità");
    reveal_strlit("attività");
    reveal_strlit("possibilità");
    reveal_strlit("necessità");
    reveal_strlit("difficoltà");
    reveal_strlit("identità");
    reveal_strlit("virtù");
    reveal_strlit("gioventù");
    reveal_strlit("tribù");
    reveal_strlit("caffè");
    reveal_strlit("lunedì");
    reveal_strlit("martedì");
    reveal_strlit("mercoledì");
    reveal_strlit("giovedì");
    reveal_strlit("venerdì");
    reveal_strlit("pero");
    reveal_strlit("meta");
    reveal_strlit("giacche");
    reveal_strlit("subito");
    reveal_strlit("te");
    reveal_strlit("eta");
    reveal_strlit("e");
    reveal_strlit("si");
    reveal_strlit("la");
    reveal_strlit("da");
    reveal_strlit("ne");
    reveal_strlit("se");
    assert(a.len() >= 3);
    if a.len() == plain.len() {
        assert(without_accent(a[0]) != plain[0] || without_accent(a[1]) != plain[1]
            || without_accent(a[2]) != plain[2]);
    }
}

/// Whether a character keeps words apart: it is neither a letter, of whatever
/// script, nor an apostrophe.
pub open spec fn keeps_apart(c: char) -> bool {
    !is_letter(c) && c != '\''
}

/// Of the ASCII characters, all but letters and the apostrophe keep words apart,
/// and the vowels with accents do not.
pub proof fn law_only_letters_make_words(c: char)
    ensures
        c <= '\u{7f}' ==> (keeps_apart(c) <==> !('a' <= c <= 'z') && !('A' <= c <= 'Z') && c
            != '\''),
        c == 'à' || c == 'è' || c == 'é' || c == 'ì' || c == 'ò' || c == 'ù' ==> !keeps_apart(c),
{
}

proof fn lemma_word_end_cut(a: Seq<char>, c: char, b: Seq<char>, i: int)
    requires
        keeps_apart(c),
        0 <= i <= a.len(),
    ensures
        word_end(a + seq![c] + b, i) == word_end(a, i),
        i <= word_end(a, i) <= a.len(),
    decreases a.len() - i,
{
    let t = a + seq![c] + b;
    if i < a.len() {
        assert(t[i] == a[i]);
        if in_word(a[i]) {
            lemma_word_end_cut(a, c, b, i + 1);
        }
    } else {
        assert(t[i] == c);
        assert(!in_word(c));
    }
}

proof fn lemma_word_end_shift(t: Seq<char>, m: int, i: int)
    requires
        0 <= m,
        0 <= i,
        m + i <= t.len(),
    ensures
        word_end(t, m + i) == m + word_end(t.skip(m), i),
        i <= word_end(t.skip(m), i) <= t.len() - m,
    decreases t.len() - m - i,
{
    if m + i < t.len() && in_word(t[m + i]) {
        assert(t.skip(m)[i] == t[m + i]);
        lemma_word_end_shift(t, m, i + 1);
    } else if m + i < t.len() {
        assert(t.skip(m)[i] == t[m + i]);
    }
}

proof fn lemma_accented_shift(t: Seq<char>, m: int, i: int)
    requires
        0 <= m,
        0 <= i,
        m + i <= t.len(),
    ensures
        accented_from(t, m + i) == accented_from(t.skip(m), i),
    decreases t.len() - m - i,
{
    let u = t.skip(m);
    if m + i < t.len() {
        lemma_word_end_shift(t, m, i);
        let e = word_end(u, i);
        assert(u[i] == t[m + i]);
        if i < e {
            assert(u.subrange(i, e) =~= t.subrange(m + i, m + e));
            lemma_accented_shift(t, m, e);
        } else {
            lemma_accented_shift(t, m, i + 1);
        }
    }
}

proof fn lemma_accented_cut(a: Seq<char>, c: char, b: Seq<char>, i: int)
    requires
        keeps_apart(c),
        0 <= i <= a.len(),
    ensures
        accented_from(a + seq![c] + b, i) == accented_from(a, i) + seq![c] + accented(b),
    decreases a.len() - i,
{
    let t = a + seq![c] + b;
    lemma_word_end_cut(a, c, b, i);
    let e = word_end(a, i);
    let rest = seq![c] + accented(b);
    if i < a.len() {
        assert(t[i] == a[i]);
        if i < e {
            assert(t.subrange(i, e) =~= a.subrange(i, e));
            lemma_accented_cut(a, c, b, e);
            assert(accented_from(t, i) =~= accented_from(a, i) + seq![c] + accented(b));
        } else {
            lemma_accented_cut(a, c, b, i + 1);
            assert(accented_from(t, i) =~= accented_from(a, i) + seq![c] + accented(b));
        }
    } else {
        assert(t[i] == c);
        let m = (a.len() + 1) as int;
        lemma_accented_shift(t, m, 0);
        assert(t.skip(m) =~= b);
        assert(accented_from(t, i) == seq![c] + accented_from(t, i + 1));
        assert(accented_from(t, i) =~= accented_from(a, i) + seq![c] + accented(b));
    }
}

/// Accents are restored word by word: what keeps two words apart stays, and each
/// side of it is seen to on its own. A single word is seen to as a whole.
pub proof fn law_accents_go_word_by_word(a: Seq<char>, c: char, b: Seq<char>, w: Seq<char>)
    requires
        keeps_apart(c),
        w.len() > 0,
        forall|k: int| 0 <= k < w.len() ==> !keeps_apart(#[trigger] w[k]),
    ensures
        accented(a + seq![c] + b) == accented(a) + seq![c] + accented(b),
        accented(w) == accented_word(w),
        accented(Seq::<char>::empty()) == Seq::<char>::empty(),
{
    lemma_accented_cut(a, c, b, 0);
    assert forall|k: int| 0 <= k < w.len() implies in_word(#[trigger] w[k]) by {
        assert(!keeps_apart(w[k]));
    }
    lemma_one_word(w, 0);
    assert(w.subrange(0, w.len() as int) =~= w);
    assert(accented_from(w, w.len() as int) =~= Seq::<char>::empty());
    assert(accented(w) == accented_word(w) + accented_from(w, w.len() as int));
    assert(accented_word(w) + Seq::<char>::empty() =~= accented_word(w));
}

proof fn lemma_one_word(w: Seq<char>, i: int)
    requires
        0 <= i <= w.len(),
        forall|k: int| 0 <= k < w.len() ==> in_word(#[trigger] w[k]),
    ensures
        word_end(w, i) == w.len(),
    decreases w.len() - i,
{
    if i < w.len() {
        lemma_one_word(w, i + 1);
    }
}

} // verus!

//! Accents whose unaccented spelling is not a word.

use crate::corrector::letters::{capital, is_accented_vowel, is_letter, same_letter, spells};
use crate::text::{text_of, to_chars};
use vstd::prelude::*;

verus! {

/// Words whose unaccented spelling is **not** a valid Italian word, so
/// restoring the accent can never be wrong, each with its accented last
/// letter.
///
/// Deliberately absent, because the unaccented form is itself a word:
/// `pero` (pear tree), `meta` (goal), `giacche` (jackets), `subito`
/// (immediately), `te` (you), `eta` (the Greek letter).
pub open spec fn accent_table() -> Seq<(Seq<char>, char)> {
    seq![
        // Conjunctions in -ché
        ("perche"@, 'é'),
        ("poiche"@, 'é'),
        ("benche"@, 'é'),
        ("affinche"@, 'é'),
        ("finche"@, 'é'),
        ("anziche"@, 'é'),
        ("nonche"@, 'é'),
        ("cosicche"@, 'é'),
        ("sicche"@, 'é'),
        ("dacche"@, 'é'),
        ("fuorche"@, 'é'),
        ("granche"@, 'é'),
        // Common adverbs and verb forms
        ("piu"@, 'ù'),
        ("puo"@, 'ò'),
        ("gia"@, 'à'),
        ("cioe"@, 'è'),
        ("percio"@, 'ò'),
        ("cosi"@, 'ì'),
        ("laggiu"@, 'ù'),
        ("quaggiu"@, 'ù'),
        ("lassu"@, 'ù'),
        ("quassu"@, 'ù'),
        // Nouns in -tà / -tù
        ("citta"@, 'à'),
        ("universita"@, 'à'),
        ("societa"@, 'à'),
        ("qualita"@, 'à'),
        ("realta"@, 'à'),
        ("liberta"@, 'à'),
        ("verita"@, 'à'),
        ("novita"@, 'à'),
        ("attivita"@, 'à'),
        ("possibilita"@, 'à'),
        ("necessita"@, 'à'),
        ("difficolta"@, 'à'),
        ("identita"@, 'à'),
        ("virtu"@, 'ù'),
        ("gioventu"@, 'ù'),
        ("tribu"@, 'ù'),
        // Other nouns
        ("caffe"@, 'è'),
        // Weekdays
        ("lunedi"@, 'ì'),
        ("martedi"@, 'ì'),
        ("mercoledi"@, 'ì'),
        ("giovedi"@, 'ì'),
        ("venerdi"@, 'ì'),
    ]
}

/// The entries of [`accent_table`].
pub fn unambiguous_accents() -> (table: Vec<(&'static str, char)>)
    ensures
        table@.len() == accent_table().len(),
        forall|k: int|
            0 <= k < table@.len() ==> (#[trigger] table@[k]).0@ == accent_table()[k].0
                && table@[k].1 == accent_table()[k].1,
{
    vec![
        ("perche", 'é'),
        ("poiche", 'é'),
        ("benche", 'é'),
        ("affinche", 'é'),
        ("finche", 'é'),
        ("anziche", 'é'),
        ("nonche", 'é'),
        ("cosicche", 'é'),
        ("sicche", 'é'),
        ("dacche", 'é'),
        ("fuorche", 'é'),
        ("granche", 'é'),
        ("piu", 'ù'),
        ("puo", 'ò'),
        ("gia", 'à'),
        ("cioe", 'è'),
        ("percio", 'ò'),
        ("cosi", 'ì'),
        ("laggiu", 'ù'),
        ("quaggiu", 'ù'),
        ("lassu", 'ù'),
        ("quassu", 'ù'),
        ("citta", 'à'),
        ("universita", 'à'),
        ("societa", 'à'),
        ("qualita", 'à'),
        ("realta", 'à'),
        ("liberta", 'à'),
        ("verita", 'à'),
        ("novita", 'à'),
        ("attivita", 'à'),
        ("possibilita", 'à'),
        ("necessita", 'à'),
        ("difficolta", 'à'),
        ("identita", 'à'),
        ("virtu", 'ù'),
        ("gioventu", 'ù'),
        ("tribu", 'ù'),
        ("caffe", 'è'),
        ("lunedi", 'ì'),
        ("martedi", 'ì'),
        ("mercoledi", 'ì'),
        ("giovedi", 'ì'),
        ("venerdi", 'ì'),
    ]
}

/// Whether `w` is the word `key`, in any mix of cases.
pub open spec fn is_spelling_of(w: Seq<char>, key: Seq<char>) -> bool {
    w.len() == key.len() && spells(w, 0, key)
}

/// The first entry from `k` on that `w` spells.
pub open spec fn entry_from(w: Seq<char>, k: int) -> Option<int>
    decreases accent_table().len() - k,
{
    if 0 <= k < accent_table().len() {
        if is_spelling_of(w, accent_table()[k].0) {
            Some(k)
        } else {
            entry_from(w, k + 1)
        }
    } else {
        None
    }
}

/// `key` with its last letter replaced by `last`.
pub open spec fn with_last(key: Seq<char>, last: char) -> Seq<char> {
    key.update(key.len() - 1, last)
}

/// `w` with its accent restored if the table has it, in lower case but for a
/// capital first letter; `w` itself otherwise.
pub open spec fn accented_word(w: Seq<char>) -> Seq<char> {
    match entry_from(w, 0) {
        Some(k) => {
            let a = with_last(accent_table()[k].0, accent_table()[k].1);
            if 'A' <= w[0] <= 'Z' {
                a.update(0, capital(a[0]))
            } else {
                a
            }
        },
        None => w,
    }
}

/// A character that words are made of.
pub open spec fn in_word(c: char) -> bool {
    is_letter(c) || c == '\''
}

/// Where the run of word characters that starts at `i` ends.
pub open spec fn word_end(t: Seq<char>, i: int) -> int
    decreases t.len() - i,
{
    if 0 <= i < t.len() && in_word(t[i]) {
        word_end(t, i + 1)
    } else {
        i
    }
}

/// `t` from `i` on, with the accents of its words restored.
pub open spec fn accented_from(t: Seq<char>, i: int) -> Seq<char>
    decreases t.len() - i,
{
    if 0 <= i < t.len() {
        let e = word_end(t, i);
        if i < e <= t.len() {
            accented_word(t.subrange(i, e)) + accented_from(t, e)
        } else {
            seq![t[i]] + accented_from(t, i + 1)
        }
    } else {
        Seq::empty()
    }
}

/// `t` with the accents of its words restored.
pub open spec fn accented(t: Seq<char>) -> Seq<char> {
    accented_from(t, 0)
}

/// Whether `c` is the letter `l` in either case, for a lower-case ASCII `l`.
fn is_same_letter(c: char, l: char) -> (r: bool)
    requires
        'a' <= l <= 'z',
    ensures
        r == same_letter(c, l),
{
    let upper: char = (l as u8 - 32) as char;
    c == l || c == upper
}

/// Whether `word` is `key` in any mix of cases.
///
/// Comparing ASCII letters is enough: no letter outside ASCII has one of the
/// letters of the table as its whole lower case.
fn is_word_spelled(word: &Vec<char>, key: &str) -> (r: bool)
    requires
        forall|k: int| 0 <= k < key@.len() ==> 'a' <= #[trigger] key@[k] <= 'z',
    ensures
        r == is_spelling_of(word@, key@),
{
    let letters: Vec<char> = to_chars(key);
    if word.len() != letters.len() {
        return false;
    }
    let mut i: usize = 0;
    while i < word.len()
        invariant
            i <= word@.len(),
            word@.len() == letters@.len(),
            letters@ == key@,
            forall|k: int| 0 <= k < key@.len() ==> 'a' <= #[trigger] key@[k] <= 'z',
            forall|k: int| 0 <= k < i ==> same_letter(#[trigger] word@[k], key@[k]),
        decreases word@.len() - i,
    {
        if !is_same_letter(word[i], letters[i]) {
            assert(!same_letter(word@[i as int], key@[i as int]));
            return false;
        }
        i = i + 1;
    }
    true
}

/// Lower-case ASCII with a plain vowel at its end, and an accented vowel to put
/// there. What it starts with keeps it apart from the words that the spelling
/// rules split off.
pub open spec fn is_entry(key: Seq<char>, last: char) -> bool {
    &&& key.len() >= 3
    &&& forall|k: int| 0 <= k < key.len() ==> 'a' <= #[trigger] key[k] <= 'z'
    &&& (key.last() == 'a' || key.last() == 'e' || key.last() == 'i' || key.last() == 'o'
        || key.last() == 'u')
    &&& is_accented_vowel(last)
    &&& key[0] != 'e'
    &&& (key[0] == 'u' ==> key[1] == 'n')
    &&& (key[0] == 'a' ==> {
        ||| key[1] == 'f'
        ||| key[1] == 'n' && key[2] == 'z'
        ||| key[1] == 't' && key.len() > 4 && key[4] == 'v'
    })
}

/// Every entry of the table is as [`is_entry`] says.
pub proof fn lemma_entries()
    ensures
        forall|k: int|
            0 <= k < accent_table().len() ==> is_entry(
                (#[trigger] accent_table()[k]).0,
                accent_table()[k].1,
            ),
{
    reveal_strlit("perche");
    reveal_strlit("poiche");
    reveal_strlit("benche");
    reveal_strlit("affinche");
    reveal_strlit("finche");
    reveal_strlit("anziche");
    reveal_strlit("nonche");
    reveal_strlit("cosicche");
    reveal_strlit("sicche");
    reveal_strlit("dacche");
    reveal_strlit("fuorche");
    reveal_strlit("granche");
    reveal_strlit("piu");
    reveal_strlit("puo");
    reveal_strlit("gia");
    reveal_strlit("cioe");
    reveal_strlit("percio");
    reveal_strlit("cosi");
    reveal_strlit("laggiu");
    reveal_strlit("quaggiu");
    reveal_strlit("lassu");
    reveal_strlit("quassu");
    reveal_strlit("citta");
    reveal_strlit("universita");
    reveal_strlit("societa");
    reveal_strlit("qualita");
    reveal_strlit("realta");
    reveal_strlit("liberta");
    reveal_strlit("verita");
    reveal_strlit("novita");
    reveal_strlit("attivita");
    reveal_strlit("possibilita");
    reveal_strlit("necessita");
    reveal_strlit("difficolta");
    reveal_strlit("identita");
    reveal_strlit("virtu");
    reveal_strlit("gioventu");
    reveal_strlit("tribu");
    reveal_strlit("caffe");
    reveal_strlit("lunedi");
    reveal_strlit("martedi");
    reveal_strlit("mercoledi");
    reveal_strlit("giovedi");
    reveal_strlit("venerdi");
}

/// An entry that is found is one that the word spells, and none is missed.
pub proof fn lemma_entry(w: Seq<char>, j: int)
    requires
        0 <= j,
    ensures
        match entry_from(w, j) {
            Some(k) => j <= k < accent_table().len() && is_spelling_of(w, accent_table()[k].0),
            None => forall|k: int|
                j <= k < accent_table().len() ==> !is_spelling_of(
                    w,
                    (#[trigger] accent_table()[k]).0,
                ),
        },
    decreases accent_table().len() - j,
{
    if j < accent_table().len() && !is_spelling_of(w, accent_table()[j].0) {
        lemma_entry(w, j + 1);
    }
}

/// The entry that `word` spells, if the table has one.
fn find_entry(word: &Vec<char>, table: &Vec<(&'static str, char)>) -> (r: Option<usize>)
    requires
        table@.len() == accent_table().len(),
        forall|k: int|
            0 <= k < table@.len() ==> (#[trigger] table@[k]).0@ == accent_table()[k].0
                && table@[k].1 == accent_table()[k].1,
    ensures
        match r {
            Some(k) => k < table@.len() && entry_from(word@, 0) == Some(k as int),
            None => entry_from(word@, 0) is None,
        },
{
    let mut k: usize = 0;
    while k < table.len()
        invariant
            k <= table@.len(),
            table@.len() == accent_table().len(),
            forall|j: int|
                0 <= j < table@.len() ==> (#[trigger] table@[j]).0@ == accent_table()[j].0
                    && table@[j].1 == accent_table()[j].1,
            entry_from(word@, 0) == entry_from(word@, k as int),
        decreases table@.len() - k,
    {
        proof {
            lemma_entries();
        }
        if is_word_spelled(word, table[k].0) {
            return Some(k);
        }
        k = k + 1;
    }
    None
}

/// `word` with its accent restored if the table has it.
pub fn replacement_if_accented(word: &str) -> (r: String)
    ensures
        r@ == accented_word(word@),
{
    let letters: Vec<char> = to_chars(word);
    let table: Vec<(&'static str, char)> = unambiguous_accents();
    match find_entry(&letters, &table) {
        Some(k) => {
            proof {
                lemma_entries();
                lemma_entry(word@, 0);
            }
            let mut result: Vec<char> = to_chars(table[k].0);
            let last: usize = result.len() - 1;
            result.set(last, table[k].1);
            // Keep the caller's capitalisation: "Perche" -> "Perché".
            if 'A' <= letters[0] && letters[0] <= 'Z' {
                let first: char = result[0];
                let upper: char = (first as u8 - 32) as char;
                result.set(0, upper);
            }
            text_of(&result, 0, result.len())
        },
        None => word.to_owned(),
    }
}

/// Restores the accents of the words that the table has, keeping the case of
/// their first letters.
pub fn restore_accents(text: &str) -> (result: String)
    ensures
        result@ == accented(text@),
{
    let t: Vec<char> = to_chars(text);
    let mut result: String = String::new();
    let mut i: usize = 0;
    while i < t.len()
        invariant
            i <= t@.len(),
            accented(t@) == result@ + accented_from(t@, i as int),
        decreases t@.len() - i,
    {
        let mut e: usize = i;
        while e < t.len() && (t[e].is_alphabetic() || t[e] == '\'')
            invariant
                i <= e <= t@.len(),
                word_end(t@, i as int) == word_end(t@, e as int),
            decreases t@.len() - e,
        {
            e = e + 1;
        }
        if e > i {
            let word: String = replacement_if_accented(text_of(&t, i, e).as_str());
            result.append(word.as_str());
            i = e;
        } else {
            result.push(t[i]);
            i = i + 1;
        }
    }
    result
}

} // verus!

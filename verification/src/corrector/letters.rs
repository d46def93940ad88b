//! What counts as a letter, as a word character and as the same letter.

use vstd::prelude::*;

verus! {

/// An ASCII letter.
pub open spec fn is_ascii_letter(c: char) -> bool {
    'a' <= c <= 'z' || 'A' <= c <= 'Z'
}

/// The accented vowels of Italian spelling, in lower case.
pub open spec fn is_accented_vowel(c: char) -> bool {
    c == 'à' || c == 'è' || c == 'é' || c == 'ì' || c == 'ò' || c == 'ù'
}

/// Whether a character outside ASCII has the Unicode `Alphabetic` property.
pub uninterp spec fn unicode_alphabetic(c: char) -> bool;

/// Whether `c` is a letter of any script.
pub open spec fn is_letter(c: char) -> bool {
    if c <= '\u{7f}' {
        is_ascii_letter(c)
    } else {
        is_accented_vowel(c) || unicode_alphabetic(c)
    }
}

/// `char::is_alphabetic` tells whether the character has the `Alphabetic`
/// property. In ASCII those are the letters, and the accented vowels have it.
pub assume_specification[ char::is_alphabetic ](c: char) -> (r: bool)
    ensures
        r == if c <= '\u{7f}' {
            is_ascii_letter(c)
        } else {
            is_accented_vowel(c) || unicode_alphabetic(c)
        },
;

/// The capital of `l`, for the lower-case letters that the rules spell.
pub open spec fn capital(l: char) -> char {
    if 'a' <= l <= 'z' {
        ((l as int) - 32) as char
    } else if l == 'è' {
        'È'
    } else if l == 'ò' {
        'Ò'
    } else {
        l
    }
}

/// Whether `c` is the letter `l`, in either case.
pub open spec fn same_letter(c: char, l: char) -> bool {
    c == l || c == capital(l)
}

/// Whether the characters of `t` from `i` on spell `w`, in either case.
pub open spec fn spells(t: Seq<char>, i: int, w: Seq<char>) -> bool {
    &&& 0 <= i
    &&& i + w.len() <= t.len()
    &&& forall|j: int| i <= j < i + w.len() ==> same_letter(#[trigger] t[j], w[j - i])
}

} // verus!

//! Deterministic, low-latency corrections for Italian dictation.
//!
//! This runs on **every** dictation, so it is plain string work with no model
//! call and no lookup beyond a fixed table.
//!
//! **Only always-true rules live here.** Every rule must be correct in every
//! context, with no exceptions. Anything needing context to disambiguate
//! (`e`/`è`, `si`/`sì`, `la`/`là`, `da`/`dà`, `ne`/`né`, `se`/`sé`) is
//! deliberately excluded: both spellings are valid Italian words, so a
//! context-free rule would silently change meaning.

pub mod accents;
pub mod laws;
pub mod letters;
pub mod phrases;
pub mod pieces;
pub mod spelling;
pub mod transfer;
pub mod words;

use crate::corrector::accents::{accented, restore_accents};
use crate::corrector::spelling::{
    fix_always_wrong_spellings, normalize_whitespace_and_punctuation, respaced, respelled,
    word_class,
};
use vstd::prelude::*;

verus! {

/// `t` with every always-true correction applied.
pub open spec fn corrected(wide: spec_fn(char) -> bool, t: Seq<char>) -> Seq<char> {
    respaced(wide, respelled(wide, accented(t)))
}

/// Applies every always-true correction. Safe to call on any string; returns
/// the input unchanged when there is nothing to fix.
pub fn correct(text: &str) -> (result: String)
    ensures
        result@ == corrected(word_class(), text@),
{
    let accents: String = restore_accents(text);
    let spelling: String = fix_always_wrong_spellings(accents.as_str());
    normalize_whitespace_and_punctuation(spelling.as_str())
}

} // verus!

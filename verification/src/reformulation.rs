//! The model-independent half of the reformulation service.
//!
//! Reformulation rewrites a raw Italian dictation into what the speaker meant
//! to say. This module holds the guard between the model's output and the
//! user's text: the system prompt, the decoding constants, and [`sanitize`],
//! which makes sure a failed reformulation never loses the dictation. What
//! drives a model is in [`engine`].

pub mod engine;

use crate::text::{
    is_space, lemma_trimmed, lemma_trimmed_solid, same_but_case, starts_any_case,
    starts_with_any_case, text_of, text_or_none, to_chars, trim_within, trimmed,
};
use vstd::prelude::*;

verus! {

/// The system prompt. Two things matter for Italian dictation and are easy
/// to get wrong, so they are stated explicitly:
///
/// - English loanwords are normal in spoken Italian ("meeting", "call",
///   "deadline") and must survive verbatim: translating them is a bug.
/// - The model must not answer, summarise or add anything. It rewrites.
pub const INSTRUCTIONS: &'static str = "Sei un correttore di dettature vocali in italiano. Ricevi la trascrizione grezza di qualcuno che parla e la riscrivi in forma pulita.\n\nRegole:\n- Rimuovi le autocorrezioni del parlato: se chi parla si corregge, tieni SOLO la versione corretta. Esempio: \"domani alle 10 non ci sarò, ah no, non è vero, alle 10.30\" diventa \"domani non ci sarò alle 10.30\".\n- Rimuovi le esitazioni e gli intercalari (\"ehm\", \"cioè\", \"come si dice\", \"diciamo\") quando non aggiungono significato.\n- Correggi punteggiatura, accenti e maiuscole.\n- NON tradurre i termini stranieri: \"meeting\", \"call\", \"deadline\", \"budget\" restano come sono. Sono normali in italiano parlato.\n- NON aggiungere informazioni, NON rispondere, NON riassumere, NON commentare. Riscrivi soltanto.\n- Mantieni il registro e il tono di chi parla.\n- Se il testo è già pulito, restituiscilo identico.\n\nRispondi esclusivamente con il testo riscritto, senza virgolette e senza alcuna premessa.";

/// Rewrites shorter than this are never rejected for length. Below it, the
/// "3x the input" rule is too tight to mean anything.
pub const SHORT_DICTATION_ALLOWANCE: usize = 120;

/// The most tokens that a rewrite may take. Decoding is greedy: this is a
/// rewriting task, so sampling would only add variation we do not want.
pub const MAX_TOKENS: u32 = 512;

/// Preambles that small models sometimes prefix the answer with.
pub open spec fn preambles() -> Seq<Seq<char>> {
    seq!["Testo riscritto:"@, "Testo pulito:"@, "Riscrittura:"@, "Output:"@]
}

/// The mark that closes what `open` opened: ASCII quotes, typographic quotes
/// and guillemets come in pairs.
pub open spec fn closing(open: char) -> Option<char> {
    if open == '"' {
        Some('"')
    } else if open == '\u{201C}' {
        Some('\u{201D}')
    } else if open == '\u{00AB}' {
        Some('\u{00BB}')
    } else {
        None
    }
}

/// `t` without `prefix` and the white space around what remains, if it starts
/// with `prefix` in any case.
pub open spec fn without_prefix(t: Seq<char>, prefix: Seq<char>) -> Seq<char> {
    if starts_with_any_case(t, prefix) {
        trimmed(t.skip(prefix.len() as int))
    } else {
        t
    }
}

/// `t` after each of the first `n` preambles, in order, was taken off.
pub open spec fn without_preambles(t: Seq<char>, n: int) -> Seq<char>
    decreases n,
{
    if n <= 0 {
        t
    } else {
        without_prefix(without_preambles(t, n - 1), preambles()[n - 1])
    }
}

/// Whether one pair of quotes wraps all of `t`: the first character opens, the
/// last one closes it, and neither mark occurs in between.
pub open spec fn is_wrapped(t: Seq<char>) -> bool {
    &&& t.len() >= 2
    &&& closing(t[0]) == Some(t.last())
    &&& forall|k: int| 0 < k < t.len() - 1 ==> #[trigger] t[k] != t[0] && t[k] != t.last()
}

/// `t` without the pair of quotes that wraps it, if one does.
pub open spec fn unwrapped(t: Seq<char>) -> Seq<char> {
    if is_wrapped(t) {
        trimmed(t.subrange(1, t.len() - 1))
    } else {
        t
    }
}

/// A response without the scaffolding that models put around the answer.
pub open spec fn cleaned(response: Seq<char>) -> Seq<char> {
    unwrapped(without_preambles(trimmed(response), 4))
}

/// The most characters that a rewrite of `original` may have.
pub open spec fn length_ceiling(original: Seq<char>) -> int {
    let n = trimmed(original).len() as int;
    if 3 * n > SHORT_DICTATION_ALLOWANCE {
        3 * n
    } else {
        SHORT_DICTATION_ALLOWANCE as int
    }
}

/// Whether `rewrite` can stand in for `original`.
pub open spec fn is_usable(rewrite: Seq<char>, original: Seq<char>) -> bool {
    &&& rewrite.len() > 0
    &&& (trimmed(original).len() > 0 ==> rewrite.len() <= length_ceiling(original))
}

/// The rewrite of `original` in a response, if there is a usable one.
pub open spec fn rewrite_in(response: Seq<char>, original: Seq<char>) -> Option<Seq<char>> {
    if is_usable(cleaned(response), original) {
        Some(cleaned(response))
    } else {
        None
    }
}

/// The text that is kept of a response to `original`.
pub open spec fn sanitized(response: Seq<char>, original: Seq<char>) -> Seq<char> {
    match rewrite_in(response, original) {
        Some(rewrite) => rewrite,
        None => original,
    }
}

fn preamble(k: usize) -> (p: &'static str)
    requires
        k < 4,
    ensures
        p@ == preambles()[k as int],
{
    if k == 0 {
        "Testo riscritto:"
    } else if k == 1 {
        "Testo pulito:"
    } else if k == 2 {
        "Riscrittura:"
    } else {
        "Output:"
    }
}

fn closing_of(open: char) -> (r: Option<char>)
    ensures
        r == closing(open),
{
    if open == '"' {
        Some('"')
    } else if open == '\u{201C}' {
        Some('\u{201D}')
    } else if open == '\u{00AB}' {
        Some('\u{00BB}')
    } else {
        None
    }
}

/// Takes the preambles off `v[from..to]`.
fn skip_preambles(v: &Vec<char>, from: usize, to: usize) -> (r: (usize, usize))
    requires
        from <= to <= v@.len(),
    ensures
        from <= r.0 <= r.1 <= to,
        v@.subrange(r.0 as int, r.1 as int) == without_preambles(
            v@.subrange(from as int, to as int),
            4,
        ),
{
    let ghost t = v@.subrange(from as int, to as int);
    let mut lo: usize = from;
    let mut hi: usize = to;
    let mut k: usize = 0;
    while k < 4
        invariant
            k <= 4,
            from <= lo <= hi <= to <= v@.len(),
            v@.subrange(lo as int, hi as int) == without_preambles(t, k as int),
        decreases 4 - k,
    {
        let prefix: Vec<char> = to_chars(preamble(k));
        if starts_any_case(v, lo, hi, &prefix) {
            let ghost rest = v@.subrange(lo as int, hi as int).skip(prefix@.len() as int);
            assert(v@.subrange(lo + prefix@.len(), hi as int) == rest);
            let (a, b): (usize, usize) = trim_within(v, lo + prefix.len(), hi);
            lo = a;
            hi = b;
        }
        k = k + 1;
    }
    (lo, hi)
}

/// Takes a wrapping pair of quotes off `v[from..to]`.
///
/// The opening character must match its own closing partner, and the interior
/// must be free of both. Otherwise a sentence that merely starts and ends with
/// a quotation looks exactly like a wrapped one, and stripping the ends leaves
/// the user with mangled, unbalanced text.
fn skip_quotes(v: &Vec<char>, from: usize, to: usize) -> (r: (usize, usize))
    requires
        from <= to <= v@.len(),
    ensures
        from <= r.0 <= r.1 <= to,
        v@.subrange(r.0 as int, r.1 as int) == unwrapped(v@.subrange(from as int, to as int)),
{
    let ghost t = v@.subrange(from as int, to as int);
    if to - from < 2 {
        return (from, to);
    }
    let first: char = v[from];
    let last: char = v[to - 1];
    assert(t[0] == first && t.last() == last);
    let close: char = match closing_of(first) {
        Some(c) => c,
        None => {
            return (from, to);
        },
    };
    if last != close {
        return (from, to);
    }
    let mut k: usize = from + 1;
    while k < to - 1
        invariant
            from < k < to <= v@.len(),
            t == v@.subrange(from as int, to as int),
            t.len() >= 2,
            t[0] == first,
            t.last() == last,
            last == close,
            forall|j: int| 0 < j < k - from ==> #[trigger] t[j] != first && t[j] != last,
        decreases to - k,
    {
        assert(t[k - from] == v@[k as int]);
        if v[k] == first || v[k] == close {
            return (from, to);
        }
        k = k + 1;
    }
    assert(t.subrange(1, t.len() - 1) == v@.subrange(from + 1, to - 1));
    trim_within(v, from + 1, to - 1)
}

/// Small models sometimes wrap the answer in quotes or prefix it with
/// "Testo riscritto:". Strip that, and refuse anything that looks like the
/// model answered instead of rewriting.
pub fn usable_rewrite(response: &str, original: &str) -> (result: Option<String>)
    ensures
        text_or_none(result) == rewrite_in(response@, original@),
{
    let v: Vec<char> = to_chars(response);
    assert(v@.subrange(0, v@.len() as int) == v@);
    let (a, b): (usize, usize) = trim_within(&v, 0, v.len());
    let (c, d): (usize, usize) = skip_preambles(&v, a, b);
    let (from, to): (usize, usize) = skip_quotes(&v, c, d);
    assert(v@.subrange(from as int, to as int) == cleaned(response@));
    if from == to {
        return None;
    }
    // A rewrite is roughly the length of the input. Something far longer is
    // the model having answered the dictation rather than cleaning it.
    //
    // The floor matters: on a two-word dictation, 3x is a handful of
    // characters, and a perfectly good rewrite ("10" -> "Sono le dieci.")
    // would be thrown away for being "too long".
    let w: Vec<char> = to_chars(original);
    assert(w@.subrange(0, w@.len() as int) == w@);
    let (e, f): (usize, usize) = trim_within(&w, 0, w.len());
    assert(trimmed(original@).len() == f - e);
    let length: u128 = (f - e) as u128;
    let ceiling: u128 = if 3 * length > SHORT_DICTATION_ALLOWANCE as u128 {
        3 * length
    } else {
        SHORT_DICTATION_ALLOWANCE as u128
    };
    if length > 0 && (to - from) as u128 > ceiling {
        return None;
    }
    Some(text_of(&v, from, to))
}

/// What is kept of a response: the rewrite in it, or the `original` unchanged
/// if it produces nothing usable. A failed reformulation must never lose the
/// dictation.
pub fn sanitize(response: &str, original: &str) -> (result: String)
    ensures
        result@ == sanitized(response@, original@),
{
    match usable_rewrite(response, original) {
        Some(rewrite) => rewrite,
        None => original.to_owned(),
    }
}

/// What is cleaned of a response is a stretch of it, without white space at
/// its ends.
pub proof fn lemma_cleaned(response: Seq<char>) -> (r: (int, int))
    ensures
        0 <= r.0 <= r.1 <= response.len(),
        cleaned(response) == response.subrange(r.0, r.1),
        trimmed(cleaned(response)) == cleaned(response),
{
    let r0 = lemma_trimmed(response);
    let r1 = lemma_preambles(response, r0, 4);
    let t = without_preambles(trimmed(response), 4);
    if is_wrapped(t) {
        let inner = t.subrange(1, t.len() - 1);
        let r2 = lemma_trimmed(inner);
        assert(inner.subrange(r2.0, r2.1) == response.subrange(
            r1.0 + 1 + r2.0,
            r1.0 + 1 + r2.1,
        ));
        lemma_trimmed_solid(cleaned(response));
        (r1.0 + 1 + r2.0, r1.0 + 1 + r2.1)
    } else {
        lemma_trimmed_solid(t);
        r1
    }
}

proof fn lemma_preambles(response: Seq<char>, r0: (int, int), n: int) -> (r: (int, int))
    requires
        0 <= n <= 4,
        0 <= r0.0 <= r0.1 <= response.len(),
        trimmed(response) == response.subrange(r0.0, r0.1),
    ensures
        0 <= r.0 <= r.1 <= response.len(),
        without_preambles(trimmed(response), n) == response.subrange(r.0, r.1),
        r.0 < r.1 ==> !is_space(response[r.0]) && !is_space(response[r.1 - 1]),
    decreases n,
{
    if n == 0 {
        lemma_trimmed(response);
        r0
    } else {
        let r = lemma_preambles(response, r0, n - 1);
        let t = without_preambles(trimmed(response), n - 1);
        let p = preambles()[n - 1];
        if starts_with_any_case(t, p) {
            let rest = t.skip(p.len() as int);
            let s = lemma_trimmed(rest);
            let a = r.0 + p.len() + s.0;
            let b = r.0 + p.len() + s.1;
            assert(rest.subrange(s.0, s.1) == response.subrange(a, b));
            if a < b {
                assert(trimmed(rest)[0] == response[a]);
                assert(trimmed(rest).last() == response[b - 1]);
            }
            (a, b)
        } else {
            r
        }
    }
}

/// The dictation is never lost: whatever the model answered, what comes out
/// is empty or blank only where the dictation itself was.
pub proof fn law_never_loses_the_dictation(response: Seq<char>, original: Seq<char>)
    ensures
        original.len() > 0 ==> sanitized(response, original).len() > 0,
        trimmed(original).len() > 0 ==> trimmed(sanitized(response, original)).len() > 0,
{
    lemma_cleaned(response);
}

/// Nothing is made up: what comes out is the dictation as it was, or a stretch
/// of the response without white space at its ends.
pub proof fn law_keeps_or_quotes(response: Seq<char>, original: Seq<char>)
    ensures
        sanitized(response, original) == original || exists|i: int, j: int|
            0 <= i < j <= response.len() && sanitized(response, original)
                == #[trigger] response.subrange(i, j) && trimmed(response.subrange(i, j))
                == response.subrange(i, j),
{
    let r = lemma_cleaned(response);
    if sanitized(response, original) != original {
        assert(sanitized(response, original) == response.subrange(r.0, r.1));
    }
}

/// A response with nothing in it but scaffolding leaves the dictation as it
/// was, and so does one with nothing in it at all.
pub proof fn law_empty_response_keeps_the_dictation(response: Seq<char>, original: Seq<char>)
    ensures
        trimmed(response).len() == 0 ==> sanitized(response, original) == original,
        cleaned(response).len() == 0 ==> sanitized(response, original) == original,
{
    let r0 = lemma_trimmed(response);
    if trimmed(response).len() == 0 {
        reveal_strlit("Testo riscritto:");
        reveal_strlit("Testo pulito:");
        reveal_strlit("Riscrittura:");
        reveal_strlit("Output:");
        let t = trimmed(response);
        assert(without_preambles(t, 0) == t);
        assert(without_preambles(t, 1) == t);
        assert(without_preambles(t, 2) == t);
        assert(without_preambles(t, 3) == t);
        assert(without_preambles(t, 4) == t);
    }
}

/// A text that came out of a dictation that was not blank, and is not the
/// dictation itself, is no longer than the ceiling.
pub proof fn law_answers_are_refused(response: Seq<char>, original: Seq<char>)
    requires
        trimmed(original).len() > 0,
    ensures
        sanitized(response, original) == original || sanitized(response, original).len()
            <= length_ceiling(original),
        cleaned(response).len() > length_ceiling(original) ==> sanitized(response, original)
            == original,
        cleaned(response).len() > 0 && cleaned(response).len() <= SHORT_DICTATION_ALLOWANCE
            ==> sanitized(response, original) == cleaned(response),
{
}

/// A rewrite without scaffolding, and not too long, comes out verbatim: quotes
/// inside the sentence and loanwords survive.
pub proof fn law_plain_rewrite_survives(response: Seq<char>, original: Seq<char>)
    requires
        trimmed(response) == response,
        forall|k: int| 0 <= k < 4 ==> !starts_with_any_case(response, #[trigger] preambles()[k]),
        !is_wrapped(response),
        is_usable(response, original),
    ensures
        sanitized(response, original) == response,
{
    assert(!starts_with_any_case(response, preambles()[0]));
    assert(!starts_with_any_case(response, preambles()[1]));
    assert(!starts_with_any_case(response, preambles()[2]));
    assert(!starts_with_any_case(response, preambles()[3]));
    assert(without_preambles(response, 0) == response);
    assert(without_preambles(response, 1) == response);
    assert(without_preambles(response, 2) == response);
    assert(without_preambles(response, 3) == response);
}

/// The length of a cleaned response decides if it is taken for a rewrite: one
/// that says something is, if it has at most three times the characters of the
/// dictation, or at most 120, or there is no dictation to compare it with.
/// Anything else leaves the dictation as it was, whatever its length.
pub proof fn law_three_times_the_length_is_enough(response: Seq<char>, original: Seq<char>)
    ensures
        ({
            let n = cleaned(response).len();
            let dictated = trimmed(original).len();
            let is_taken = n > 0 && (n <= 3 * dictated || n <= 120 || dictated == 0);
            &&& is_taken ==> sanitized(response, original) == cleaned(response) && rewrite_in(
                response,
                original,
            ) == Some(cleaned(response))
            &&& !is_taken ==> sanitized(response, original) == original && rewrite_in(
                response,
                original,
            ) is None
        }),
{
}

/// Whether `t` starts with one of the preambles that models put before a
/// rewrite, in any case.
spec fn has_preamble(t: Seq<char>) -> bool {
    ||| starts_with_any_case(t, "Testo riscritto:"@)
    ||| starts_with_any_case(t, "Testo pulito:"@)
    ||| starts_with_any_case(t, "Riscrittura:"@)
    ||| starts_with_any_case(t, "Output:"@)
}

proof fn lemma_no_preamble(t: Seq<char>)
    requires
        !has_preamble(t),
    ensures
        without_preambles(t, 4) == t,
{
    reveal_with_fuel(without_preambles, 5);
    assert(preambles()[0] == "Testo riscritto:"@);
    assert(preambles()[1] == "Testo pulito:"@);
    assert(preambles()[2] == "Riscrittura:"@);
    assert(preambles()[3] == "Output:"@);
}

/// A response without a preamble that no pair of quotes wraps is only trimmed.
pub proof fn law_plain_response_is_only_trimmed(response: Seq<char>)
    requires
        !starts_with_any_case(trimmed(response), "Testo riscritto:"@),
        !starts_with_any_case(trimmed(response), "Testo pulito:"@),
        !starts_with_any_case(trimmed(response), "Riscrittura:"@),
        !starts_with_any_case(trimmed(response), "Output:"@),
        ({
            let t = trimmed(response);
            t.len() < 2 || !(t[0] == '"' || t[0] == '\u{201C}' || t[0] == '\u{00AB}')
        }),
    ensures
        cleaned(response) == trimmed(response),
{
    lemma_no_preamble(trimmed(response));
}

/// Quotes that wrap a whole response are taken off, with the white space inside
/// of them. They come in pairs, and a mark of the pair in between means that
/// they do not wrap the whole.
pub proof fn law_wrapping_quotes_are_taken_off(
    response: Seq<char>,
    open: char,
    inner: Seq<char>,
    close: char,
)
    requires
        trimmed(response) == seq![open] + inner + seq![close],
        open == '"' || open == '\u{201C}' || open == '\u{00AB}',
    ensures
        ({
            let is_pair = open == '"' && close == '"' || open == '\u{201C}' && close == '\u{201D}'
                || open == '\u{00AB}' && close == '\u{00BB}';
            let is_bare = forall|k: int|
                0 <= k < inner.len() ==> #[trigger] inner[k] != open && inner[k] != close;
            &&& is_pair && is_bare ==> cleaned(response) == trimmed(inner)
            &&& !is_pair || !is_bare ==> cleaned(response) == trimmed(response)
        }),
{
    reveal_strlit("Testo riscritto:");
    reveal_strlit("Testo pulito:");
    reveal_strlit("Riscrittura:");
    reveal_strlit("Output:");
    let t = trimmed(response);
    assert(t[0] == open && t.last() == close && t.len() == inner.len() + 2);
    assert("Testo riscritto:"@[0] == 'T' && "Testo pulito:"@[0] == 'T' && "Riscrittura:"@[0] == 'R'
        && "Output:"@[0] == 'O');
    assert(!has_preamble(t)) by {
        assert(!same_but_case(t[0], 'T') && !same_but_case(t[0], 'R') && !same_but_case(t[0], 'O'));
        if starts_with_any_case(t, "Testo riscritto:"@) {
            assert(same_but_case(t[0], "Testo riscritto:"@[0]));
        }
        if starts_with_any_case(t, "Testo pulito:"@) {
            assert(same_but_case(t[0], "Testo pulito:"@[0]));
        }
        if starts_with_any_case(t, "Riscrittura:"@) {
            assert(same_but_case(t[0], "Riscrittura:"@[0]));
        }
        if starts_with_any_case(t, "Output:"@) {
            assert(same_but_case(t[0], "Output:"@[0]));
        }
    }
    lemma_no_preamble(t);
    assert(t.subrange(1, t.len() - 1) =~= inner);
    let is_bare = forall|k: int|
        0 <= k < inner.len() ==> #[trigger] inner[k] != open && inner[k] != close;
    if is_bare {
        assert forall|k: int| 0 < k < t.len() - 1 implies #[trigger] t[k] != t[0] && t[k]
            != t.last() by {
            assert(inner[k - 1] == t[k]);
        }
    } else {
        let k = choose|k: int|
            0 <= k < inner.len() && !(#[trigger] inner[k] != open && inner[k] != close);
        assert(t[k + 1] == inner[k]);
    }
}

/// A preamble is taken off in any case, with the white space behind it, and
/// what remains is cleaned as if it had come without.
pub proof fn law_preambles_are_taken_off(response: Seq<char>, preamble: Seq<char>)
    requires
        preamble == "Testo riscritto:"@ || preamble == "Testo pulito:"@ || preamble
            == "Riscrittura:"@ || preamble == "Output:"@,
        starts_with_any_case(trimmed(response), preamble),
        ({
            let rest = trimmed(trimmed(response).skip(preamble.len() as int));
            &&& !starts_with_any_case(rest, "Testo riscritto:"@)
            &&& !starts_with_any_case(rest, "Testo pulito:"@)
            &&& !starts_with_any_case(rest, "Riscrittura:"@)
            &&& !starts_with_any_case(rest, "Output:"@)
        }),
    ensures
        cleaned(response) == cleaned(trimmed(response).skip(preamble.len() as int)),
{
    reveal_strlit("Testo riscritto:");
    reveal_strlit("Testo pulito:");
    reveal_strlit("Riscrittura:");
    reveal_strlit("Output:");
    let a = "Testo riscritto:"@;
    let b = "Testo pulito:"@;
    let c = "Riscrittura:"@;
    let d = "Output:"@;
    let t = trimmed(response);
    let rest = trimmed(t.skip(preamble.len() as int));
    lemma_no_preamble(rest);
    reveal_with_fuel(without_preambles, 5);
    assert(preambles()[0] == a && preambles()[1] == b && preambles()[2] == c && preambles()[3]
        == d);
    assert(a[0] == 'T' && b[0] == 'T' && c[0] == 'R' && d[0] == 'O' && a[6] == 'r' && b[6] == 'p');
    assert(same_but_case(t[0], preamble[0]));
    if starts_with_any_case(t, a) {
        assert(same_but_case(t[0], a[0]) && same_but_case(t[6], a[6]));
    }
    if starts_with_any_case(t, b) {
        assert(same_but_case(t[0], b[0]) && same_but_case(t[6], b[6]));
    }
    if starts_with_any_case(t, c) {
        assert(same_but_case(t[0], c[0]));
    }
    if starts_with_any_case(t, d) {
        assert(same_but_case(t[0], d[0]));
    }
    assert(without_preambles(t, 4) == rest);
}

} // verus!

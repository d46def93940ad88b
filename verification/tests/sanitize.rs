use italiansuperwhisper::reformulation::{sanitize, INSTRUCTIONS, SHORT_DICTATION_ALLOWANCE};

const ORIGINAL: &str = "domani alle 10 non ci sarò, ah no, alle 10.30";

// Falling back to the raw transcription

#[test]
fn empty_response_falls_back_to_the_original() {
    assert_eq!(sanitize("", ORIGINAL), ORIGINAL);
    assert_eq!(sanitize("   \n ", ORIGINAL), ORIGINAL);
}

/// A rewrite is roughly as long as its input. Something far longer means the
/// model answered the dictation instead of cleaning it, which would replace
/// the user's text with an unrelated reply.
#[test]
fn answering_instead_of_rewriting_falls_back_to_the_original() {
    let answer = "Certo, ecco una risposta molto lunga. ".repeat(10);
    assert!(answer.chars().count() > ORIGINAL.chars().count() * 3);
    assert_eq!(sanitize(&answer, ORIGINAL), ORIGINAL);
}

#[test]
fn a_moderately_longer_rewrite_is_accepted() {
    let rewrite = "Domani non ci sarò alle 10.30.";
    assert_eq!(sanitize(rewrite, ORIGINAL), rewrite);
}

// Stripping model scaffolding

#[test]
fn strips_preamble() {
    assert_eq!(
        sanitize("Testo riscritto: Domani non ci sarò.", ORIGINAL),
        "Domani non ci sarò."
    );
    assert_eq!(
        sanitize("Output: Domani non ci sarò.", ORIGINAL),
        "Domani non ci sarò."
    );
}

#[test]
fn strips_wrapping_quotes() {
    assert_eq!(
        sanitize("\"Domani non ci sarò.\"", ORIGINAL),
        "Domani non ci sarò."
    );
}

/// Models reach for typographic quotes at least as often as ASCII ones, and
/// an unstripped pair is pasted straight into the user's document.
#[test]
fn strips_typographic_quotes() {
    for wrapped in [
        "\u{201C}Domani non ci sarò.\u{201D}",
        "\u{00AB}Domani non ci sarò.\u{00BB}",
    ] {
        assert_eq!(
            sanitize(wrapped, ORIGINAL),
            "Domani non ci sarò.",
            "quotes in {wrapped} should have been stripped"
        );
    }
}

/// On a very short dictation, "3× the input" is a handful of characters, so
/// a perfectly good rewrite would be discarded for being too long.
#[test]
fn short_dictations_are_not_rejected_for_length() {
    let short = "alle 10";
    let rewrite = "Ci vediamo domani mattina alle 10.";
    assert!(
        rewrite.chars().count() > short.chars().count() * 3,
        "fixture is pointless unless the rewrite really exceeds 3x"
    );
    assert_eq!(sanitize(rewrite, short), rewrite);
}

/// The allowance must not become a blank cheque: a genuine answer is still
/// rejected, even when the input was short.
#[test]
fn the_short_allowance_still_rejects_an_answer() {
    let short = "alle 10";
    let answer = "Certo, ecco una risposta lunghissima. ".repeat(10);
    assert_eq!(sanitize(&answer, short), short);
}

/// Quotes that are part of the sentence must survive — only a pair wrapping
/// the *whole* response is scaffolding.
#[test]
fn quotes_inside_the_text_are_kept() {
    let quoted = "Mi ha detto \"arrivo\" e poi è sparito.";
    assert_eq!(sanitize(quoted, ORIGINAL), quoted);
}

/// A sentence that merely *starts and ends* with a quotation looks exactly
/// like a wrapped one. Stripping the ends there leaves unbalanced, mangled
/// text, so these must survive untouched.
#[test]
fn sentences_that_open_and_close_with_quotes_are_not_unwrapped() {
    let cases = [
        "\u{201C}Vengo\u{201D} disse lui, poi aggiunse \u{201C}no aspetta\u{201D}",
        "\"Vengo\" disse lui, poi aggiunse \"no aspetta\"",
        "\u{201C}Vengo\u{201D} disse lui, poi aggiunse \"no aspetta\"",
    ];
    for text in cases {
        assert_eq!(
            sanitize(text, ORIGINAL),
            text,
            "two separate quotations must not be read as one wrapping pair"
        );
    }
}

#[test]
fn trims_surrounding_whitespace() {
    assert_eq!(
        sanitize("\n  Domani non ci sarò.  \n", ORIGINAL),
        "Domani non ci sarò."
    );
}

// Anglicisms

/// English loanwords are normal in spoken Italian; sanitisation must not be
/// what mangles them.
#[test]
fn anglicisms_survive_sanitisation() {
    let text = "Sposta la call dopo il meeting, la deadline è venerdì.";
    assert_eq!(sanitize(text, ORIGINAL), text);
}

// The prompt itself

/// The two rules that are easy to lose in a prompt edit and expensive to
/// notice: don't translate loanwords, don't answer.
#[test]
fn instructions_forbid_translating_and_answering() {
    assert!(INSTRUCTIONS.contains("NON tradurre"));
    assert!(INSTRUCTIONS.contains("NON rispondere"));
}

// Edges of the guard

#[test]
fn preambles_are_stripped_in_any_case_and_in_order() {
    assert_eq!(sanitize("TESTO RISCRITTO: testo pulito: ciao", ORIGINAL), "ciao");
    // Each preamble is looked for once, in its turn.
    assert_eq!(sanitize("Output: Testo pulito: ciao", ORIGINAL), "Testo pulito: ciao");
    assert_eq!(sanitize("Riscrittura:", ORIGINAL), ORIGINAL);
}

#[test]
fn quotes_are_unwrapped_after_preambles_and_trimmed() {
    assert_eq!(sanitize("Output: \" ciao \"", ORIGINAL), "ciao");
    assert_eq!(sanitize("\"\"", ORIGINAL), ORIGINAL);
    assert_eq!(sanitize("\"", ORIGINAL), "\"");
    assert_eq!(sanitize("\u{201C}ciao\"", ORIGINAL), "\u{201C}ciao\"");
}

#[test]
fn the_ceiling_is_three_times_the_dictation_or_the_allowance() {
    let dictation = "a".repeat(50);
    assert_eq!(sanitize(&"b".repeat(150), &dictation), "b".repeat(150));
    assert_eq!(sanitize(&"b".repeat(151), &dictation), dictation);
    assert_eq!(
        sanitize(&"b".repeat(SHORT_DICTATION_ALLOWANCE), "a"),
        "b".repeat(SHORT_DICTATION_ALLOWANCE)
    );
    assert_eq!(sanitize(&"b".repeat(SHORT_DICTATION_ALLOWANCE + 1), "a"), "a");
    // Nothing to measure against: any length is accepted.
    assert_eq!(sanitize(&"b".repeat(1000), " "), "b".repeat(1000));
}

#[test]
fn the_dictation_is_never_lost() {
    for response in ["", " ", "Output:", "\u{00AB}\u{00BB}", "\"  \""] {
        assert_eq!(sanitize(response, ORIGINAL), ORIGINAL);
    }
}

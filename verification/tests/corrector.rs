use italiansuperwhisper::corrector::accents::{
    replacement_if_accented, restore_accents, unambiguous_accents,
};
use italiansuperwhisper::corrector::correct;
use italiansuperwhisper::corrector::spelling::{
    fix_always_wrong_spellings, normalize_whitespace_and_punctuation,
};

// The point of "conservative": ambiguous words must survive untouched.

/// Both spellings are valid Italian words, so a context-free rule would
/// silently change meaning. These must never be rewritten here.
#[test]
fn ambiguous_words_are_never_touched() {
    let untouched = [
        "e",       // "e" (and) vs "è" (is)
        "si",      // "si" (oneself) vs "sì" (yes)
        "la",      // "la" (the) vs "là" (there)
        "da",      // "da" (from) vs "dà" (gives)
        "ne",      // "ne" (of it) vs "né" (nor)
        "se",      // "se" (if) vs "sé" (self)
        "pero",    // "pero" (pear tree) vs "però" (but)
        "meta",    // "meta" (goal) vs "metà" (half)
        "giacche", // "giacche" (jackets) vs "giacché" (since)
        "subito",  // "subito" (immediately) vs "subìto" (undergone)
        "te",      // "te" (you, pronoun) vs "tè" (tea)
        "eta",     // "eta" (Greek letter) vs "età" (age)
    ];

    for word in untouched {
        let sentence = format!("questo {word} qui");
        assert_eq!(
            correct(&sentence),
            sentence,
            "'{word}' is ambiguous and must be left alone"
        );
    }
}

#[test]
fn ambiguous_words_survive_in_realistic_sentences() {
    // "e" must not become "è" even where a human would write "è".
    let cases = [
        "il pero e in giardino",
        "la meta del lavoro e finita",
        "si e fatto tardi",
    ];
    for sentence in cases {
        assert_eq!(correct(sentence), sentence);
    }
}

// Accent restoration (unaccented form is not a word).

#[test]
fn restores_unambiguous_accents() {
    assert_eq!(correct("non so perche"), "non so perché");
    assert_eq!(correct("un po piu tardi"), "un po più tardi");
    assert_eq!(correct("si puo fare"), "si può fare");
    assert_eq!(correct("e gia pronto"), "e già pronto");
    assert_eq!(correct("vivo in citta"), "vivo in città");
    assert_eq!(correct("ci vediamo lunedi"), "ci vediamo lunedì");
    assert_eq!(correct("cioe non lo so"), "cioè non lo so");
}

#[test]
fn accent_restoration_preserves_capitalisation() {
    assert_eq!(correct("Perche no?"), "Perché no?");
    assert_eq!(correct("Citta di Roma"), "Città di Roma");
}

#[test]
fn already_accented_text_is_unchanged() {
    // What a good model already produces must survive verbatim.
    let good = "Effettivamente te la scrive, ora è proprio una roba un pochino più complicata.";
    assert_eq!(correct(good), good);
}

// Spellings that are never correct.

#[test]
fn fixes_always_wrong_spellings() {
    assert_eq!(correct("aspetta un pò"), "aspetta un po'");
    assert_eq!(correct("qual'è il problema"), "qual è il problema");
    assert_eq!(correct("è un'altro giorno"), "è un altro giorno");
    assert_eq!(correct("siamo daccordo"), "siamo d'accordo");
}

/// The feminine elision is correct and must not be "fixed".
#[test]
fn feminine_elision_is_preserved() {
    for text in ["un'altra volta", "un'ora fa", "un'amica mia"] {
        assert_eq!(correct(text), text);
    }
}

// Whitespace and punctuation.

#[test]
fn removes_space_before_punctuation_and_collapses_runs() {
    assert_eq!(correct("ciao , come stai ?"), "ciao, come stai?");
    assert_eq!(correct("due  spazi"), "due spazi");
}

/// Spacing *after* punctuation is left alone on purpose: touching it would
/// corrupt decimals, times and URLs.
#[test]
fn does_not_insert_space_after_punctuation() {
    for text in ["costa 1,5 euro", "alle 10.30", "vai su example.com/pagina"] {
        assert_eq!(correct(text), text);
    }
}

// Anglicisms.

/// English loanwords are normal in spoken Italian and must be transcribed
/// as spoken — never translated or "corrected".
#[test]
fn english_loanwords_are_untouched() {
    let sentence = "sposta la call dopo il meeting, la deadline è il budget review";
    assert_eq!(correct(sentence), sentence);
}

// Safety.

#[test]
fn empty_and_plain_text_are_safe() {
    assert_eq!(correct(""), "");
    assert_eq!(
        correct("testo normale senza errori"),
        "testo normale senza errori"
    );
}

#[test]
fn is_idempotent() {
    let input = "perche un pò , qual'è  la citta ?";
    let once = correct(input);
    assert_eq!(
        correct(&once),
        once,
        "Running the pass twice must not keep changing the text"
    );
}

/// Each word of the table gets its accent, whatever its case; the result is in
/// lower case but for a capital first letter.
#[test]
fn accents_are_restored_in_any_case() {
    assert_eq!(correct("PERCHE"), "Perché");
    assert_eq!(correct("pErChE"), "perché");
    assert_eq!(correct("giovedi, venerdi e mercoledi"), "giovedì, venerdì e mercoledì");
    assert_eq!(replacement_if_accented("Gioventu"), "Gioventù");
    assert_eq!(replacement_if_accented("gioventute"), "gioventute");
}

/// Words of the table are whole words: a longer word that holds one stays.
#[test]
fn accents_are_for_whole_words() {
    assert_eq!(restore_accents("piuma perchero"), "piuma perchero");
    assert_eq!(restore_accents("l'universita"), "l'universita");
    assert_eq!(restore_accents("(universita)"), "(università)");
}

#[test]
fn the_table_pairs_each_word_with_its_last_letter() {
    let table = unambiguous_accents();
    assert_eq!(table.len(), 44);
    assert!(table.contains(&("perche", 'é')));
    assert!(table.contains(&("caffe", 'è')));
    assert!(!table.iter().any(|(word, _)| *word == "pero"));
}

#[test]
fn spelling_rules_match_in_any_case_and_at_word_boundaries() {
    assert_eq!(fix_always_wrong_spellings("Un PÒ"), "Un po'");
    assert_eq!(fix_always_wrong_spellings("però"), "però");
    assert_eq!(fix_always_wrong_spellings("QUAL'È e Qual'era"), "qual È e qual era");
    assert_eq!(fix_always_wrong_spellings("Un'UOMO, un'anno"), "un UOMO, un anno");
    assert_eq!(fix_always_wrong_spellings("un'annotazione"), "un'annotazione");
    assert_eq!(fix_always_wrong_spellings("Daccordo!"), "d'accordo!");
    assert_eq!(fix_always_wrong_spellings("daccordone"), "daccordone");
}

#[test]
fn spacing_rules_leave_line_breaks_alone() {
    assert_eq!(
        normalize_whitespace_and_punctuation("a \t b\t;\n  c\n!"),
        "a b;\n c\n!"
    );
    assert_eq!(normalize_whitespace_and_punctuation("tre   ...punti"), "tre...punti");
}

/// A text in which nothing is wrong comes back as it was, and a corrected text
/// is such a text.
#[test]
fn a_corrected_text_has_nothing_left_to_correct() {
    for text in [
        "Perche  no ? qual'è daccordo un'amico",
        "PIU ,GIA ;CITTA",
        "un' altro  pò",
        "pò' pò",
    ] {
        let once = correct(text);
        assert_eq!(correct(&once), once);
    }
}

/// Everything but the words of the table stays where and what it was.
#[test]
fn accents_keep_the_rest() {
    let text = "città, perche 3 volte? L'altro\tpiu.";
    let restored = restore_accents(text);
    assert_eq!(restored, "città, perché 3 volte? L'altro\tpiù.");
    assert_eq!(restored.chars().count(), text.chars().count());
}

/// Nothing but blanks goes, and nothing is put behind a mark.
#[test]
fn spacing_changes_only_blanks() {
    for text in ["a  ,b\t\t!c . . d", " \t ciao ;", "1,5 e 10.30"] {
        let spaced = normalize_whitespace_and_punctuation(text);
        let solid = |t: &str| t.replace([' ', '\t'], "");
        assert_eq!(solid(&spaced), solid(text));
        assert!(spaced.len() <= text.len());
    }
}

use italiansuperwhisper::reformulation::engine::{
    build_prompt, chat_messages, fit_prompt, reformulate_sanitized, render_prompt, validate_gguf,
    EngineError, Generation, MINIMUM_PLAUSIBLE_MODEL_SIZE,
};
use italiansuperwhisper::reformulation::{INSTRUCTIONS, MAX_TOKENS};

// validate_gguf

fn plausibly_sized(head: &[u8; 4]) -> Vec<u8> {
    let mut bytes = vec![0u8; MINIMUM_PLAUSIBLE_MODEL_SIZE as usize + 16];
    bytes[0..4].copy_from_slice(head);
    bytes
}

fn validate(bytes: &[u8]) -> Result<(), EngineError> {
    let head = [bytes[0], bytes[1], bytes[2], bytes[3]];
    validate_gguf("model.gguf", Ok(bytes.len() as u64), Ok(head))
}

#[test]
fn accepts_large_file_with_gguf_magic() {
    validate(&plausibly_sized(b"GGUF")).unwrap();
}

#[test]
fn rejects_small_file_even_with_magic() {
    assert!(matches!(
        validate(b"GGUFtiny").unwrap_err(),
        EngineError::TooSmall(8)
    ));
}

#[test]
fn engine_rejects_large_file_without_magic() {
    // A ggml whisper model is exactly the plausible-looking wrong file.
    assert!(matches!(
        validate(&plausibly_sized(b"lmgg")).unwrap_err(),
        EngineError::NotAGgufFile(_)
    ));
}

#[test]
fn missing_file_is_an_io_error() {
    let err = validate_gguf(
        "/nonexistent/model.gguf",
        Err("not found".to_string()),
        Err("not found".to_string()),
    )
    .unwrap_err();
    assert!(matches!(err, EngineError::Io(_)));
    assert_eq!(err.message(), "failed to read the model file: not found");
}

#[test]
fn a_file_that_cannot_be_opened_is_an_io_error() {
    let err = validate_gguf("m", Ok(MINIMUM_PLAUSIBLE_MODEL_SIZE), Err("denied".to_string()));
    assert!(matches!(err, Err(EngineError::Io(_))));
}

// build_prompt: the shape the model actually sees. Gemma-2 format: no system
// role, instructions folded into the user turn.

#[test]
fn prompt_is_a_single_user_turn_ending_with_an_open_model_turn() {
    let prompt = build_prompt("sposta la call");
    assert!(prompt.starts_with("<start_of_turn>user\n"));
    assert!(prompt.ends_with("<end_of_turn>\n<start_of_turn>model\n"));
    assert_eq!(prompt.matches("<start_of_turn>").count(), 2);
}

#[test]
fn prompt_puts_the_instructions_before_the_dictation() {
    let prompt = build_prompt("sposta la call");
    let instructions_at = prompt.find(INSTRUCTIONS).expect("instructions missing");
    let dictation_at = prompt.find("sposta la call").expect("dictation missing");
    assert!(instructions_at < dictation_at);
}

/// Whisper output arrives with stray whitespace; the prompt must not smuggle
/// it into the turn structure.
#[test]
fn prompt_trims_the_dictation() {
    let prompt = build_prompt("  sposta la call \n");
    assert!(prompt.contains("sposta la call<end_of_turn>"));
}

#[test]
fn the_models_own_template_is_preferred() {
    assert_eq!(render_prompt(Some("templated".to_string()), "ciao"), "templated");
    assert_eq!(render_prompt(None, "ciao"), build_prompt("ciao"));
    let (system, user) = chat_messages(" ciao ");
    assert_eq!(system, INSTRUCTIONS);
    assert_eq!(user, "ciao");
}

#[test]
fn a_prompt_must_fit_the_batch_and_leave_room_for_the_output() {
    assert!(fit_prompt(2048, 2048, 4096).is_ok());
    assert!(matches!(
        fit_prompt(2049, 2048, 4096),
        Err(EngineError::PromptTooLong { got: 2049, max: 2048 })
    ));
    let err = fit_prompt(600, 2048, 1024).unwrap_err();
    assert_eq!(
        err.message(),
        "the prompt is 600 tokens but the engine can accept at most 512"
    );
}

#[test]
fn a_generation_is_capped_and_counts_positions() {
    let mut generation = Generation::new(7);
    let mut fed = 0;
    while generation.has_room() {
        assert_eq!(generation.push("ab"), 7 + fed);
        fed += 1;
    }
    assert_eq!(fed, MAX_TOKENS as i32);
    assert_eq!(generation.finish(), "ab".repeat(512));
    assert_eq!(Generation::new(0).finish(), "");
}

#[test]
fn the_dictation_survives_whatever_the_engine_does() {
    let dictation = "domani alle 10";
    for error in [
        EngineError::Backend("x".to_string()),
        EngineError::ModelLoad("x".to_string()),
        EngineError::Context("x".to_string()),
        EngineError::Tokenize("x".to_string()),
        EngineError::Decode("x".to_string()),
    ] {
        assert!(error.message().ends_with(": x"));
        assert_eq!(reformulate_sanitized(Err(error), dictation), dictation);
    }
    assert_eq!(reformulate_sanitized(Ok("  ".to_string()), dictation), dictation);
    assert_eq!(
        reformulate_sanitized(Ok("\"Domani alle 10.\"".to_string()), dictation),
        "Domani alle 10."
    );
}

#[test]
fn engine_errors_are_said_in_words() {
    assert_eq!(
        EngineError::TooSmall(8).message(),
        "the model file is only 8 bytes; that is an error page or a Git-LFS pointer, not a model"
    );
    assert_eq!(
        EngineError::NotAGgufFile("a.bin".to_string()).message(),
        "a.bin is not a GGUF model file"
    );
    assert_eq!(
        EngineError::Backend("b".to_string()).message(),
        "failed to initialize the llama.cpp backend: b"
    );
    assert_eq!(EngineError::ModelLoad("l".to_string()).message(), "failed to load the model: l");
    assert_eq!(
        EngineError::Context("c".to_string()).message(),
        "failed to create the llama.cpp context: c"
    );
    assert_eq!(
        EngineError::Tokenize("t".to_string()).message(),
        "failed to tokenize the prompt: t"
    );
    assert_eq!(
        EngineError::Decode("d".to_string()).message(),
        "llama.cpp failed while generating: d"
    );
}

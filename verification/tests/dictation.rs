use italiansuperwhisper::dictation::hotkey::{
    HotkeyAction, HotkeyMachine, HOLD_THRESHOLD_NANOS,
};
use italiansuperwhisper::dictation::pipeline::{
    Notice, Pipeline, PipelineAction, PipelineEvent, Step,
};
use italiansuperwhisper::dictation::{
    heal_settings, hotkey_refused, hotkey_to_register, persist_recording, start_recording,
    stop_and_transcribe, update_indicator, DictationSettings, DictationState, IndicatorAction,
};
use italiansuperwhisper::ids::RecordingId;
use italiansuperwhisper::permissions::{accessibility_trusted, request_accessibility};
use italiansuperwhisper::reformulation::engine::EngineError;
use italiansuperwhisper::store::RecordingStatus;

// Settings

#[test]
fn the_rewrite_must_be_opted_into() {
    let settings = DictationSettings::default();
    assert!(!settings.reformulation_enabled);
    assert_eq!(settings.language, "it");
    assert!(settings.apply_italian_corrections && settings.paste && settings.hold_to_record);
    assert_eq!(settings.hotkey, "alt+Backquote");
}

#[test]
fn a_missing_model_never_bricks_dictation() {
    let healed = heal_settings(None, true, "/m/tiny.bin", "/vad.bin");
    assert_eq!(healed.model_path, "/m/tiny.bin");
    assert_eq!(healed.vad_path, "/vad.bin");

    let mut set = DictationSettings::default();
    set.model_path = "/m/large.bin".to_string();
    set.language = "en".to_string();
    let kept = heal_settings(Some(set.clone()), true, "/m/tiny.bin", "/vad.bin");
    assert_eq!(kept.model_path, "/m/large.bin");
    assert_eq!(kept.language, "en");
    let healed = heal_settings(Some(set), false, "/m/tiny.bin", "/vad.bin");
    assert_eq!(healed.model_path, "/m/tiny.bin");
}

#[test]
fn a_hotkey_is_registered_only_when_it_changes() {
    let current = DictationSettings::default();
    let mut new = current.clone();
    new.language = "en".to_string();
    assert!(hotkey_to_register(&current, &new).is_none());
    new.hotkey = "alt+Space".to_string();
    assert_eq!(hotkey_to_register(&current, &new).as_deref(), Some("alt+Space"));
    assert_eq!(
        hotkey_refused("alt+Space", "taken"),
        "cannot register hotkey \"alt+Space\": taken"
    );
}

#[test]
fn the_indicator_follows_the_state() {
    assert_eq!(update_indicator(DictationState::Recording), IndicatorAction::ShowAtCursor);
    assert_eq!(update_indicator(DictationState::Transcribing), IndicatorAction::Show);
    assert_eq!(update_indicator(DictationState::Idle), IndicatorAction::Hide);
    assert_eq!(DictationState::Transcribing.as_str(), "transcribing");
    assert_eq!(DictationState::Recording.as_str(), "recording");
    assert_eq!(DictationState::Idle.as_str(), "idle");
    assert!(accessibility_trusted() && request_accessibility());
}

#[test]
fn a_recording_is_started_once_and_stopped_once() {
    assert!(start_recording(false).is_ok());
    assert_eq!(start_recording(true).unwrap_err(), "already recording");
    assert!(stop_and_transcribe(true).is_ok());
    assert_eq!(stop_and_transcribe(false).unwrap_err(), "not recording");
}

#[test]
fn a_dictation_is_kept_as_completed() {
    let id = RecordingId(0x936da01f_9abd_4d9d_80c7_02af85c822a8);
    let rec = persist_recording(true, id, 42, "ciao", Some("ciau".to_string()), 1.5f64, 1.0f32)
        .unwrap();
    assert_eq!(rec.file_name, "936da01f-9abd-4d9d-80c7-02af85c822a8.wav");
    assert_eq!(rec.timestamp, 42);
    assert_eq!(rec.transcription, "ciao");
    assert_eq!(rec.raw_transcription.as_deref(), Some("ciau"));
    assert_eq!(rec.status, RecordingStatus::Completed);
    assert_eq!((rec.duration, rec.progress), (1.5, 1.0));
    assert_eq!(
        persist_recording(false, id, 42, "ciao", None, 1.5f64, 1.0f32).unwrap_err(),
        "storage not initialized"
    );
}

// Hotkey

#[test]
fn holding_the_hotkey_records_until_release() {
    let mut machine = HotkeyMachine::default();
    assert_eq!(machine.key_down(false), HotkeyAction::Start);
    machine.recording_started(true, 1_000);
    assert_eq!(machine.key_up(false, 1_000 + HOLD_THRESHOLD_NANOS), HotkeyAction::Nothing);
    assert_eq!(machine.key_up(true, 999 + HOLD_THRESHOLD_NANOS), HotkeyAction::Nothing);
    assert_eq!(machine.key_up(true, 1_000 + HOLD_THRESHOLD_NANOS), HotkeyAction::Stop);
    assert_eq!(machine.key_up(true, u64::MAX), HotkeyAction::Nothing);
}

#[test]
fn tapping_the_hotkey_records_until_the_next_press() {
    let mut machine = HotkeyMachine::default();
    assert_eq!(machine.key_down(false), HotkeyAction::Start);
    machine.recording_started(true, 0);
    assert_eq!(machine.key_up(true, 50_000_000), HotkeyAction::Nothing);
    assert_eq!(machine.key_down(true), HotkeyAction::Stop);
    assert_eq!(machine.key_up(true, 9_000_000_000), HotkeyAction::Nothing);
}

#[test]
fn a_press_that_could_not_record_does_nothing_on_release() {
    let mut machine = HotkeyMachine::default();
    assert_eq!(machine.key_down(false), HotkeyAction::Start);
    machine.recording_started(false, 0);
    assert_eq!(machine.key_up(true, HOLD_THRESHOLD_NANOS * 2), HotkeyAction::Nothing);
}

// Pipeline

fn settings() -> DictationSettings {
    let mut s = DictationSettings::default();
    s.model_path = "m".to_string();
    s.vad_path = "v".to_string();
    s
}

fn with_rewriter() -> DictationSettings {
    let mut s = settings();
    s.reformulation_enabled = true;
    s.reformulation_model_path = "gemma".to_string();
    s
}

fn loaded() -> Option<(String, String)> {
    Some(("m".to_string(), "v".to_string()))
}

fn heard(text: &str, rewriter: Option<&str>) -> PipelineEvent {
    PipelineEvent::Transcribed {
        text: Ok(text.to_string()),
        rewriter: rewriter.map(str::to_string),
    }
}

/// The step in short.
fn show(step: &Step) -> String {
    let mut words: Vec<String> = step
        .notices
        .iter()
        .map(|n| match n {
            Notice::Progress(p) => format!("{p}%"),
            Notice::Error(e) => format!("error({e})"),
            Notice::Result(t) => format!("result({t})"),
        })
        .collect();
    words.push(match &step.action {
        PipelineAction::LoadEngine => "load".to_string(),
        PipelineAction::Transcribe(l) => format!("transcribe({})", l.as_deref().unwrap_or("auto")),
        PipelineAction::LoadRewriter => "load rewriter".to_string(),
        PipelineAction::Rewrite(t) => format!("rewrite({t})"),
        PipelineAction::Save { text, raw } => {
            format!("save({text}, {})", raw.as_deref().unwrap_or("-"))
        }
        PipelineAction::OpenPaster => "open paster".to_string(),
        PipelineAction::Paste(t) => format!("paste({t})"),
        PipelineAction::Finish { result: Ok(t), restore } => format!("ok({t}, {restore})"),
        PipelineAction::Finish { result: Err(e), restore } => format!("err({e}, {restore})"),
    });
    words.join(" ")
}

#[test]
fn a_dictation_is_corrected_saved_and_pasted_in_that_order() {
    let (mut p, step) = Pipeline::new(settings(), None);
    assert_eq!(show(&step), "10% load");
    assert_eq!(show(&p.step(PipelineEvent::EngineLoaded(Ok(())))), "transcribe(it)");
    assert_eq!(show(&p.step(heard("perche no ?", None))), "save(perché no?, -)");
    assert_eq!(
        show(&p.step(PipelineEvent::Saved { result: Ok(()), is_paster_open: false })),
        "100% result(perché no?) open paster"
    );
    assert_eq!(show(&p.step(PipelineEvent::PasterOpened(Ok(())))), "paste(perché no?)");
    assert_eq!(show(&p.step(PipelineEvent::Pasted(Ok(())))), "ok(perché no?, true)");
}

#[test]
fn an_engine_is_loaded_again_only_if_the_paths_changed() {
    let (_, step) = Pipeline::new(settings(), loaded());
    assert_eq!(show(&step), "10% transcribe(it)");
    let (_, step) = Pipeline::new(settings(), Some(("m".to_string(), "w".to_string())));
    assert_eq!(show(&step), "10% load");
    let (_, step) = Pipeline::new(settings(), Some(("n".to_string(), "v".to_string())));
    assert_eq!(show(&step), "10% load");
}

#[test]
fn corrections_are_for_italian_only() {
    for (language, apply) in [("en", true), ("auto", true), ("it", false)] {
        let mut s = settings();
        s.language = language.to_string();
        s.apply_italian_corrections = apply;
        let (mut p, step) = Pipeline::new(s, loaded());
        assert_eq!(show(&step), format!("10% transcribe({language})"));
        assert_eq!(show(&p.step(heard("perche", None))), "save(perche, -)");
    }
}

#[test]
fn a_rewrite_is_saved_with_what_was_heard() {
    let (mut p, _) = Pipeline::new(with_rewriter(), loaded());
    assert_eq!(show(&p.step(heard("ehm ciao", None))), "load rewriter");
    assert_eq!(show(&p.step(PipelineEvent::RewriterLoaded(Ok(())))), "rewrite(ehm ciao)");
    assert_eq!(
        show(&p.step(PipelineEvent::Rewritten(Ok("\"Ciao.\"".to_string())))),
        "save(Ciao., ehm ciao)"
    );
    assert_eq!(
        show(&p.step(PipelineEvent::Saved { result: Ok(()), is_paster_open: true })),
        "100% result(Ciao.) paste(Ciao.)"
    );

    // The engine has the model already; what stays the same is saved once.
    let (mut p, _) = Pipeline::new(with_rewriter(), loaded());
    assert_eq!(show(&p.step(heard("ciao", Some("gemma")))), "rewrite(ciao)");
    assert_eq!(
        show(&p.step(PipelineEvent::Rewritten(Ok(" ciao ".to_string())))),
        "save(ciao, -)"
    );
}

#[test]
fn what_is_kept_beside_a_rewrite_is_the_engine_text() {
    // The corrections change what was heard, and the rewrite changes that.
    let (mut p, _) = Pipeline::new(with_rewriter(), loaded());
    assert_eq!(show(&p.step(heard("ehm perche no", None))), "load rewriter");
    assert_eq!(show(&p.step(PipelineEvent::RewriterLoaded(Ok(())))), "rewrite(ehm perché no)");
    assert_eq!(
        show(&p.step(PipelineEvent::Rewritten(Ok("Perché no.".to_string())))),
        "save(Perché no., ehm perche no)"
    );

    // The rewrite is the corrected text, or undoes the corrections, or the
    // answer is none.
    for (rewritten, saved) in [
        ("perché no", "save(perché no, perche no)"),
        ("perche no", "save(perche no, -)"),
        (" ", "save(perché no, -)"),
    ] {
        let (mut p, _) = Pipeline::new(with_rewriter(), loaded());
        assert_eq!(show(&p.step(heard("perche no", Some("gemma")))), "rewrite(perché no)");
        assert_eq!(show(&p.step(PipelineEvent::Rewritten(Ok(rewritten.to_string())))), saved);
    }

    // The rewrite fails: the corrected text stands alone.
    let (mut p, _) = Pipeline::new(with_rewriter(), loaded());
    p.step(heard("perche no", Some("gemma")));
    assert_eq!(
        show(&p.step(PipelineEvent::Rewritten(Err(EngineError::Decode("x".to_string()))))),
        "save(perché no, -)"
    );
}

#[test]
fn a_failed_rewrite_never_loses_the_dictation() {
    let (mut p, _) = Pipeline::new(with_rewriter(), loaded());
    assert_eq!(show(&p.step(heard("ciao", Some("other")))), "load rewriter");
    assert_eq!(
        show(&p.step(PipelineEvent::RewriterLoaded(Err(EngineError::TooSmall(3))))),
        "error(riformulazione saltata: the model file is only 3 bytes; that is an error page or a Git-LFS pointer, not a model) save(ciao, -)"
    );

    let (mut p, _) = Pipeline::new(with_rewriter(), loaded());
    p.step(heard("ciao", Some("gemma")));
    assert_eq!(
        show(&p.step(PipelineEvent::Rewritten(Err(EngineError::Decode("x".to_string()))))),
        "save(ciao, -)"
    );
}

#[test]
fn a_failed_save_does_not_block_the_paste() {
    let (mut p, _) = Pipeline::new(settings(), loaded());
    p.step(heard("ciao", None));
    assert_eq!(
        show(&p.step(PipelineEvent::Saved {
            result: Err("disco pieno".to_string()),
            is_paster_open: true,
        })),
        "error(salvataggio non riuscito: disco pieno) 100% result(ciao) paste(ciao)"
    );
}

#[test]
fn silence_is_neither_saved_nor_pasted() {
    let (mut p, _) = Pipeline::new(with_rewriter(), loaded());
    assert_eq!(show(&p.step(heard("", Some("gemma")))), "100% result() ok(, false)");
}

#[test]
fn without_pasting_a_dictation_ends_with_the_save() {
    let mut s = settings();
    s.paste = false;
    let (mut p, _) = Pipeline::new(s, loaded());
    p.step(heard("ciao", None));
    assert_eq!(
        show(&p.step(PipelineEvent::Saved { result: Ok(()), is_paster_open: true })),
        "100% result(ciao) ok(ciao, false)"
    );
}

#[test]
fn failures_end_a_dictation() {
    let failure = || Err("x".to_string());
    let (mut p, _) = Pipeline::new(settings(), None);
    assert_eq!(show(&p.step(PipelineEvent::EngineLoaded(failure()))), "err(x, false)");
    let (mut p, _) = Pipeline::new(settings(), loaded());
    assert_eq!(
        show(&p.step(PipelineEvent::Transcribed {
            text: Err("x".to_string()),
            rewriter: None,
        })),
        "err(x, false)"
    );
    let (mut p, _) = Pipeline::new(settings(), loaded());
    p.step(heard("ciao", None));
    p.step(PipelineEvent::Saved { result: Ok(()), is_paster_open: false });
    assert_eq!(show(&p.step(PipelineEvent::PasterOpened(failure()))), "err(x, false)");
    let (mut p, _) = Pipeline::new(settings(), loaded());
    p.step(heard("ciao", None));
    p.step(PipelineEvent::Saved { result: Ok(()), is_paster_open: true });
    assert_eq!(show(&p.step(PipelineEvent::Pasted(failure()))), "err(x, false)");
}

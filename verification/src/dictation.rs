//! Dictation: its settings, the hotkey that starts and stops it, what the user
//! sees of it, and the pipeline that every dictation goes through.

pub mod hotkey;
pub mod laws;
pub mod pipeline;

use crate::ids::{id_text, law_id_text_is_hexadecimal, law_id_text_is_unique, RecordingId};
use crate::store::audio::{is_file_name, law_plain_name_is_kept};
use crate::store::{Recording, RecordingStatus};
use crate::text::{joined, same_text, text_or_none};
use vstd::prelude::*;

verus! {

/// What the user has set.
#[derive(Debug)]
pub struct DictationSettings {
    pub model_path: String,
    pub vad_path: String,
    pub language: String,
    pub apply_italian_corrections: bool,
    pub paste: bool,
    pub hold_to_record: bool,
    pub hotkey: String,
    /// Off by default: the rewrite must be opted into.
    pub reformulation_enabled: bool,
    pub reformulation_model_path: String,
}

/// What [`DictationSettings`] stand for.
pub struct SettingsView {
    pub model_path: Seq<char>,
    pub vad_path: Seq<char>,
    pub language: Seq<char>,
    pub apply_italian_corrections: bool,
    pub paste: bool,
    pub hold_to_record: bool,
    pub hotkey: Seq<char>,
    pub reformulation_enabled: bool,
    pub reformulation_model_path: Seq<char>,
}

impl View for DictationSettings {
    type V = SettingsView;

    open spec fn view(&self) -> SettingsView {
        SettingsView {
            model_path: self.model_path@,
            vad_path: self.vad_path@,
            language: self.language@,
            apply_italian_corrections: self.apply_italian_corrections,
            paste: self.paste,
            hold_to_record: self.hold_to_record,
            hotkey: self.hotkey@,
            reformulation_enabled: self.reformulation_enabled,
            reformulation_model_path: self.reformulation_model_path@,
        }
    }
}

impl Clone for DictationSettings {
    fn clone(&self) -> (s: DictationSettings)
        ensures
            s@ == self@,
    {
        DictationSettings {
            model_path: self.model_path.clone(),
            vad_path: self.vad_path.clone(),
            language: self.language.clone(),
            apply_italian_corrections: self.apply_italian_corrections,
            paste: self.paste,
            hold_to_record: self.hold_to_record,
            hotkey: self.hotkey.clone(),
            reformulation_enabled: self.reformulation_enabled,
            reformulation_model_path: self.reformulation_model_path.clone(),
        }
    }
}

/// What is set if nothing else is.
pub open spec fn default_settings() -> SettingsView {
    SettingsView {
        model_path: ""@,
        vad_path: ""@,
        language: "it"@,
        apply_italian_corrections: true,
        paste: true,
        hold_to_record: true,
        hotkey: "alt+Backquote"@,
        reformulation_enabled: false,
        reformulation_model_path: ""@,
    }
}

impl Default for DictationSettings {
    fn default() -> (s: DictationSettings)
        ensures
            s@ == default_settings(),
    {
        DictationSettings {
            model_path: "".to_owned(),
            vad_path: "".to_owned(),
            language: "it".to_owned(),
            apply_italian_corrections: true,
            paste: true,
            hold_to_record: true,
            // Option+` (backtick); "Backquote" is the W3C code name the
            // shortcut parser expects.
            hotkey: "alt+Backquote".to_owned(),
            reformulation_enabled: false,
            reformulation_model_path: "".to_owned(),
        }
    }
}

/// The settings to start with: those that were loaded, or the default, but
/// with the bundled detection model, and with the default model where the one
/// that was set is not there. A missing model must never brick dictation.
pub fn heal_settings(
    loaded: Option<DictationSettings>,
    is_model_there: bool,
    default_model: &str,
    vad_model: &str,
) -> (s: DictationSettings)
    ensures
        ({
            let start = match loaded {
                Some(l) => l@,
                None => default_settings(),
            };
            s@ == SettingsView {
                model_path: if start.model_path.len() == 0 || !is_model_there {
                    default_model@
                } else {
                    start.model_path
                },
                vad_path: vad_model@,
                ..start
            }
        }),
{
    let mut s: DictationSettings = match loaded {
        Some(l) => l,
        None => {
            let d: DictationSettings = Default::default();
            d
        },
    };
    if s.model_path.as_str().is_empty() || !is_model_there {
        s.model_path = default_model.to_owned();
    }
    s.vad_path = vad_model.to_owned();
    s
}

/// The hotkey to register when the settings change, if it is another one.
pub fn hotkey_to_register(current: &DictationSettings, new: &DictationSettings) -> (r: Option<
    String,
>)
    ensures
        match r {
            Some(h) => h@ == new@.hotkey && current@.hotkey != new@.hotkey,
            None => current@.hotkey == new@.hotkey,
        },
{
    if same_text(current.hotkey.as_str(), new.hotkey.as_str()) {
        None
    } else {
        Some(new.hotkey.clone())
    }
}

/// What is said of a hotkey that the system refused.
pub fn hotkey_refused(hotkey: &str, why: &str) -> (s: String)
    ensures
        s@ == "cannot register hotkey \""@ + hotkey@ + "\": "@ + why@,
{
    let start: String = joined("cannot register hotkey \"", hotkey);
    let quoted: String = joined(start.as_str(), "\": ");
    joined(quoted.as_str(), why)
}

/// What a dictation is at.
#[derive(Debug, Clone, Copy, PartialEq, Eq, Structural)]
pub enum DictationState {
    Idle,
    Recording,
    Transcribing,
}

impl DictationState {
    /// The word that the UI knows the state by.
    pub fn as_str(self) -> (s: &'static str)
        ensures
            s@ == match self {
                DictationState::Idle => "idle"@,
                DictationState::Recording => "recording"@,
                DictationState::Transcribing => "transcribing"@,
            },
    {
        match self {
            DictationState::Idle => "idle",
            DictationState::Recording => "recording",
            DictationState::Transcribing => "transcribing",
        }
    }
}

/// What becomes of the floating indicator.
#[derive(Debug, Clone, Copy, PartialEq, Eq, Structural)]
pub enum IndicatorAction {
    /// Move it to the mouse cursor and show it.
    ShowAtCursor,
    /// Show it where it is.
    Show,
    Hide,
}

/// The indicator is shown near the mouse cursor while recording or
/// transcribing, and hidden when idle.
pub fn update_indicator(state: DictationState) -> (a: IndicatorAction)
    ensures
        a == match state {
            DictationState::Recording => IndicatorAction::ShowAtCursor,
            DictationState::Transcribing => IndicatorAction::Show,
            DictationState::Idle => IndicatorAction::Hide,
        },
{
    match state {
        DictationState::Recording => IndicatorAction::ShowAtCursor,
        DictationState::Transcribing => IndicatorAction::Show,
        DictationState::Idle => IndicatorAction::Hide,
    }
}

/// Whether a recording can be started from the UI: not while there is one.
pub fn start_recording(is_recording: bool) -> (r: Result<(), String>)
    ensures
        match r {
            Ok(_) => !is_recording,
            Err(why) => is_recording && why@ == "already recording"@,
        },
{
    if is_recording {
        Err("already recording".to_owned())
    } else {
        Ok(())
    }
}

/// Whether a recording can be stopped from the UI: only if there is one.
pub fn stop_and_transcribe(is_recording: bool) -> (r: Result<(), String>)
    ensures
        match r {
            Ok(_) => is_recording,
            Err(why) => !is_recording && why@ == "not recording"@,
        },
{
    if is_recording {
        Ok(())
    } else {
        Err("not recording".to_owned())
    }
}

/// The name of the audio file of a recording.
pub open spec fn wav_name(id: RecordingId) -> Seq<char> {
    id_text(id) + ".wav"@
}

/// What is kept of a dictation that came out well: the recording to store, to
/// be written once its audio file is. Nothing is kept where the store is not
/// open. `duration` is the length of the audio and `whole` a progress of 1.
pub fn persist_recording<D, P>(
    is_open: bool,
    id: RecordingId,
    now: i64,
    text: &str,
    raw_transcription: Option<String>,
    duration: D,
    whole: P,
) -> (r: Result<Recording<D, P>, String>)
    ensures
        match r {
            Ok(rec) => {
                &&& is_open
                &&& rec.id == id
                &&& rec.timestamp == now
                &&& rec.file_name@ == wav_name(id)
                &&& rec.transcription@ == text@
                &&& rec.duration == duration
                &&& rec.status == RecordingStatus::Completed
                &&& rec.progress == whole
                &&& rec.source_file_url is None
                &&& text_or_none(rec.raw_transcription) == text_or_none(raw_transcription)
                &&& !rec.is_regeneration
            },
            Err(why) => !is_open && why@ == "storage not initialized"@,
        },
{
    if !is_open {
        return Err("storage not initialized".to_owned());
    }
    Ok(
        Recording {
            id,
            timestamp: now,
            file_name: joined(id.to_text().as_str(), ".wav"),
            transcription: text.to_owned(),
            duration,
            status: RecordingStatus::Completed,
            progress: whole,
            source_file_url: None,
            raw_transcription,
            is_regeneration: false,
        },
    )
}

/// The names of what the application keeps in its data directory.
pub const MODELS_DIR: &'static str = "whisper-models";

pub const RECORDINGS_DIR: &'static str = "recordings";

pub const DATABASE_FILE: &'static str = "recordings.sqlite";

pub const SETTINGS_FILE: &'static str = "settings.json";

/// The models that the application ships with.
pub const BUNDLED_MODEL: &'static str = "models/ggml-tiny.en.bin";

pub const BUNDLED_VAD_MODEL: &'static str = "models/ggml-silero-v5.1.2.bin";

/// Where the application keeps recordings and settings.
#[derive(Debug)]
pub struct Paths {
    pub recordings_dir: String,
    pub settings_path: String,
}

/// The audio file of a recording goes by its identifier, with `.wav` behind it:
/// that is a name in the recordings directory, and no two recordings share one.
pub proof fn law_audio_file_goes_by_the_identifier(id: RecordingId, other: RecordingId)
    ensures
        wav_name(id) == id_text(id) + seq!['.', 'w', 'a', 'v'],
        wav_name(id) == wav_name(other) ==> id == other,
        is_file_name(wav_name(id)),
{
    reveal_strlit(".wav");
    assert(".wav"@ =~= seq!['.', 'w', 'a', 'v']);
    let n = wav_name(id);
    law_id_text_is_hexadecimal(id, 0);
    law_id_text_is_hexadecimal(other, 0);
    assert(n.len() == 40);
    if n == wav_name(other) {
        assert(id_text(id) =~= n.take(36));
        assert(id_text(other) =~= wav_name(other).take(36));
        law_id_text_is_unique(id, other);
    }
    assert forall|k: int| 0 <= k < n.len() implies #[trigger] n[k] != '/' && n[k] != '\\' && n[k]
        != ':' by {
        if k < 36 {
            law_id_text_is_hexadecimal(id, k);
            assert(n[k] == id_text(id)[k]);
        } else {
            assert(n[k] == ".wav"@[k - 36]);
        }
    }
    assert(seq!['.'].len() == 1 && seq!['.', '.'].len() == 2);
    law_plain_name_is_kept(n);
}

/// What the application keeps in its data directory, and ships with, goes by
/// these names.
pub proof fn law_data_goes_by_these_names()
    ensures
        MODELS_DIR@ == "whisper-models"@,
        RECORDINGS_DIR@ == "recordings"@,
        DATABASE_FILE@ == "recordings.sqlite"@,
        SETTINGS_FILE@ == "settings.json"@,
        BUNDLED_MODEL@ == "models/ggml-tiny.en.bin"@,
        BUNDLED_VAD_MODEL@ == "models/ggml-silero-v5.1.2.bin"@,
{
}

} // verus!

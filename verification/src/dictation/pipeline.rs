//! What every dictation goes through, whether the UI or the hotkey ended it:
//! transcribe, correct, rewrite if asked to, save, show, paste.
//!
//! The pipeline says what is to be done next; the caller does it and says how
//! it went.
//!
//! The dictation is saved **before** it is pasted: the paste must never be the
//! only surviving copy. A failed save is reported but doesn't block the paste:
//! at that point the paste is the user's only way to keep their words.

use crate::corrector::spelling::word_class;
use crate::corrector::{correct, corrected};
use crate::dictation::{DictationSettings, SettingsView};
use crate::reformulation::engine::{accepted_rewrite, rewrite_from, EngineError};
use crate::text::{joined, same_text, text_or_none};
use vstd::prelude::*;

verus! {

/// Where a dictation is in the pipeline. From the transcription on, its text
/// goes along, and until it is rewritten also what was heard: the text exactly
/// as the engine produced it.
pub enum Stage {
    LoadingEngine,
    Transcribing,
    LoadingRewriter { heard: String, text: String },
    Rewriting { heard: String, text: String },
    Saving(String),
    OpeningPaster(String),
    Pasting(String),
    Over,
}

/// What a [`Stage`] stands for.
pub enum StageView {
    LoadingEngine,
    Transcribing,
    LoadingRewriter { heard: Seq<char>, text: Seq<char> },
    Rewriting { heard: Seq<char>, text: Seq<char> },
    Saving(Seq<char>),
    OpeningPaster(Seq<char>),
    Pasting(Seq<char>),
    Over,
}

impl View for Stage {
    type V = StageView;

    open spec fn view(&self) -> StageView {
        match *self {
            Stage::LoadingEngine => StageView::LoadingEngine,
            Stage::Transcribing => StageView::Transcribing,
            Stage::LoadingRewriter { heard, text } => StageView::LoadingRewriter {
                heard: heard@,
                text: text@,
            },
            Stage::Rewriting { heard, text } => StageView::Rewriting { heard: heard@, text: text@ },
            Stage::Saving(t) => StageView::Saving(t@),
            Stage::OpeningPaster(t) => StageView::OpeningPaster(t@),
            Stage::Pasting(t) => StageView::Pasting(t@),
            Stage::Over => StageView::Over,
        }
    }
}

/// How what was to be done went.
pub enum PipelineEvent {
    /// The transcription engine was loaded.
    EngineLoaded(Result<(), String>),
    /// The recording was transcribed. `rewriter` is the model that a rewriting
    /// engine has loaded, if there is one.
    Transcribed { text: Result<String, String>, rewriter: Option<String> },
    /// The rewriting engine was loaded.
    RewriterLoaded(Result<(), EngineError>),
    /// The rewriting engine answered.
    Rewritten(Result<String, EngineError>),
    /// The dictation was saved. `is_paster_open` tells whether there is a
    /// paster.
    Saved { result: Result<(), String>, is_paster_open: bool },
    /// The paster was opened.
    PasterOpened(Result<(), String>),
    /// The text was pasted.
    Pasted(Result<(), String>),
}

/// What is to be done next.
pub enum PipelineAction {
    /// Load the transcription engine that is set.
    LoadEngine,
    /// Transcribe the recording, in this language or in the one it is found to
    /// be in.
    Transcribe(Option<String>),
    /// Drop the rewriting engine that is loaded and load the one that is set.
    LoadRewriter,
    /// Rewrite the text.
    Rewrite(String),
    /// Save the text, and what was heard if it was rewritten.
    Save { text: String, raw: Option<String> },
    /// Wait as long as was asked for, and open the paster.
    OpenPaster,
    /// Wait as long as was asked for, unless the paster was just opened, and
    /// paste the text.
    Paste(String),
    /// Nothing: this is what the dictation came to. After a paste, the
    /// clipboard is to be restored later.
    Finish { result: Result<String, String>, restore: bool },
}

/// A text or why there is none.
pub enum Outcome {
    Text(Seq<char>),
    Failure(Seq<char>),
}

/// What a [`PipelineAction`] stands for.
pub enum ActionView {
    LoadEngine,
    Transcribe(Option<Seq<char>>),
    LoadRewriter,
    Rewrite(Seq<char>),
    Save { text: Seq<char>, raw: Option<Seq<char>> },
    OpenPaster,
    Paste(Seq<char>),
    Finish { result: Outcome, restore: bool },
}

impl View for PipelineAction {
    type V = ActionView;

    open spec fn view(&self) -> ActionView {
        match *self {
            PipelineAction::LoadEngine => ActionView::LoadEngine,
            PipelineAction::Transcribe(l) => ActionView::Transcribe(text_or_none(l)),
            PipelineAction::LoadRewriter => ActionView::LoadRewriter,
            PipelineAction::Rewrite(t) => ActionView::Rewrite(t@),
            PipelineAction::Save { text, raw } => ActionView::Save {
                text: text@,
                raw: text_or_none(raw),
            },
            PipelineAction::OpenPaster => ActionView::OpenPaster,
            PipelineAction::Paste(t) => ActionView::Paste(t@),
            PipelineAction::Finish { result, restore } => ActionView::Finish {
                result: match result {
                    Ok(t) => Outcome::Text(t@),
                    Err(e) => Outcome::Failure(e@),
                },
                restore,
            },
        }
    }
}

/// What the user is told before that.
pub enum Notice {
    /// How far the dictation is, in percent.
    Progress(u8),
    Error(String),
    Result(String),
}

/// What a [`Notice`] stands for.
pub enum NoticeView {
    Progress(u8),
    Error(Seq<char>),
    Result(Seq<char>),
}

impl View for Notice {
    type V = NoticeView;

    open spec fn view(&self) -> NoticeView {
        match *self {
            Notice::Progress(p) => NoticeView::Progress(p),
            Notice::Error(t) => NoticeView::Error(t@),
            Notice::Result(t) => NoticeView::Result(t@),
        }
    }
}

/// The notices as what they stand for.
pub open spec fn notices_of(notices: Seq<Notice>) -> Seq<NoticeView> {
    Seq::new(notices.len(), |k: int| notices[k]@)
}

/// One step: what the user is told, and then what is to be done.
pub struct Step {
    pub notices: Vec<Notice>,
    pub action: PipelineAction,
}

/// Where a step leads, what the user is told, and what is to be done.
pub struct StepView {
    pub stage: StageView,
    pub notices: Seq<NoticeView>,
    pub action: ActionView,
}

/// The language to transcribe in, or none if it is to be found out.
pub open spec fn language_of(s: SettingsView) -> Option<Seq<char>> {
    if s.language == "auto"@ {
        None
    } else {
        Some(s.language)
    }
}

/// The text after the corrections, which are for Italian only.
pub open spec fn spelled(s: SettingsView, t: Seq<char>) -> Seq<char> {
    if s.apply_italian_corrections && s.language == "it"@ {
        corrected(word_class(), t)
    } else {
        t
    }
}

/// Whether a text is to be rewritten.
pub open spec fn is_to_be_rewritten(s: SettingsView, t: Seq<char>) -> bool {
    s.reformulation_enabled && s.reformulation_model_path.len() > 0 && t.len() > 0
}

/// The dictation ends without a text.
pub open spec fn failed(why: Seq<char>) -> StepView {
    StepView {
        stage: StageView::Over,
        notices: Seq::empty(),
        action: ActionView::Finish { result: Outcome::Failure(why), restore: false },
    }
}

/// The dictation ends with `t`.
pub open spec fn finished(notices: Seq<NoticeView>, t: Seq<char>, restore: bool) -> StepView {
    StepView {
        stage: StageView::Over,
        notices,
        action: ActionView::Finish { result: Outcome::Text(t), restore },
    }
}

/// The text is transcribed next.
pub open spec fn transcribing(s: SettingsView, notices: Seq<NoticeView>) -> StepView {
    StepView {
        stage: StageView::Transcribing,
        notices,
        action: ActionView::Transcribe(language_of(s)),
    }
}

/// The text is rewritten next.
pub open spec fn rewriting(heard: Seq<char>, t: Seq<char>) -> StepView {
    StepView {
        stage: StageView::Rewriting { heard, text: t },
        notices: Seq::empty(),
        action: ActionView::Rewrite(t),
    }
}

/// A text that is as it will stay is saved, if there is any.
pub open spec fn saving(notices: Seq<NoticeView>, t: Seq<char>, raw: Option<Seq<char>>) -> StepView {
    if t.len() == 0 {
        finished(notices + seq![NoticeView::Progress(100), NoticeView::Result(t)], t, false)
    } else {
        StepView {
            stage: StageView::Saving(t),
            notices,
            action: ActionView::Save { text: t, raw },
        }
    }
}

/// What becomes of what was heard.
pub open spec fn transcribed(
    s: SettingsView,
    heard: Seq<char>,
    rewriter: Option<Seq<char>>,
) -> StepView {
    let text = spelled(s, heard);
    if !is_to_be_rewritten(s, text) {
        saving(Seq::empty(), text, None)
    } else if rewriter == Some(s.reformulation_model_path) {
        rewriting(heard, text)
    } else {
        StepView {
            stage: StageView::LoadingRewriter { heard, text },
            notices: Seq::empty(),
            action: ActionView::LoadRewriter,
        }
    }
}

/// What becomes of `t` after a rewrite of it was asked for. Beside a rewrite,
/// what was heard is kept whenever it differs from it. Where there is none, `t`
/// goes on as it is.
pub open spec fn after_rewriting(
    heard: Seq<char>,
    t: Seq<char>,
    rewrite: Option<Seq<char>>,
) -> StepView {
    match rewrite {
        None => saving(Seq::empty(), t, None),
        Some(r) => saving(
            Seq::empty(),
            r,
            if r == heard {
                None
            } else {
                Some(heard)
            },
        ),
    }
}

/// What the user is told of a save.
pub open spec fn save_notices(t: Seq<char>, result: Result<(), String>) -> Seq<NoticeView> {
    let done = seq![NoticeView::Progress(100), NoticeView::Result(t)];
    match result {
        Ok(_) => done,
        Err(e) => seq![NoticeView::Error("salvataggio non riuscito: "@ + e@)] + done,
    }
}

/// What becomes of `t` after it was saved.
pub open spec fn after_saving(
    s: SettingsView,
    t: Seq<char>,
    result: Result<(), String>,
    is_paster_open: bool,
) -> StepView {
    let notices = save_notices(t, result);
    if !s.paste {
        finished(notices, t, false)
    } else if is_paster_open {
        StepView { stage: StageView::Pasting(t), notices, action: ActionView::Paste(t) }
    } else {
        StepView { stage: StageView::OpeningPaster(t), notices, action: ActionView::OpenPaster }
    }
}

/// Whether an event can come in a stage.
pub open spec fn can_come(stage: StageView, event: PipelineEvent) -> bool {
    match event {
        PipelineEvent::EngineLoaded(_) => stage is LoadingEngine,
        PipelineEvent::Transcribed { .. } => stage is Transcribing,
        PipelineEvent::RewriterLoaded(_) => stage is LoadingRewriter,
        PipelineEvent::Rewritten(_) => stage is Rewriting,
        PipelineEvent::Saved { .. } => stage is Saving,
        PipelineEvent::PasterOpened(_) => stage is OpeningPaster,
        PipelineEvent::Pasted(_) => stage is Pasting,
    }
}

/// How a dictation goes on after an event.
pub open spec fn next(s: SettingsView, stage: StageView, event: PipelineEvent) -> StepView {
    match event {
        PipelineEvent::EngineLoaded(r) => match r {
            Ok(_) => transcribing(s, Seq::empty()),
            Err(e) => failed(e@),
        },
        PipelineEvent::Transcribed { text, rewriter } => match text {
            Ok(t) => transcribed(s, t@, text_or_none(rewriter)),
            Err(e) => failed(e@),
        },
        PipelineEvent::RewriterLoaded(r) => match r {
            Ok(_) => rewriting(stage->LoadingRewriter_heard, stage->LoadingRewriter_text),
            Err(e) => saving(
                seq![
                    NoticeView::Error(
                        "riformulazione saltata: "@ + crate::reformulation::engine::message_of(e),
                    ),
                ],
                stage->LoadingRewriter_text,
                None,
            ),
        },
        PipelineEvent::Rewritten(r) => after_rewriting(
            stage->Rewriting_heard,
            stage->Rewriting_text,
            rewrite_from(r, stage->Rewriting_text),
        ),
        PipelineEvent::Saved { result, is_paster_open } => after_saving(
            s,
            stage->Saving_0,
            result,
            is_paster_open,
        ),
        PipelineEvent::PasterOpened(r) => match r {
            Ok(_) => StepView {
                stage: StageView::Pasting(stage->OpeningPaster_0),
                notices: Seq::empty(),
                action: ActionView::Paste(stage->OpeningPaster_0),
            },
            Err(e) => failed(e@),
        },
        PipelineEvent::Pasted(r) => match r {
            Ok(_) => finished(Seq::empty(), stage->Pasting_0, true),
            Err(e) => failed(e@),
        },
    }
}

/// Whether the engine has to be loaded, when one is loaded with this model and
/// this detection model.
pub open spec fn is_stale(s: SettingsView, loaded: Option<(String, String)>) -> bool {
    match loaded {
        Some(l) => l.0@ != s.model_path || l.1@ != s.vad_path,
        None => true,
    }
}

/// How a dictation starts.
pub open spec fn begun(s: SettingsView, loaded: Option<(String, String)>) -> StepView {
    let notices = seq![NoticeView::Progress(10)];
    if is_stale(s, loaded) {
        StepView { stage: StageView::LoadingEngine, notices, action: ActionView::LoadEngine }
    } else {
        transcribing(s, notices)
    }
}

/// A dictation in the pipeline.
pub struct Pipeline {
    settings: DictationSettings,
    stage: Stage,
}

impl Pipeline {
    /// What the user has set.
    pub closed spec fn settings(&self) -> SettingsView {
        self.settings@
    }

    /// Where the dictation is.
    pub closed spec fn stage(&self) -> StageView {
        self.stage@
    }

    /// Whether a step is as `view` says.
    pub open spec fn is_step(&self, step: Step, view: StepView) -> bool {
        &&& self.stage() == view.stage
        &&& notices_of(step.notices@) == view.notices
        &&& step.action@ == view.action
    }

    fn language(&self) -> (l: Option<String>)
        ensures
            text_or_none(l) == language_of(self.settings()),
    {
        if same_text(self.settings.language.as_str(), "auto") {
            None
        } else {
            Some(self.settings.language.clone())
        }
    }

    /// Starts a dictation. `loaded` is the model and the detection model that
    /// a transcription engine has loaded, if there is one.
    pub fn new(settings: DictationSettings, loaded: Option<(String, String)>) -> (r: (
        Pipeline,
        Step,
    ))
        ensures
            r.0.settings() == settings@,
            r.0.is_step(r.1, begun(settings@, loaded)),
    {
        let stale: bool = match &loaded {
            Some(l) => !same_text(l.0.as_str(), settings.model_path.as_str()) || !same_text(
                l.1.as_str(),
                settings.vad_path.as_str(),
            ),
            None => true,
        };
        let notices: Vec<Notice> = vec![Notice::Progress(10)];
        assert(notices_of(notices@) == seq![NoticeView::Progress(10)]);
        if stale {
            let p: Pipeline = Pipeline { settings, stage: Stage::LoadingEngine };
            (p, Step { notices, action: PipelineAction::LoadEngine })
        } else {
            let p: Pipeline = Pipeline { settings, stage: Stage::Transcribing };
            let language: Option<String> = p.language();
            (p, Step { notices, action: PipelineAction::Transcribe(language) })
        }
    }

    fn fail(&mut self, why: String) -> (step: Step)
        ensures
            final(self).settings() == old(self).settings(),
            final(self).is_step(step, failed(why@)),
    {
        self.stage = Stage::Over;
        let notices: Vec<Notice> = Vec::new();
        assert(notices_of(notices@) == Seq::<NoticeView>::empty());
        Step { notices, action: PipelineAction::Finish { result: Err(why), restore: false } }
    }

    fn save(&mut self, notices: Vec<Notice>, text: String, raw: Option<String>) -> (step: Step)
        ensures
            final(self).settings() == old(self).settings(),
            final(self).is_step(
                step,
                saving(notices_of(notices@), text@, text_or_none(raw)),
            ),
    {
        if text.as_str().is_empty() {
            self.stage = Stage::Over;
            let ghost before = notices@;
            let mut notices: Vec<Notice> = notices;
            notices.push(Notice::Progress(100));
            notices.push(Notice::Result(text.clone()));
            assert(notices_of(notices@) == notices_of(before) + seq![
                NoticeView::Progress(100),
                NoticeView::Result(text@),
            ]);
            Step { notices, action: PipelineAction::Finish { result: Ok(text), restore: false } }
        } else {
            self.stage = Stage::Saving(text.clone());
            Step { notices, action: PipelineAction::Save { text, raw } }
        }
    }

    fn rewrite(&mut self, heard: String, text: String) -> (step: Step)
        ensures
            final(self).settings() == old(self).settings(),
            final(self).is_step(step, rewriting(heard@, text@)),
    {
        self.stage = Stage::Rewriting { heard, text: text.clone() };
        let notices: Vec<Notice> = Vec::new();
        assert(notices_of(notices@) == Seq::<NoticeView>::empty());
        Step { notices, action: PipelineAction::Rewrite(text) }
    }

    fn on_transcribed(&mut self, heard: String, rewriter: Option<String>) -> (step: Step)
        ensures
            final(self).settings() == old(self).settings(),
            final(self).is_step(
                step,
                transcribed(old(self).settings(), heard@, text_or_none(rewriter)),
            ),
    {
        let text: String = if self.settings.apply_italian_corrections && same_text(
            self.settings.language.as_str(),
            "it",
        ) {
            correct(heard.as_str())
        } else {
            heard.clone()
        };
        let none: Vec<Notice> = Vec::new();
        assert(notices_of(none@) == Seq::<NoticeView>::empty());
        if !self.settings.reformulation_enabled
            || self.settings.reformulation_model_path.as_str().is_empty()
            || text.as_str().is_empty() {
            return self.save(none, text, None);
        }
        let is_loaded: bool = match &rewriter {
            Some(path) => same_text(
                path.as_str(),
                self.settings.reformulation_model_path.as_str(),
            ),
            None => false,
        };
        if is_loaded {
            self.rewrite(heard, text)
        } else {
            self.stage = Stage::LoadingRewriter { heard, text };
            Step { notices: none, action: PipelineAction::LoadRewriter }
        }
    }

    fn on_saved(&mut self, text: String, result: Result<(), String>, is_paster_open: bool) -> (step:
        Step)
        ensures
            final(self).settings() == old(self).settings(),
            final(self).is_step(
                step,
                after_saving(old(self).settings(), text@, result, is_paster_open),
            ),
    {
        let mut notices: Vec<Notice> = Vec::new();
        if let Err(e) = &result {
            notices.push(Notice::Error(joined("salvataggio non riuscito: ", e.as_str())));
        }
        notices.push(Notice::Progress(100));
        notices.push(Notice::Result(text.clone()));
        assert(notices_of(notices@) == save_notices(text@, result));
        if !self.settings.paste {
            self.stage = Stage::Over;
            Step { notices, action: PipelineAction::Finish { result: Ok(text), restore: false } }
        } else if is_paster_open {
            self.stage = Stage::Pasting(text.clone());
            Step { notices, action: PipelineAction::Paste(text) }
        } else {
            self.stage = Stage::OpeningPaster(text);
            Step { notices, action: PipelineAction::OpenPaster }
        }
    }

    /// The text that goes along.
    fn text(&self) -> (t: String)
        ensures
            t@ == match self.stage() {
                StageView::LoadingRewriter { text, .. } => text,
                StageView::Rewriting { text, .. } => text,
                StageView::Saving(t) => t,
                StageView::OpeningPaster(t) => t,
                StageView::Pasting(t) => t,
                _ => Seq::empty(),
            },
    {
        match &self.stage {
            Stage::LoadingEngine => String::new(),
            Stage::Transcribing => String::new(),
            Stage::LoadingRewriter { text, .. } => text.clone(),
            Stage::Rewriting { text, .. } => text.clone(),
            Stage::Saving(t) => t.clone(),
            Stage::OpeningPaster(t) => t.clone(),
            Stage::Pasting(t) => t.clone(),
            Stage::Over => String::new(),
        }
    }

    /// What was heard, until it is rewritten.
    fn heard(&self) -> (t: String)
        ensures
            t@ == match self.stage() {
                StageView::LoadingRewriter { heard, .. } => heard,
                StageView::Rewriting { heard, .. } => heard,
                _ => Seq::empty(),
            },
    {
        match &self.stage {
            Stage::LoadingRewriter { heard, .. } => heard.clone(),
            Stage::Rewriting { heard, .. } => heard.clone(),
            _ => String::new(),
        }
    }

    /// Takes an event and says what is to be done next.
    pub fn step(&mut self, event: PipelineEvent) -> (step: Step)
        requires
            can_come(old(self).stage(), event),
        ensures
            final(self).settings() == old(self).settings(),
            final(self).is_step(step, next(old(self).settings(), old(self).stage(), event)),
    {
        let mut none: Vec<Notice> = Vec::new();
        assert(notices_of(none@) == Seq::<NoticeView>::empty());
        match event {
            PipelineEvent::EngineLoaded(r) => match r {
                Ok(_) => {
                    self.stage = Stage::Transcribing;
                    let language: Option<String> = self.language();
                    Step { notices: none, action: PipelineAction::Transcribe(language) }
                },
                Err(e) => self.fail(e),
            },
            PipelineEvent::Transcribed { text, rewriter } => match text {
                Ok(t) => self.on_transcribed(t, rewriter),
                Err(e) => self.fail(e),
            },
            PipelineEvent::RewriterLoaded(r) => {
                let text: String = self.text();
                match r {
                    Ok(_) => {
                        let heard: String = self.heard();
                        self.rewrite(heard, text)
                    },
                    Err(e) => {
                        none.push(
                            Notice::Error(
                                joined("riformulazione saltata: ", e.message().as_str()),
                            ),
                        );
                        assert(notices_of(none@) == seq![
                            NoticeView::Error(
                                "riformulazione saltata: "@
                                    + crate::reformulation::engine::message_of(e),
                            ),
                        ]);
                        self.save(none, text, None)
                    },
                }
            },
            PipelineEvent::Rewritten(r) => {
                let text: String = self.text();
                let heard: String = self.heard();
                match accepted_rewrite(r, text.as_str()) {
                    None => self.save(none, text, None),
                    Some(rewrite) => if same_text(rewrite.as_str(), heard.as_str()) {
                        self.save(none, rewrite, None)
                    } else {
                        self.save(none, rewrite, Some(heard))
                    },
                }
            },
            PipelineEvent::Saved { result, is_paster_open } => {
                let text: String = self.text();
                self.on_saved(text, result, is_paster_open)
            },
            PipelineEvent::PasterOpened(r) => {
                let text: String = self.text();
                match r {
                    Ok(_) => {
                        self.stage = Stage::Pasting(text.clone());
                        Step { notices: none, action: PipelineAction::Paste(text) }
                    },
                    Err(e) => self.fail(e),
                }
            },
            PipelineEvent::Pasted(r) => {
                let text: String = self.text();
                match r {
                    Ok(_) => {
                        self.stage = Stage::Over;
                        Step {
                            notices: none,
                            action: PipelineAction::Finish { result: Ok(text), restore: true },
                        }
                    },
                    Err(e) => self.fail(e),
                }
            },
        }
    }
}

} // verus!

//! What holds of every dictation, however it goes.

use crate::corrector::corrected;
use crate::corrector::spelling::word_class;
use crate::dictation::pipeline::{
    after_saving, begun, can_come, next, notices_of, spelled, ActionView, Notice, NoticeView,
    Outcome, Pipeline, PipelineAction, PipelineEvent, StageView, Step, StepView,
};
use crate::dictation::{DictationSettings, SettingsView};
use crate::reformulation::engine::{message_of, rewrite_from, EngineError};
use crate::reformulation::sanitized;
use crate::text::text_or_none;
use vstd::prelude::*;

verus! {

/// The step that the first `k` of `events` lead to.
pub open spec fn step_at(
    s: SettingsView,
    loaded: Option<(String, String)>,
    events: Seq<PipelineEvent>,
    k: int,
) -> StepView
    decreases k,
{
    if k <= 0 {
        begun(s, loaded)
    } else {
        next(s, step_at(s, loaded, events, k - 1).stage, events[k - 1])
    }
}

/// Whether `events` can come one behind the other.
pub open spec fn can_happen(
    s: SettingsView,
    loaded: Option<(String, String)>,
    events: Seq<PipelineEvent>,
) -> bool {
    forall|k: int|
        0 <= k < events.len() ==> can_come(
            step_at(s, loaded, events, k).stage,
            #[trigger] events[k],
        )
}

/// What was heard among the first `k` of `events`: the transcription exactly
/// as the engine produced it.
pub open spec fn heard(events: Seq<PipelineEvent>, k: int) -> Option<Seq<char>>
    decreases k,
{
    if k <= 0 {
        None
    } else {
        match events[k - 1] {
            PipelineEvent::Transcribed { text: Ok(t), .. } => Some(t@),
            _ => heard(events, k - 1),
        }
    }
}

/// Whether `t` was saved in one of the first `k` steps.
pub open spec fn is_saved(
    s: SettingsView,
    loaded: Option<(String, String)>,
    events: Seq<PipelineEvent>,
    k: int,
    t: Seq<char>,
) -> bool {
    exists|j: int|
        0 <= j < k && ((#[trigger] step_at(s, loaded, events, j)).action matches ActionView::Save {
            text,
            ..
        } && text == t)
}

/// The rewrite that the `k`th of `events` brought, if it brought one.
pub open spec fn rewrite_at(
    s: SettingsView,
    events: Seq<PipelineEvent>,
    k: int,
) -> Option<Seq<char>> {
    if k <= 0 {
        None
    } else {
        match (events[k - 1], heard(events, k)) {
            (PipelineEvent::Rewritten(outcome), Some(words)) => rewrite_from(
                outcome,
                spelled(s, words),
            ),
            _ => None,
        }
    }
}

/// Whether what was heard is kept in what is saved: as the corrections leave it
/// where there is no rewrite, and beside a rewrite whenever it differs from it.
pub open spec fn is_kept(
    s: SettingsView,
    words: Seq<char>,
    rewrite: Option<Seq<char>>,
    text: Seq<char>,
    raw: Option<Seq<char>>,
) -> bool {
    match rewrite {
        None => text == spelled(s, words) && raw is None,
        Some(r) => {
            &&& text == r
            &&& raw == if r == words {
                None
            } else {
                Some(words)
            }
        },
    }
}

/// Whether anything was saved in one of the first `k` steps.
pub open spec fn is_anything_saved(
    s: SettingsView,
    loaded: Option<(String, String)>,
    events: Seq<PipelineEvent>,
    k: int,
) -> bool {
    exists|j: int| 0 <= j < k && (#[trigger] step_at(s, loaded, events, j)).action is Save
}

/// What holds of the step that the first `k` events lead to.
spec fn is_in_order(
    s: SettingsView,
    loaded: Option<(String, String)>,
    events: Seq<PipelineEvent>,
    k: int,
) -> bool {
    let step = step_at(s, loaded, events, k);
    let words = heard(events, k);
    &&& (step.stage matches StageView::LoadingRewriter { heard, text } ==> words == Some(heard)
        && text == spelled(s, heard) && text.len() > 0)
    &&& (step.stage matches StageView::Rewriting { heard, text } ==> words == Some(heard) && text
        == spelled(s, heard) && text.len() > 0)
    &&& (step.stage matches StageView::Saving(t) ==> step.action is Save && step.action->Save_text
        == t)
    &&& (step.stage matches StageView::OpeningPaster(t) ==> is_saved(s, loaded, events, k, t))
    &&& (step.stage matches StageView::Pasting(t) ==> is_saved(s, loaded, events, k, t))
    &&& (step.action matches ActionView::Paste(t) ==> step.stage == StageView::Pasting(t))
    &&& (step.action is Save ==> {
        &&& step.stage == StageView::Saving(step.action->Save_text)
        &&& step.action->Save_text.len() > 0
        &&& words is Some
        &&& is_kept(
            s,
            words->0,
            rewrite_at(s, events, k),
            step.action->Save_text,
            step.action->Save_raw,
        )
    })
    &&& (words is Some && spelled(s, words->0).len() > 0 ==> step.stage is LoadingRewriter || step.stage
        is Rewriting || step.stage is Saving || is_anything_saved(s, loaded, events, k))
    &&& (step.action is Finish ==> step.stage is Over)
    &&& (step.action is Finish && step.action->Finish_result is Text
        && step.action->Finish_result->Text_0.len() > 0 ==> is_saved(
        s,
        loaded,
        events,
        k,
        step.action->Finish_result->Text_0,
    ))
}

proof fn lemma_saved_stays(
    s: SettingsView,
    loaded: Option<(String, String)>,
    events: Seq<PipelineEvent>,
    k: int,
    t: Seq<char>,
)
    requires
        is_saved(s, loaded, events, k, t),
    ensures
        is_saved(s, loaded, events, k + 1, t),
{
}

proof fn lemma_in_order(
    s: SettingsView,
    loaded: Option<(String, String)>,
    events: Seq<PipelineEvent>,
    k: int,
)
    requires
        can_happen(s, loaded, events),
        0 <= k <= events.len(),
    ensures
        is_in_order(s, loaded, events, k),
    decreases k,
{
    if k > 0 {
        lemma_in_order(s, loaded, events, k - 1);
        let before = step_at(s, loaded, events, k - 1);
        let event = events[k - 1];
        assert(can_come(before.stage, event));
        match before.stage {
            StageView::Saving(t) => {
                assert(is_saved(s, loaded, events, k, t)) by {
                    assert(step_at(s, loaded, events, k - 1).action->Save_text == t);
                }
            },
            StageView::OpeningPaster(t) => {
                lemma_saved_stays(s, loaded, events, k - 1, t);
            },
            StageView::Pasting(t) => {
                lemma_saved_stays(s, loaded, events, k - 1, t);
            },
            _ => {},
        }
    }
}

/// A text is saved before it is pasted, in every dictation: the paste is never
/// the only surviving copy. The same holds of every text that a dictation
/// comes to, pasted or not.
pub proof fn law_saved_before_pasted(
    s: SettingsView,
    loaded: Option<(String, String)>,
    events: Seq<PipelineEvent>,
    k: int,
)
    requires
        can_happen(s, loaded, events),
        0 <= k <= events.len(),
    ensures
        step_at(s, loaded, events, k).action matches ActionView::Paste(t) ==> is_saved(
            s,
            loaded,
            events,
            k,
            t,
        ),
        step_at(s, loaded, events, k).action is Finish && step_at(
            s,
            loaded,
            events,
            k,
        ).action->Finish_result is Text && step_at(
            s,
            loaded,
            events,
            k,
        ).action->Finish_result->Text_0.len() > 0 ==> is_saved(
            s,
            loaded,
            events,
            k,
            step_at(s, loaded, events, k).action->Finish_result->Text_0,
        ),
{
    lemma_in_order(s, loaded, events, k);
}

/// A rewrite is never the only surviving copy of what was dictated: what is
/// saved is what was heard, as the corrections leave it, or a rewrite, and then
/// together with what the engine produced whenever that differs from it. It is
/// never empty.
pub proof fn law_words_are_saved(
    s: SettingsView,
    loaded: Option<(String, String)>,
    events: Seq<PipelineEvent>,
    k: int,
)
    requires
        can_happen(s, loaded, events),
        0 <= k <= events.len(),
        step_at(s, loaded, events, k).action is Save,
    ensures
        ({
            let action = step_at(s, loaded, events, k).action;
            let words = heard(events, k);
            &&& action->Save_text.len() > 0
            &&& words is Some
            &&& is_kept(
                s,
                words->0,
                rewrite_at(s, events, k),
                action->Save_text,
                action->Save_raw,
            )
        }),
{
    lemma_in_order(s, loaded, events, k);
}

/// A dictation that was heard, and says something after the corrections, does
/// not end without having been saved.
pub proof fn law_every_dictation_is_saved(
    s: SettingsView,
    loaded: Option<(String, String)>,
    events: Seq<PipelineEvent>,
    k: int,
)
    requires
        can_happen(s, loaded, events),
        0 <= k <= events.len(),
        step_at(s, loaded, events, k).action is Finish,
        heard(events, k) is Some,
        spelled(s, heard(events, k)->0).len() > 0,
    ensures
        is_anything_saved(s, loaded, events, k),
{
    lemma_in_order(s, loaded, events, k);
}

/// A failed save is reported, but the text is pasted all the same.
pub proof fn law_failed_save_does_not_block_the_paste(
    s: SettingsView,
    t: Seq<char>,
    why: String,
    is_paster_open: bool,
)
    ensures
        after_saving(s, t, Err(why), is_paster_open).action == after_saving(
            s,
            t,
            Ok(()),
            is_paster_open,
        ).action,
        after_saving(s, t, Err(why), is_paster_open).stage == after_saving(
            s,
            t,
            Ok(()),
            is_paster_open,
        ).stage,
        after_saving(s, t, Err(why), is_paster_open).notices == seq![
            NoticeView::Error("salvataggio non riuscito: "@ + why@),
        ] + after_saving(s, t, Ok(()), is_paster_open).notices,
{
}

/// Where the rewriting engine cannot be loaded, that is reported, and the
/// dictation goes on as it is. Where it fails to rewrite, the dictation goes
/// on as it is.
pub proof fn law_failed_rewrite_goes_on(
    s: SettingsView,
    heard: Seq<char>,
    t: Seq<char>,
    why: EngineError,
)
    requires
        t.len() > 0,
    ensures
        next(
            s,
            StageView::LoadingRewriter { heard, text: t },
            PipelineEvent::RewriterLoaded(Err(why)),
        ) == (StepView {
            stage: StageView::Saving(t),
            notices: seq![NoticeView::Error("riformulazione saltata: "@ + message_of(why))],
            action: ActionView::Save { text: t, raw: None },
        }),
        next(
            s,
            StageView::Rewriting { heard, text: t },
            PipelineEvent::Rewritten(Err(why)),
        ) == (StepView {
            stage: StageView::Saving(t),
            notices: Seq::empty(),
            action: ActionView::Save { text: t, raw: None },
        }),
{
}

/// The corrections are for Italian only, and only if they are asked for.
pub proof fn law_corrections_are_for_italian(s: SettingsView, t: Seq<char>)
    requires
        s.language != "it"@ || !s.apply_italian_corrections,
    ensures
        spelled(s, t) == t,
{
}

/// What is kept beside a rewrite is the engine's text, whenever it differs from
/// the rewrite: also where the corrections had changed it before, and where the
/// rewrite leaves it as they did.
pub proof fn law_raw_is_what_the_engine_produced(
    s: SettingsView,
    heard: Seq<char>,
    answer: Result<String, EngineError>,
)
    requires
        rewrite_from(answer, spelled(s, heard)) is Some,
    ensures
        next(
            s,
            StageView::Rewriting { heard, text: spelled(s, heard) },
            PipelineEvent::Rewritten(answer),
        ).action == (ActionView::Save {
            text: rewrite_from(answer, spelled(s, heard))->0,
            raw: if rewrite_from(answer, spelled(s, heard))->0 == heard {
                None
            } else {
                Some(heard)
            },
        }),
{
}

/// What was saved is pasted if the user wants pasting, whatever else is set and
/// however the save went: at once if there is something to paste with, and as
/// soon as it was opened otherwise. A dictation ends without a paste only where
/// pasting is off.
pub proof fn law_saved_text_is_pasted(
    s: SettingsView,
    t: Seq<char>,
    result: Result<(), String>,
    is_paster_open: bool,
)
    ensures
        ({
            let then = next(
                s,
                StageView::Saving(t),
                PipelineEvent::Saved { result, is_paster_open },
            );
            let opened = next(s, then.stage, PipelineEvent::PasterOpened(Ok(())));
            let done = seq![NoticeView::Progress(100), NoticeView::Result(t)];
            &&& s.paste && is_paster_open ==> then.action == ActionView::Paste(t) && then.stage
                == StageView::Pasting(t)
            &&& s.paste && !is_paster_open ==> {
                &&& then.action == ActionView::OpenPaster
                &&& opened.action == ActionView::Paste(t)
                &&& opened.stage == StageView::Pasting(t)
                &&& opened.notices == Seq::<NoticeView>::empty()
            }
            &&& !s.paste ==> then.stage == StageView::Over && then.action == (ActionView::Finish {
                result: Outcome::Text(t),
                restore: false,
            })
            &&& match result {
                Ok(_) => then.notices == done,
                Err(e) => then.notices == seq![
                    NoticeView::Error("salvataggio non riuscito: "@ + e@),
                ] + done,
            }
        }),
{
}

/// After a paste the dictation is over, and the clipboard is restored later.
/// Where a model could not be loaded, nothing was heard, or nothing could be
/// pasted, the dictation fails with the reason it was given.
pub proof fn law_ends_tell_what_happened(
    s: SettingsView,
    t: Seq<char>,
    rewriter: Option<String>,
    why: String,
)
    ensures
        next(s, StageView::Pasting(t), PipelineEvent::Pasted(Ok(()))) == (StepView {
            stage: StageView::Over,
            notices: Seq::empty(),
            action: ActionView::Finish { result: Outcome::Text(t), restore: true },
        }),
        forall|stage: StageView, event: PipelineEvent|
            event == PipelineEvent::EngineLoaded(Err(why)) || event
                == (PipelineEvent::Transcribed { text: Err(why), rewriter }) || event
                == PipelineEvent::PasterOpened(Err(why)) || event == PipelineEvent::Pasted(Err(why))
                ==> #[trigger] next(s, stage, event) == (StepView {
                stage: StageView::Over,
                notices: Seq::empty(),
                action: ActionView::Finish { result: Outcome::Failure(why@), restore: false },
            }),
{
}

/// A dictation starts with ten percent. The engine is loaded only if none is
/// loaded with both models that are set, and then it transcribes in the
/// language that is set, or finds it out where that is `auto`.
pub proof fn law_transcribes_in_the_set_language(
    s: SettingsView,
    model: String,
    detector: String,
)
    ensures
        ({
            let language = if s.language == "auto"@ {
                None
            } else {
                Some(s.language)
            };
            let fits = model@ == s.model_path && detector@ == s.vad_path;
            let first = begun(s, Some((model, detector)));
            let loaded = next(s, StageView::LoadingEngine, PipelineEvent::EngineLoaded(Ok(())));
            &&& first.notices == seq![NoticeView::Progress(10)]
            &&& fits ==> first.action == ActionView::Transcribe(language) && first.stage
                == StageView::Transcribing
            &&& !fits ==> first.action == ActionView::LoadEngine && first.stage
                == StageView::LoadingEngine
            &&& begun(s, None) == (StepView {
                stage: StageView::LoadingEngine,
                notices: seq![NoticeView::Progress(10)],
                action: ActionView::LoadEngine,
            })
            &&& loaded == (StepView {
                stage: StageView::Transcribing,
                notices: Seq::empty(),
                action: ActionView::Transcribe(language),
            })
        }),
{
}

/// What was heard is corrected only if it is Italian and that is asked for. If
/// a rewrite is asked for and a model is set for it, the corrected text goes to
/// that model, which is loaded first unless it is. Otherwise it is saved as it
/// is. Nothing is done with a text that says nothing, but to say so.
pub proof fn law_heard_text_goes_on(s: SettingsView, text: String, rewriter: Option<String>)
    ensures
        ({
            let right = if s.language == "it"@ && s.apply_italian_corrections {
                corrected(word_class(), text@)
            } else {
                text@
            };
            let wanted = s.reformulation_enabled && s.reformulation_model_path.len() > 0;
            let is_loaded = rewriter is Some && rewriter->0@ == s.reformulation_model_path;
            let then = next(
                s,
                StageView::Transcribing,
                PipelineEvent::Transcribed { text: Ok(text), rewriter },
            );
            let loaded = next(s, then.stage, PipelineEvent::RewriterLoaded(Ok(())));
            &&& right.len() == 0 ==> then == (StepView {
                stage: StageView::Over,
                notices: seq![NoticeView::Progress(100), NoticeView::Result(right)],
                action: ActionView::Finish { result: Outcome::Text(right), restore: false },
            })
            &&& right.len() > 0 ==> then.notices == Seq::<NoticeView>::empty()
            &&& right.len() > 0 && !wanted ==> then.action == (ActionView::Save {
                text: right,
                raw: None,
            }) && then.stage == StageView::Saving(right)
            &&& right.len() > 0 && wanted && is_loaded ==> then.action == ActionView::Rewrite(right)
                && then.stage == (StageView::Rewriting { heard: text@, text: right })
            &&& right.len() > 0 && wanted && !is_loaded ==> {
                &&& then.action == ActionView::LoadRewriter
                &&& loaded.action == ActionView::Rewrite(right)
                &&& loaded.stage == (StageView::Rewriting { heard: text@, text: right })
                &&& loaded.notices == Seq::<NoticeView>::empty()
            }
        }),
{
}

/// What a model made of a text is saved in its place, and the text itself where
/// the model made nothing of it.
pub proof fn law_rewrite_is_saved(
    s: SettingsView,
    heard: Seq<char>,
    t: Seq<char>,
    answer: Result<String, EngineError>,
)
    requires
        t.len() > 0,
    ensures
        ({
            let then = next(
                s,
                StageView::Rewriting { heard, text: t },
                PipelineEvent::Rewritten(answer),
            );
            let text = match answer {
                Ok(response) => sanitized(response@, t),
                Err(_) => t,
            };
            &&& then.action is Save
            &&& then.action->Save_text == text
            &&& then.action->Save_raw is Some ==> then.action->Save_raw == Some(heard) && heard
                != text
            &&& text != t && text != heard ==> then.action->Save_raw == Some(heard)
            &&& then.stage == StageView::Saving(text)
            &&& then.notices == Seq::<NoticeView>::empty()
        }),
{
}

/// What is set, what is to be done and what the user is told are shown as they
/// are.
pub proof fn law_steps_are_shown_as_they_are(
    s: DictationSettings,
    t: String,
    raw: Option<String>,
    restore: bool,
    percent: u8,
)
    ensures
        s@.model_path == s.model_path@ && s@.vad_path == s.vad_path@,
        s@.language == s.language@ && s@.hotkey == s.hotkey@,
        s@.apply_italian_corrections == s.apply_italian_corrections,
        s@.paste == s.paste && s@.hold_to_record == s.hold_to_record,
        s@.reformulation_enabled == s.reformulation_enabled,
        s@.reformulation_model_path == s.reformulation_model_path@,
        PipelineAction::LoadEngine@ == ActionView::LoadEngine,
        PipelineAction::Transcribe(raw)@ == ActionView::Transcribe(text_or_none(raw)),
        PipelineAction::LoadRewriter@ == ActionView::LoadRewriter,
        PipelineAction::Rewrite(t)@ == ActionView::Rewrite(t@),
        (PipelineAction::Save { text: t, raw })@ == (ActionView::Save {
            text: t@,
            raw: text_or_none(raw),
        }),
        PipelineAction::OpenPaster@ == ActionView::OpenPaster,
        PipelineAction::Paste(t)@ == ActionView::Paste(t@),
        (PipelineAction::Finish { result: Ok(t), restore })@ == (ActionView::Finish {
            result: Outcome::Text(t@),
            restore,
        }),
        (PipelineAction::Finish { result: Err(t), restore })@ == (ActionView::Finish {
            result: Outcome::Failure(t@),
            restore,
        }),
        Notice::Progress(percent)@ == NoticeView::Progress(percent),
        Notice::Error(t)@ == NoticeView::Error(t@),
        Notice::Result(t)@ == NoticeView::Result(t@),
{
}

/// A step tells its notices in order, and leads where it says.
pub proof fn law_step_is_what_it_says(p: Pipeline, step: Step, view: StepView, k: int)
    requires
        p.is_step(step, view),
    ensures
        p.stage() == view.stage,
        step.action@ == view.action,
        step.notices@.len() == view.notices.len(),
        0 <= k < view.notices.len() ==> step.notices@[k]@ == view.notices[k],
{
    assert(notices_of(step.notices@) == view.notices);
}

/// Every stage but the last takes the event that it waits for, whatever that
/// brings.
pub proof fn law_stages_take_their_events(
    heard: Seq<char>,
    t: Seq<char>,
    r: Result<(), String>,
    text: Result<String, String>,
    rewriter: Option<String>,
    loaded: Result<(), EngineError>,
    answer: Result<String, EngineError>,
    is_paster_open: bool,
)
    ensures
        can_come(StageView::LoadingEngine, PipelineEvent::EngineLoaded(r)),
        can_come(StageView::Transcribing, PipelineEvent::Transcribed { text, rewriter }),
        can_come(
            StageView::LoadingRewriter { heard, text: t },
            PipelineEvent::RewriterLoaded(loaded),
        ),
        can_come(StageView::Rewriting { heard, text: t }, PipelineEvent::Rewritten(answer)),
        can_come(StageView::Saving(t), PipelineEvent::Saved { result: r, is_paster_open }),
        can_come(StageView::OpeningPaster(t), PipelineEvent::PasterOpened(r)),
        can_come(StageView::Pasting(t), PipelineEvent::Pasted(r)),
{
}

/// A model that could not be loaded is told of, and the text it was to rewrite
/// is saved as it is.
pub proof fn law_missing_rewriter_is_told_of(
    s: SettingsView,
    heard: Seq<char>,
    t: Seq<char>,
    why: EngineError,
)
    requires
        t.len() > 0,
    ensures
        ({
            let then = next(
                s,
                StageView::LoadingRewriter { heard, text: t },
                PipelineEvent::RewriterLoaded(Err(why)),
            );
            &&& then.action == (ActionView::Save { text: t, raw: None })
            &&& then.stage == StageView::Saving(t)
            &&& then.notices.len() == 1
            &&& then.notices[0] == NoticeView::Error("riformulazione saltata: "@ + message_of(why))
        }),
{
}

} // verus!

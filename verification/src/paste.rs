//! Put text on the clipboard, send the paste keystroke to the frontmost app,
//! and restore the user's original clipboard afterwards without clobbering
//! anything they copied in the meantime.
//!
//! Burst coalescing ("only the first dictation in a burst captures the
//! original clipboard") and the took-over guard live in [`Paster`], written
//! once against the [`Clipboard`] and [`KeySender`] traits. There is no change
//! counter to go by, so the guard compares clipboard text against what was
//! pasted, which is equivalent unless the user copies the identical string
//! within the restore window.

use crate::text::{decimal, decimal_text, joined, same_text, text_or_none};
use vstd::prelude::*;

verus! {

/// How long after a paste the clipboard is restored, in milliseconds.
pub const RESTORE_DELAY_MILLIS: u64 = 1500;

/// Why a text could not be pasted.
#[derive(Debug)]
pub enum PasteError {
    Clipboard(String),
    Keystroke(String),
    Unsupported,
}

/// What is said of an error.
pub open spec fn message_of(e: PasteError) -> Seq<char> {
    match e {
        PasteError::Clipboard(why) => "clipboard access failed: "@ + why@,
        PasteError::Keystroke(why) => "failed to synthesize the paste keystroke: "@ + why@,
        PasteError::Unsupported => "paste simulation is not supported on this platform yet"@,
    }
}

impl PasteError {
    /// The error in words.
    pub fn message(&self) -> (s: String)
        ensures
            s@ == message_of(*self),
    {
        match self {
            PasteError::Clipboard(why) => joined("clipboard access failed: ", why.as_str()),
            PasteError::Keystroke(why) => joined(
                "failed to synthesize the paste keystroke: ",
                why.as_str(),
            ),
            PasteError::Unsupported =>
                "paste simulation is not supported on this platform yet".to_owned(),
        }
    }
}

/// One use of the clipboard, with what it answered.
pub enum ClipboardCall {
    /// The text was asked for.
    Ask(Option<Seq<char>>),
    /// This text was put there.
    Give(Seq<char>, Result<(), PasteError>),
}

/// A clipboard that holds text. Whoever implements it answers as they will:
/// contracts only speak of which calls were made and what they answered.
///
/// A verified clipboard keeps a log of its own and gives it as `calls`: with
/// the default, of which nothing is known, it could not meet the contracts of
/// its methods.
pub trait Clipboard: Send {
    /// What it was used for so far.
    closed spec fn calls(&self) -> Seq<ClipboardCall> {
        arbitrary()
    }

    /// Current clipboard text, if any.
    fn get_text(&mut self) -> (text: Option<String>)
        ensures
            final(self).calls() == old(self).calls().push(ClipboardCall::Ask(text_or_none(text))),
    ;

    /// Replaces the clipboard text.
    fn set_text(&mut self, text: &str) -> (r: Result<(), PasteError>)
        ensures
            final(self).calls() == old(self).calls().push(ClipboardCall::Give(text@, r)),
    ;
}

/// What presses keys. Whoever implements it answers as they will: contracts
/// only speak of which calls were made and what they answered.
///
/// A verified one keeps a log of its own and gives it as `pastes`: with the
/// default, of which nothing is known, it could not meet the contract of its
/// method.
pub trait KeySender: Send {
    /// How the pastes so far went.
    closed spec fn pastes(&self) -> Seq<Result<(), PasteError>> {
        arbitrary()
    }

    /// Presses the paste keystroke.
    fn send_paste(&mut self) -> (r: Result<(), PasteError>)
        ensures
            final(self).pastes() == old(self).pastes().push(r),
    ;
}

/// What is kept between a paste and the restore.
pub struct Pending {
    /// Clipboard contents from before the first paste of a burst; `None`
    /// means the clipboard was empty or held no text.
    pub original: Option<String>,
    /// What was last put on the clipboard: the restore guard.
    pub last_pasted: String,
}

/// What a [`Pending`] stands for.
pub struct Burst {
    pub original: Option<Seq<char>>,
    pub last_pasted: Seq<char>,
}

/// The burst that is going on, if one is.
pub open spec fn burst_of(pending: Option<Pending>) -> Option<Burst> {
    match pending {
        Some(p) => Some(
            Burst { original: text_or_none(p.original), last_pasted: p.last_pasted@ },
        ),
        None => None,
    }
}

/// The paste and restore state machine. The caller owns the timing: after each
/// [`Paster::insert_text`], schedule a [`Paster::restore_if_unchanged`] call
/// [`RESTORE_DELAY_MILLIS`] later (each new paste supersedes the previous
/// deadline).
pub struct Paster<C: Clipboard, K: KeySender> {
    pub clipboard: C,
    pub keys: K,
    pub pending: Option<Pending>,
}

/// What a [`Paster`] has done and remembers.
pub struct PasterView {
    pub burst: Option<Burst>,
    pub calls: Seq<ClipboardCall>,
    pub pastes: Seq<Result<(), PasteError>>,
}

impl<C: Clipboard, K: KeySender> View for Paster<C, K> {
    type V = PasterView;

    open spec fn view(&self) -> PasterView {
        PasterView {
            burst: burst_of(self.pending),
            calls: self.clipboard.calls(),
            pastes: self.keys.pastes(),
        }
    }
}

/// What pasting `text` does, when the clipboard answers `seen` if it is asked
/// for its text and `set` to being given one, and the keystroke goes as `sent`
/// if it is pressed. Also what it returns.
pub open spec fn pasted(
    p: PasterView,
    text: Seq<char>,
    seen: Option<Seq<char>>,
    set: Result<(), PasteError>,
    sent: Result<(), PasteError>,
) -> (PasterView, Result<(), PasteError>) {
    let asked = match p.burst {
        Some(_) => p.calls,
        None => p.calls.push(ClipboardCall::Ask(seen)),
    };
    let original = match p.burst {
        Some(b) => b.original,
        None => seen,
    };
    let calls = asked.push(ClipboardCall::Give(text, set));
    if set is Ok {
        (
            PasterView {
                burst: Some(Burst { original, last_pasted: text }),
                calls,
                pastes: p.pastes.push(sent),
            },
            sent,
        )
    } else {
        (PasterView { burst: None, calls, pastes: p.pastes }, set)
    }
}

/// What restoring does, when the clipboard answers `seen` if it is asked for
/// its text and `set` if it is given one. Also what it returns.
pub open spec fn restored(
    p: PasterView,
    seen: Option<Seq<char>>,
    set: Result<(), PasteError>,
) -> (PasterView, Result<bool, PasteError>) {
    match p.burst {
        None => (p, Ok(false)),
        Some(b) => {
            let asked = p.calls.push(ClipboardCall::Ask(seen));
            if seen == Some(b.last_pasted) && b.original is Some {
                (
                    PasterView {
                        burst: None,
                        calls: asked.push(ClipboardCall::Give(b.original->0, set)),
                        pastes: p.pastes,
                    },
                    match set {
                        Ok(_) => Ok(true),
                        Err(e) => Err(e),
                    },
                )
            } else {
                (PasterView { burst: None, calls: asked, pastes: p.pastes }, Ok(false))
            }
        },
    }
}

impl<C: Clipboard, K: KeySender> Paster<C, K> {
    /// A paster with nothing to restore.
    pub fn new(clipboard: C, keys: K) -> (p: Self)
        ensures
            p.clipboard == clipboard,
            p.keys == keys,
            p@.burst is None,
    {
        Paster { clipboard, keys, pending: None }
    }

    /// Puts `text` on the clipboard and presses the paste keystroke. Only the
    /// first paste of a burst captures the pre-burst clipboard, so
    /// back-to-back dictations restore the user's real clipboard, not the
    /// previous dictation.
    pub fn insert_text(&mut self, text: &str) -> (r: Result<(), PasteError>)
        ensures
            exists|
                seen: Option<Seq<char>>,
                set: Result<(), PasteError>,
                sent: Result<(), PasteError>,
            |
                (final(self)@, r) == #[trigger] pasted(old(self)@, text@, seen, set, sent),
    {
        let ghost before = self@;
        let ghost mut seen: Option<Seq<char>> = None;
        let original: Option<String> = match self.pending.take() {
            Some(p) => p.original,
            None => {
                let current: Option<String> = self.clipboard.get_text();
                proof {
                    seen = text_or_none(current);
                }
                current
            },
        };
        let set: Result<(), PasteError> = self.clipboard.set_text(text);
        let ghost answer = set;
        match set {
            Err(e) => {
                assert((self@, Err::<(), PasteError>(e)) == pasted(
                    before,
                    text@,
                    seen,
                    answer,
                    answer,
                ));
                Err(e)
            },
            Ok(_) => {
                self.pending = Some(Pending { original, last_pasted: text.to_owned() });
                let sent: Result<(), PasteError> = self.keys.send_paste();
                assert((self@, sent) == pasted(before, text@, seen, answer, sent));
                sent
            },
        }
    }

    /// Restores the pre-burst clipboard if nothing else has taken the
    /// clipboard over since our paste. Returns whether a restore happened.
    /// Calling it late is safe: the guard compares against the *latest* pasted
    /// text.
    pub fn restore_if_unchanged(&mut self) -> (r: Result<bool, PasteError>)
        ensures
            exists|seen: Option<Seq<char>>, set: Result<(), PasteError>|
                (final(self)@, r) == #[trigger] restored(old(self)@, seen, set),
    {
        let ghost before = self@;
        let p: Pending = match self.pending.take() {
            Some(p) => p,
            None => {
                assert((self@, Ok::<bool, PasteError>(false)) == restored(before, None, Ok(())));
                return Ok(false);
            },
        };
        let current: Option<String> = self.clipboard.get_text();
        let ghost seen = text_or_none(current);
        // Someone (or something) replaced the clipboard after our paste: their
        // contents win, the saved original is dropped.
        let unchanged: bool = match &current {
            Some(text) => same_text(text.as_str(), p.last_pasted.as_str()),
            None => false,
        };
        if !unchanged {
            assert((self@, Ok::<bool, PasteError>(false)) == restored(before, seen, Ok(())));
            return Ok(false);
        }
        match &p.original {
            Some(text) => {
                let set: Result<(), PasteError> = self.clipboard.set_text(text.as_str());
                let ghost answer = set;
                let r: Result<bool, PasteError> = match set {
                    Ok(_) => Ok(true),
                    Err(e) => Err(e),
                };
                assert((self@, r) == restored(before, seen, answer));
                r
            },
            None => {
                assert((self@, Ok::<bool, PasteError>(false)) == restored(before, seen, Ok(())));
                Ok(false)
            },
        }
    }
}

/// A key of the paste chord.
#[derive(Debug, Clone, Copy, PartialEq, Eq, Structural)]
pub enum Key {
    /// The modifier of the platform's shortcuts.
    Modifier,
    V,
}

/// A key that goes down or up.
#[derive(Debug, Clone, Copy, PartialEq, Eq, Structural)]
pub struct KeyStroke {
    pub key: Key,
    pub up: bool,
}

/// The paste chord: the modifier is held while V is pressed, and both are
/// released.
pub fn paste_chord() -> (strokes: Vec<KeyStroke>)
    ensures
        strokes@ == seq![
            KeyStroke { key: Key::Modifier, up: false },
            KeyStroke { key: Key::V, up: false },
            KeyStroke { key: Key::V, up: true },
            KeyStroke { key: Key::Modifier, up: true },
        ],
{
    vec![
        KeyStroke { key: Key::Modifier, up: false },
        KeyStroke { key: Key::V, up: false },
        KeyStroke { key: Key::V, up: true },
        KeyStroke { key: Key::Modifier, up: true },
    ]
}

/// Whether a chord came through, when `sent` of its `wanted` strokes were
/// injected.
pub fn injected(sent: u32, wanted: u32) -> (r: Result<(), PasteError>)
    ensures
        match r {
            Ok(_) => sent == wanted,
            Err(PasteError::Keystroke(why)) => sent != wanted && why@ == "SendInput injected "@
                + decimal(sent as nat) + "/"@ + decimal(wanted as nat) + " events"@,
            Err(_) => false,
        },
{
    if sent == wanted {
        return Ok(());
    }
    let start: String = joined("SendInput injected ", decimal_text(sent as u64).as_str());
    let slash: String = joined(start.as_str(), "/");
    let both: String = joined(slash.as_str(), decimal_text(wanted as u64).as_str());
    Err(PasteError::Keystroke(joined(both.as_str(), " events")))
}

/// What a clipboard that held `start` holds after `calls` that all went well.
pub open spec fn held(start: Option<Seq<char>>, calls: Seq<ClipboardCall>) -> Option<Seq<char>>
    decreases calls.len(),
{
    if calls.len() == 0 {
        start
    } else {
        match calls.last() {
            ClipboardCall::Give(text, _) => Some(text),
            ClipboardCall::Ask(_) => held(start, calls.drop_last()),
        }
    }
}

/// Whether a clipboard that held `start` answered all of `calls` as one does
/// that nobody else uses: it takes what it is given and holds it.
pub open spec fn is_faithful(start: Option<Seq<char>>, calls: Seq<ClipboardCall>) -> bool
    decreases calls.len(),
{
    calls.len() == 0 || {
        &&& is_faithful(start, calls.drop_last())
        &&& match calls.last() {
            ClipboardCall::Give(_, r) => r is Ok,
            ClipboardCall::Ask(text) => text == held(start, calls.drop_last()),
        }
    }
}

proof fn lemma_pushed(start: Option<Seq<char>>, calls: Seq<ClipboardCall>, call: ClipboardCall)
    ensures
        held(start, calls.push(call)) == match call {
            ClipboardCall::Give(text, _) => Some(text),
            ClipboardCall::Ask(_) => held(start, calls),
        },
        is_faithful(start, calls.push(call)) ==> is_faithful(start, calls) && match call {
            ClipboardCall::Give(_, r) => r is Ok,
            ClipboardCall::Ask(text) => text == held(start, calls),
        },
{
    assert(calls.push(call).drop_last() == calls);
}

/// One paste and what was answered to it.
pub struct PasteStep {
    pub text: Seq<char>,
    pub seen: Option<Seq<char>>,
    pub set: Result<(), PasteError>,
    pub sent: Result<(), PasteError>,
}

/// A paster after a burst of pastes.
pub open spec fn after_pastes(p: PasterView, steps: Seq<PasteStep>) -> PasterView
    decreases steps.len(),
{
    if steps.len() == 0 {
        p
    } else {
        let step = steps.last();
        pasted(
            after_pastes(p, steps.drop_last()),
            step.text,
            step.seen,
            step.set,
            step.sent,
        ).0
    }
}

/// In a burst, the clipboard holds the last text that was pasted, what it held
/// before the burst is remembered, and a paste fails only where the keystroke
/// does.
pub proof fn law_burst_remembers_the_clipboard(
    p: PasterView,
    start: Option<Seq<char>>,
    steps: Seq<PasteStep>,
)
    requires
        p.burst is None,
        steps.len() > 0,
        is_faithful(start, after_pastes(p, steps).calls),
    ensures
        after_pastes(p, steps).burst == Some(
            Burst { original: held(start, p.calls), last_pasted: steps.last().text },
        ),
        held(start, after_pastes(p, steps).calls) == Some(steps.last().text),
        after_pastes(p, steps).pastes == p.pastes + Seq::new(steps.len(), |k: int| steps[k].sent),
        is_faithful(start, p.calls),
    decreases steps.len(),
{
    let step = steps.last();
    let before = after_pastes(p, steps.drop_last());
    let asked = match before.burst {
        Some(_) => before.calls,
        None => before.calls.push(ClipboardCall::Ask(step.seen)),
    };
    lemma_pushed(start, asked, ClipboardCall::Give(step.text, step.set));
    lemma_pushed(start, before.calls, ClipboardCall::Ask(step.seen));
    if steps.len() > 1 {
        law_burst_remembers_the_clipboard(p, start, steps.drop_last());
    }
    assert(after_pastes(p, steps).pastes == p.pastes + Seq::new(
        steps.len(),
        |k: int| steps[k].sent,
    ));
}

/// Whatever the user had on the clipboard before the first paste of a burst is
/// there again after the restore, and the restore says so.
pub proof fn law_restore_brings_the_clipboard_back(
    p: PasterView,
    start: Option<Seq<char>>,
    steps: Seq<PasteStep>,
    seen: Option<Seq<char>>,
    set: Result<(), PasteError>,
)
    requires
        p.burst is None,
        steps.len() > 0,
        held(start, p.calls) is Some,
        is_faithful(start, restored(after_pastes(p, steps), seen, set).0.calls),
    ensures
        held(start, restored(after_pastes(p, steps), seen, set).0.calls) == held(start, p.calls),
        restored(after_pastes(p, steps), seen, set).1 == Ok::<bool, PasteError>(true),
        restored(after_pastes(p, steps), seen, set).0.burst is None,
{
    let q = after_pastes(p, steps);
    let asked = q.calls.push(ClipboardCall::Ask(seen));
    lemma_pushed(start, q.calls, ClipboardCall::Ask(seen));
    if q.burst is Some && q.burst->0.original is Some {
        lemma_pushed(start, asked, ClipboardCall::Give(q.burst->0.original->0, set));
    }
    law_burst_remembers_the_clipboard(p, start, steps);
    lemma_pushed(start, asked, ClipboardCall::Give(q.burst->0.original->0, set));
}

/// An empty clipboard is not restored: the pasted text stays on it.
pub proof fn law_empty_clipboard_is_not_restored(
    p: PasterView,
    start: Option<Seq<char>>,
    steps: Seq<PasteStep>,
    seen: Option<Seq<char>>,
    set: Result<(), PasteError>,
)
    requires
        p.burst is None,
        steps.len() > 0,
        held(start, p.calls) is None,
        is_faithful(start, restored(after_pastes(p, steps), seen, set).0.calls),
    ensures
        held(start, restored(after_pastes(p, steps), seen, set).0.calls) == Some(steps.last().text),
        restored(after_pastes(p, steps), seen, set).1 == Ok::<bool, PasteError>(false),
{
    let q = after_pastes(p, steps);
    let asked = q.calls.push(ClipboardCall::Ask(seen));
    lemma_pushed(start, q.calls, ClipboardCall::Ask(seen));
    if q.burst is Some && q.burst->0.original is Some {
        lemma_pushed(start, asked, ClipboardCall::Give(q.burst->0.original->0, set));
    }
    law_burst_remembers_the_clipboard(p, start, steps);
}

/// What the user copied after a paste wins: nothing is put on a clipboard that
/// no longer holds what was pasted last, and the saved text is dropped.
pub proof fn law_user_copy_wins(
    p: PasterView,
    seen: Option<Seq<char>>,
    set: Result<(), PasteError>,
)
    requires
        p.burst is Some,
        seen != Some(p.burst->0.last_pasted),
    ensures
        restored(p, seen, set).0 == (PasterView {
            burst: None,
            calls: p.calls.push(ClipboardCall::Ask(seen)),
            pastes: p.pastes,
        }),
        restored(p, seen, set).1 == Ok::<bool, PasteError>(false),
{
}

/// A restore leaves nothing to restore: a second one does nothing, and neither
/// does one without a paste.
pub proof fn law_second_restore_does_nothing(
    p: PasterView,
    seen: Option<Seq<char>>,
    set: Result<(), PasteError>,
    seen_again: Option<Seq<char>>,
    set_again: Result<(), PasteError>,
)
    ensures
        restored(p, seen, set).0.burst is None,
        restored(restored(p, seen, set).0, seen_again, set_again) == (
            restored(p, seen, set).0,
            Ok::<bool, PasteError>(false),
        ),
{
}

/// A paste puts exactly the text on the clipboard and presses the keys once, and
/// returns what became of that. The clipboard is looked at before only where no
/// burst goes on, and what it held then is what will be restored.
pub proof fn law_paste_gives_the_text_and_presses_the_keys(
    p: PasterView,
    text: Seq<char>,
    seen: Option<Seq<char>>,
    sent: Result<(), PasteError>,
)
    ensures
        ({
            let (q, r) = pasted(p, text, seen, Ok(()), sent);
            let n = q.calls.len();
            &&& r == sent
            &&& q.pastes == p.pastes.push(sent)
            &&& n > 0 && q.calls[n - 1] == ClipboardCall::Give(text, Ok::<(), PasteError>(()))
            &&& q.burst is Some
            &&& q.burst->0.last_pasted == text
            &&& p.burst is Some ==> n == p.calls.len() + 1 && q.burst->0.original
                == p.burst->0.original
            &&& p.burst is None ==> n == p.calls.len() + 2 && q.calls[n - 2] == ClipboardCall::Ask(
                seen,
            ) && q.burst->0.original == seen
            &&& q.calls.take(p.calls.len() as int) == p.calls
        }),
{
    let q = pasted(p, text, seen, Ok(()), sent).0;
    assert(q.calls.take(p.calls.len() as int) =~= p.calls);
}

/// Where the clipboard does not take the text, no key is pressed, nothing is
/// left to restore, and the reason is told.
pub proof fn law_refused_text_is_not_pasted(
    p: PasterView,
    text: Seq<char>,
    seen: Option<Seq<char>>,
    why: PasteError,
    sent: Result<(), PasteError>,
)
    ensures
        ({
            let (q, r) = pasted(p, text, seen, Err(why), sent);
            &&& r == Err::<(), PasteError>(why)
            &&& q.pastes == p.pastes
            &&& q.burst is None
            &&& q.calls.last() == ClipboardCall::Give(text, Err::<(), PasteError>(why))
        }),
{
}

/// A restore gives the clipboard back what it held before the burst, exactly
/// where it still holds what was pasted last and there is something to give
/// back. It presses no keys, and tells if it gave anything, or why not.
pub proof fn law_restore_gives_back_what_was_there(
    p: PasterView,
    seen: Option<Seq<char>>,
    set: Result<(), PasteError>,
)
    requires
        p.burst is Some,
    ensures
        ({
            let (q, r) = restored(p, seen, set);
            let is_ours = seen is Some && seen->0 == p.burst->0.last_pasted;
            let n = p.calls.len() as int;
            &&& q.burst is None
            &&& q.pastes == p.pastes
            &&& q.calls.len() > n && q.calls[n] == ClipboardCall::Ask(seen)
            &&& is_ours && p.burst->0.original is Some ==> {
                &&& q.calls.len() == n + 2
                &&& q.calls[n + 1] == ClipboardCall::Give(p.burst->0.original->0, set)
                &&& set is Ok ==> r == Ok::<bool, PasteError>(true)
                &&& set is Err ==> r == Err::<bool, PasteError>(set->Err_0)
            }
            &&& !is_ours || p.burst->0.original is None ==> q.calls.len() == n + 1 && r == Ok::<
                bool,
                PasteError,
            >(false)
        }),
{
}

/// What is kept between a paste and the restore is shown as it is, and the
/// restore comes a second and a half later.
pub proof fn law_pending_paste_is_shown(original: Option<String>, last_pasted: String)
    ensures
        burst_of(None) is None,
        burst_of(Some(Pending { original, last_pasted })) == Some(
            Burst { original: text_or_none(original), last_pasted: last_pasted@ },
        ),
        RESTORE_DELAY_MILLIS == 1500,
{
}

/// Every error tells why it came.
pub proof fn law_errors_tell_why(why: String)
    ensures
        message_of(PasteError::Clipboard(why)) == "clipboard access failed: "@ + why@,
        message_of(PasteError::Keystroke(why)) == "failed to synthesize the paste keystroke: "@
            + why@,
{
}

} // verus!

//! The hotkey: press and release.
//!
//! A press starts recording; holding past 0.3 s makes the release stop it
//! (hold-to-record); a quick tap leaves it recording until the next press
//! (toggle). Hold mode is evaluated at release time.

use vstd::prelude::*;

verus! {

/// How long a press has to be held for its release to stop the recording, in
/// nanoseconds.
pub const HOLD_THRESHOLD_NANOS: u64 = 300_000_000;

/// What a press or a release of the hotkey does.
#[derive(Debug, Clone, Copy, PartialEq, Eq, Structural)]
pub enum HotkeyAction {
    /// Start recording, and tell the machine whether that went well.
    Start,
    /// Stop recording and transcribe.
    Stop,
    Nothing,
}

/// The press and release state machine.
#[derive(Debug)]
pub struct HotkeyMachine {
    /// Set when the last press started a recording.
    press_started_recording: bool,
    /// When that was, on a clock that never goes back.
    press_time: Option<u64>,
}

/// What a [`HotkeyMachine`] remembers.
pub struct HotkeyView {
    pub press_started_recording: bool,
    pub press_time: Option<u64>,
}

impl View for HotkeyMachine {
    type V = HotkeyView;

    closed spec fn view(&self) -> HotkeyView {
        HotkeyView {
            press_started_recording: self.press_started_recording,
            press_time: self.press_time,
        }
    }
}

/// A machine that remembers no press.
pub open spec fn at_rest() -> HotkeyView {
    HotkeyView { press_started_recording: false, press_time: None }
}

/// Whether a press at `pressed` was held long enough by `now`.
pub open spec fn is_held(pressed: Option<u64>, now: u64) -> bool {
    pressed is Some && now - pressed->0 >= HOLD_THRESHOLD_NANOS
}

/// What a press does.
pub open spec fn pressed(m: HotkeyView, is_recording: bool) -> (HotkeyView, HotkeyAction) {
    if is_recording {
        (at_rest(), HotkeyAction::Stop)
    } else {
        (m, HotkeyAction::Start)
    }
}

/// What a release does.
pub open spec fn released(m: HotkeyView, hold_to_record: bool, now: u64) -> (
    HotkeyView,
    HotkeyAction,
) {
    if m.press_started_recording && hold_to_record && is_held(m.press_time, now) {
        (at_rest(), HotkeyAction::Stop)
    } else {
        (m, HotkeyAction::Nothing)
    }
}

impl Default for HotkeyMachine {
    fn default() -> (m: HotkeyMachine)
        ensures
            m@ == at_rest(),
    {
        HotkeyMachine { press_started_recording: false, press_time: None }
    }
}

impl HotkeyMachine {
    /// A press. While recording it always stops: the user isn't forced to hold
    /// or double-tap to end a toggle recording.
    pub fn key_down(&mut self, is_recording: bool) -> (action: HotkeyAction)
        ensures
            final(self)@ == pressed(old(self)@, is_recording).0,
            action == pressed(old(self)@, is_recording).1,
    {
        if is_recording {
            self.press_started_recording = false;
            self.press_time = None;
            HotkeyAction::Stop
        } else {
            HotkeyAction::Start
        }
    }

    /// How starting to record went that a press at `now` called for.
    pub fn recording_started(&mut self, started: bool, now: u64)
        ensures
            final(self)@ == (HotkeyView {
                press_started_recording: started,
                press_time: Some(now),
            }),
    {
        self.press_started_recording = started;
        self.press_time = Some(now);
    }

    /// A release.
    pub fn key_up(&mut self, hold_to_record: bool, now: u64) -> (action: HotkeyAction)
        ensures
            final(self)@ == released(old(self)@, hold_to_record, now).0,
            action == released(old(self)@, hold_to_record, now).1,
    {
        let held_long_enough: bool = match self.press_time {
            Some(t) => now >= t && now - t >= HOLD_THRESHOLD_NANOS,
            None => false,
        };
        if self.press_started_recording && hold_to_record && held_long_enough {
            self.press_started_recording = false;
            self.press_time = None;
            HotkeyAction::Stop
        } else {
            HotkeyAction::Nothing
        }
    }
}

/// A machine after a press at `at` that started a recording.
pub open spec fn after_start(at: u64) -> HotkeyView {
    HotkeyView { press_started_recording: true, press_time: Some(at) }
}

/// Holding the hotkey past the threshold makes the release stop the recording
/// that the press started, if the user has asked for that, and leaves the
/// machine at rest.
pub proof fn law_hold_stops_on_release(at: u64, now: u64)
    requires
        now - at >= HOLD_THRESHOLD_NANOS,
    ensures
        released(after_start(at), true, now) == (at_rest(), HotkeyAction::Stop),
        released(after_start(at), false, now) == (after_start(at), HotkeyAction::Nothing),
{
}

/// A quick tap leaves the recording running until the next press, which stops
/// it, however late the release of that press comes.
pub proof fn law_tap_records_until_the_next_press(
    at: u64,
    up: u64,
    hold_to_record: bool,
    last: u64,
)
    requires
        up - at < HOLD_THRESHOLD_NANOS,
    ensures
        released(after_start(at), hold_to_record, up).1 == HotkeyAction::Nothing,
        pressed(released(after_start(at), hold_to_record, up).0, true) == (
            at_rest(),
            HotkeyAction::Stop,
        ),
        released(at_rest(), hold_to_record, last) == (at_rest(), HotkeyAction::Nothing),
{
}

/// A press whose recording could not be started does nothing on release.
pub proof fn law_failed_start_does_nothing(at: u64, hold_to_record: bool, now: u64)
    ensures
        ({
            let m = HotkeyView { press_started_recording: false, press_time: Some(at) };
            released(m, hold_to_record, now) == (m, HotkeyAction::Nothing)
        }),
{
}

/// A press stops a recording whenever there is one, and starts one whenever
/// there is none, whatever was pressed before.
pub proof fn law_press_stops_or_starts(m: HotkeyView)
    ensures
        pressed(m, true).1 == HotkeyAction::Stop,
        !pressed(m, true).0.press_started_recording && pressed(m, true).0.press_time is None,
        pressed(m, false) == (m, HotkeyAction::Start),
{
}

/// A release stops the recording exactly if holding is asked for, the press
/// started it, and that was at least 0.3 s ago; then the machine is at rest.
/// Otherwise it does nothing.
pub proof fn law_release_stops_after_the_threshold(m: HotkeyView, hold_to_record: bool, now: u64)
    ensures
        ({
            let is_held = m.press_started_recording && m.press_time is Some && now
                >= m.press_time->0 + 300_000_000;
            let (then, action) = released(m, hold_to_record, now);
            &&& hold_to_record && is_held ==> action == HotkeyAction::Stop
                && !then.press_started_recording && then.press_time is None
            &&& !hold_to_record || !is_held ==> action == HotkeyAction::Nothing && then == m
        }),
{
}

} // verus!

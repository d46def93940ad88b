use italiansuperwhisper::paste::{
    injected, paste_chord, Clipboard, Key, KeySender, KeyStroke, PasteError, Paster,
};

#[derive(Default)]
struct FakeClipboard {
    text: Option<String>,
}

impl Clipboard for FakeClipboard {
    fn get_text(&mut self) -> Option<String> {
        self.text.clone()
    }
    fn set_text(&mut self, text: &str) -> Result<(), PasteError> {
        self.text = Some(text.to_string());
        Ok(())
    }
}

#[derive(Default)]
struct FakeKeys {
    pastes: usize,
}

impl KeySender for FakeKeys {
    fn send_paste(&mut self) -> Result<(), PasteError> {
        self.pastes += 1;
        Ok(())
    }
}

fn paster_with(initial: Option<&str>) -> Paster<FakeClipboard, FakeKeys> {
    Paster::new(
        FakeClipboard {
            text: initial.map(str::to_string),
        },
        FakeKeys::default(),
    )
}

fn clipboard_text<K: KeySender>(p: &Paster<FakeClipboard, K>) -> Option<String> {
    p.clipboard.text.clone()
}

#[test]
fn paste_and_restore_round_trip() {
    let mut p = paster_with(Some("user data"));
    p.insert_text("dictation").unwrap();
    assert_eq!(clipboard_text(&p).as_deref(), Some("dictation"));
    assert!(p.restore_if_unchanged().unwrap());
    assert_eq!(clipboard_text(&p).as_deref(), Some("user data"));
    assert_eq!(p.keys.pastes, 1);
}

#[test]
fn burst_restores_pre_burst_clipboard_not_first_dictation() {
    let mut p = paster_with(Some("user data"));
    p.insert_text("first").unwrap();
    p.insert_text("second").unwrap(); // within the restore window
    assert!(p.restore_if_unchanged().unwrap());
    assert_eq!(clipboard_text(&p).as_deref(), Some("user data"));
}

#[test]
fn user_copy_after_paste_wins_over_restore() {
    let mut p = paster_with(Some("user data"));
    p.insert_text("dictation").unwrap();
    // The user copies something new before the restore fires.
    p.clipboard.text = Some("fresh copy".into());
    assert!(!p.restore_if_unchanged().unwrap());
    assert_eq!(clipboard_text(&p).as_deref(), Some("fresh copy"));
}

#[test]
fn empty_original_clipboard_is_not_restored() {
    let mut p = paster_with(None);
    p.insert_text("dictation").unwrap();
    assert!(!p.restore_if_unchanged().unwrap());
    assert_eq!(clipboard_text(&p).as_deref(), Some("dictation"));
}

#[test]
fn restore_without_paste_is_a_no_op() {
    let mut p = paster_with(Some("user data"));
    assert!(!p.restore_if_unchanged().unwrap());
    assert_eq!(clipboard_text(&p).as_deref(), Some("user data"));
}

#[test]
fn second_restore_is_a_no_op() {
    let mut p = paster_with(Some("user data"));
    p.insert_text("dictation").unwrap();
    assert!(p.restore_if_unchanged().unwrap());
    assert!(!p.restore_if_unchanged().unwrap());
    assert_eq!(clipboard_text(&p).as_deref(), Some("user data"));
}

// When the clipboard or the keyboard fails

struct BrokenClipboard;

impl Clipboard for BrokenClipboard {
    fn get_text(&mut self) -> Option<String> {
        Some("user data".to_string())
    }
    fn set_text(&mut self, _text: &str) -> Result<(), PasteError> {
        Err(PasteError::Clipboard("busy".to_string()))
    }
}

struct BrokenKeys;

impl KeySender for BrokenKeys {
    fn send_paste(&mut self) -> Result<(), PasteError> {
        Err(PasteError::Unsupported)
    }
}

#[test]
fn a_refused_text_is_not_pasted_and_leaves_nothing_to_restore() {
    let mut p = Paster::new(BrokenClipboard, FakeKeys::default());
    assert_eq!(
        p.insert_text("dictation").unwrap_err().message(),
        "clipboard access failed: busy"
    );
    assert_eq!(p.keys.pastes, 0);
    assert!(p.pending.is_none());
    assert!(!p.restore_if_unchanged().unwrap());
}

#[test]
fn a_failed_keystroke_still_leaves_the_clipboard_to_restore() {
    let mut p = Paster::new(
        FakeClipboard {
            text: Some("user data".to_string()),
        },
        BrokenKeys,
    );
    assert_eq!(
        p.insert_text("dictation").unwrap_err().message(),
        "paste simulation is not supported on this platform yet"
    );
    assert!(p.restore_if_unchanged().unwrap());
    assert_eq!(clipboard_text(&p).as_deref(), Some("user data"));
}

#[test]
fn the_chord_releases_what_it_presses() {
    let strokes = paste_chord();
    assert_eq!(strokes.len(), 4);
    assert_eq!(strokes[0], KeyStroke { key: Key::Modifier, up: false });
    assert_eq!(strokes[3], KeyStroke { key: Key::Modifier, up: true });
    assert!(strokes[1..3].iter().all(|s| s.key == Key::V));
    assert!(injected(4, 4).is_ok());
    assert_eq!(
        injected(2, 4).unwrap_err().message(),
        "failed to synthesize the paste keystroke: SendInput injected 2/4 events"
    );
}

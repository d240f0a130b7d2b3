//! What the application remembers, and what the keyboard does to it.

use vstd::prelude::*;

verus! {

/// The state that the window, the keyboard listener and the worker share.
pub struct AppState {
    /// The record key is held down.
    pub is_recording: bool,
    /// The status line.
    pub status: String,
    /// Recognised texts and error messages, oldest first.
    pub history: Vec<String>,
    /// The key of the transcription service.
    pub api_key: String,
    /// The filler words, separated by commas.
    pub filler_words: String,
}

/// The contents of an `AppState`.
#[verifier::ext_equal]
pub struct AppModel {
    pub is_recording: bool,
    pub status: Seq<char>,
    pub history: Seq<Seq<char>>,
    pub api_key: Seq<char>,
    pub filler_words: Seq<char>,
}

impl View for AppState {
    type V = AppModel;

    open spec fn view(&self) -> AppModel {
        AppModel {
            is_recording: self.is_recording,
            status: self.status@,
            history: crate::text::views(self.history@),
            api_key: self.api_key@,
            filler_words: self.filler_words@,
        }
    }
}

/// The status line before anything was recorded.
pub open spec fn initial_status() -> Seq<char> {
    "Ожидание (Зажмите F9)"@
}

/// The status line while the record key is held down.
pub open spec fn recording_status() -> Seq<char> {
    "🔴 Запись..."@
}

/// The status line once the record key was let go.
pub open spec fn processing_status() -> Seq<char> {
    "⚙ Обработка..."@
}

/// The status line once a recording was dealt with.
pub open spec fn waiting_status() -> Seq<char> {
    "🟢 Ожидание (Зажмите F9)"@
}

/// The filler words where the user has set none.
pub open spec fn default_filler_words() -> Seq<char> {
    "эм,ну,как бы,типа,короче"@
}

/// The state that the application begins with.
pub open spec fn initial_model(
    api_key: Option<Seq<char>>,
    filler_words: Option<Seq<char>>,
) -> AppModel {
    AppModel {
        is_recording: false,
        status: initial_status(),
        history: Seq::empty(),
        api_key: match api_key {
            Some(key) => key,
            None => Seq::empty(),
        },
        filler_words: match filler_words {
            Some(words) => words,
            None => default_filler_words(),
        },
    }
}

/// The contents of an optional string.
pub open spec fn option_view(s: Option<String>) -> Option<Seq<char>> {
    match s {
        Some(s) => Some(s@),
        None => None,
    }
}

/// A key, as far as the application tells keys apart.
#[derive(Clone, Copy, PartialEq, Eq, Structural, Debug)]
pub enum Key {
    F9,
    F12,
    Other,
}

/// What the keyboard listener hears.
#[derive(Clone, Copy, PartialEq, Eq, Structural, Debug)]
pub enum KeyEvent {
    Press(Key),
    Release(Key),
    Other,
}

/// What is to be done after a key event.
#[derive(Clone, Copy, PartialEq, Eq, Structural, Debug)]
pub enum KeyEffect {
    Nothing,
    Repaint,
    Exit,
}

/// The state after a key event, and what is to be done: pressing F9 starts a
/// recording, letting it go ends one, pressing F12 leaves the application.
pub open spec fn after_key(m: AppModel, event: KeyEvent) -> (AppModel, KeyEffect) {
    match event {
        KeyEvent::Press(Key::F9) => if m.is_recording {
            (m, KeyEffect::Nothing)
        } else {
            (
                AppModel { is_recording: true, status: recording_status(), ..m },
                KeyEffect::Repaint,
            )
        },
        KeyEvent::Release(Key::F9) => if m.is_recording {
            (
                AppModel { is_recording: false, status: processing_status(), ..m },
                KeyEffect::Repaint,
            )
        } else {
            (m, KeyEffect::Nothing)
        },
        KeyEvent::Press(Key::F12) => (m, KeyEffect::Exit),
        _ => (m, KeyEffect::Nothing),
    }
}

impl AppState {
    /// The state that the application begins with, given the settings that were
    /// found.
    pub fn new(api_key: Option<String>, filler_words: Option<String>) -> (r: AppState)
        ensures
            r@ == initial_model(option_view(api_key), option_view(filler_words)),
            api_key matches Some(key) ==> r.api_key@ == key@,
            api_key is None ==> r.api_key@.len() == 0,
            filler_words matches Some(words) ==> r.filler_words@ == words@,
            filler_words is None ==> r.filler_words@ == "эм,ну,как бы,типа,короче"@,
            r.status@ == "Ожидание (Зажмите F9)"@,
            r.history@.len() == 0,
            !r.is_recording,
    {
        let key: String = match api_key {
            Some(key) => key,
            None => String::new(),
        };
        let words: String = match filler_words {
            Some(words) => words,
            None => "эм,ну,как бы,типа,короче".to_owned(),
        };
        let r: AppState = AppState {
            is_recording: false,
            status: "Ожидание (Зажмите F9)".to_owned(),
            history: Vec::new(),
            api_key: key,
            filler_words: words,
        };
        assert(r@ =~= initial_model(option_view(api_key), option_view(filler_words)));
        r
    }

    /// Takes in a key event and says what is to be done.
    pub fn handle_key(&mut self, event: KeyEvent) -> (r: KeyEffect)
        ensures
            (final(self)@, r) == after_key(old(self)@, event),
            final(self).history == old(self).history,
            final(self).api_key == old(self).api_key,
            final(self).filler_words == old(self).filler_words,
            final(self).is_recording == match event {
                KeyEvent::Press(Key::F9) => true,
                KeyEvent::Release(Key::F9) => false,
                _ => old(self).is_recording,
            },
            r == KeyEffect::Exit <==> event == KeyEvent::Press(Key::F12),
            r == KeyEffect::Repaint <==> final(self).is_recording != old(self).is_recording,
            final(self).is_recording == old(self).is_recording ==> final(self).status
                == old(self).status,
            final(self).is_recording && !old(self).is_recording ==> final(self).status@
                == "🔴 Запись..."@,
            !final(self).is_recording && old(self).is_recording ==> final(self).status@
                == "⚙ Обработка..."@,
    {
        match event {
            KeyEvent::Press(Key::F9) => {
                if !self.is_recording {
                    self.is_recording = true;
                    self.status = "🔴 Запись...".to_owned();
                    KeyEffect::Repaint
                } else {
                    KeyEffect::Nothing
                }
            },
            KeyEvent::Release(Key::F9) => {
                if self.is_recording {
                    self.is_recording = false;
                    self.status = "⚙ Обработка...".to_owned();
                    KeyEffect::Repaint
                } else {
                    KeyEffect::Nothing
                }
            },
            KeyEvent::Press(Key::F12) => KeyEffect::Exit,
            _ => KeyEffect::Nothing,
        }
    }
}

/// Each setting is taken over on its own, whatever the other one is: what was
/// found is kept as it is, a key that was not found is empty, and filler words
/// that were not found are the usual ones. Nothing else depends on them.
pub proof fn law_settings_are_taken_over(
    key: Seq<char>,
    words: Seq<char>,
    api_key: Option<Seq<char>>,
    filler_words: Option<Seq<char>>,
)
    ensures
        initial_model(Some(key), filler_words).api_key == key,
        initial_model(None, filler_words).api_key.len() == 0,
        initial_model(api_key, Some(words)).filler_words == words,
        initial_model(api_key, None).filler_words == "эм,ну,как бы,типа,короче"@,
        !initial_model(api_key, filler_words).is_recording,
        initial_model(api_key, filler_words).history.len() == 0,
        initial_model(api_key, filler_words).status == "Ожидание (Зажмите F9)"@,
{
}

/// A key event changes the status exactly where it starts or ends a recording,
/// and just then the window is to be drawn anew; only pressing F12 leaves the
/// application.
pub proof fn law_status_follows_the_record_key(m: AppModel, event: KeyEvent)
    ensures
        ({
            let (after, effect) = after_key(m, event);
            &&& after.is_recording == m.is_recording ==> after == m
            &&& after.is_recording && !m.is_recording ==> after.status == "🔴 Запись..."@
            &&& !after.is_recording && m.is_recording ==> after.status == "⚙ Обработка..."@
            &&& effect == KeyEffect::Repaint <==> after.is_recording != m.is_recording
            &&& effect == KeyEffect::Exit <==> event == KeyEvent::Press(Key::F12)
        }),
{
}

/// Key events leave the history and the settings as they are.
pub proof fn law_keys_keep_history_and_settings(m: AppModel, event: KeyEvent)
    ensures
        after_key(m, event).0.history == m.history,
        after_key(m, event).0.api_key == m.api_key,
        after_key(m, event).0.filler_words == m.filler_words,
{
}

/// A key that is held down and repeats does nothing more than the first time:
/// the same event twice leaves the state that it left the first time.
pub proof fn law_repeated_key(m: AppModel, event: KeyEvent)
    ensures
        after_key(after_key(m, event).0, event).0 == after_key(m, event).0,
        event is Press && event->Press_0 == Key::F9 ==> after_key(after_key(m, event).0, event).1
            == KeyEffect::Nothing,
{
}

/// The record key is held down after it was pressed and not after it was let
/// go, whatever came before; no other key event starts or ends a recording.
pub proof fn law_record_key(m: AppModel, event: KeyEvent)
    ensures
        after_key(m, event).0.is_recording == match event {
            KeyEvent::Press(Key::F9) => true,
            KeyEvent::Release(Key::F9) => false,
            _ => m.is_recording,
        },
{
}

/// Pressing and letting go of the record key ends in processing.
pub proof fn law_press_and_release(m: AppModel)
    ensures
        ({
            let pressed = after_key(m, KeyEvent::Press(Key::F9)).0;
            let released = after_key(pressed, KeyEvent::Release(Key::F9)).0;
            released == AppModel { is_recording: false, status: processing_status(), ..m }
        }),
{
}

} // verus!

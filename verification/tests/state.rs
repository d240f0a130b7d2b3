use voiceai::audio::capture;
use voiceai::indicator::{Indicator, Light};
use voiceai::state::{AppState, Key, KeyEffect, KeyEvent};

fn fresh() -> AppState {
    AppState::new(Some("key".to_string()), Some("эм".to_string()))
}

#[test]
fn initial_state_without_settings() {
    let state = AppState::new(None, None);
    assert!(!state.is_recording);
    assert_eq!(state.status, "Ожидание (Зажмите F9)");
    assert!(state.history.is_empty());
    assert_eq!(state.api_key, "");
    assert_eq!(state.filler_words, "эм,ну,как бы,типа,короче");
}

#[test]
fn initial_state_with_settings() {
    let state = fresh();
    assert_eq!(state.api_key, "key");
    assert_eq!(state.filler_words, "эм");
}

#[test]
fn record_key_starts_and_ends_a_recording() {
    let mut state = fresh();
    assert_eq!(state.handle_key(KeyEvent::Press(Key::F9)), KeyEffect::Repaint);
    assert!(state.is_recording);
    assert_eq!(state.status, "🔴 Запись...");
    assert_eq!(state.handle_key(KeyEvent::Press(Key::F9)), KeyEffect::Nothing);
    assert!(state.is_recording);
    assert_eq!(state.handle_key(KeyEvent::Release(Key::F9)), KeyEffect::Repaint);
    assert!(!state.is_recording);
    assert_eq!(state.status, "⚙ Обработка...");
    assert_eq!(state.handle_key(KeyEvent::Release(Key::F9)), KeyEffect::Nothing);
    assert_eq!(state.status, "⚙ Обработка...");
    assert_eq!(state.api_key, "key");
    assert_eq!(state.filler_words, "эм");
    assert!(state.history.is_empty());
}

#[test]
fn other_keys_do_nothing_and_f12_leaves() {
    let mut state = fresh();
    assert_eq!(state.handle_key(KeyEvent::Press(Key::F12)), KeyEffect::Exit);
    assert_eq!(state.handle_key(KeyEvent::Release(Key::F12)), KeyEffect::Nothing);
    assert_eq!(state.handle_key(KeyEvent::Press(Key::Other)), KeyEffect::Nothing);
    assert_eq!(state.handle_key(KeyEvent::Release(Key::Other)), KeyEffect::Nothing);
    assert_eq!(state.handle_key(KeyEvent::Other), KeyEffect::Nothing);
    assert!(!state.is_recording);
    assert_eq!(state.status, "Ожидание (Зажмите F9)");
}

#[test]
fn samples_are_captured_while_recording() {
    let mut state = fresh();
    let mut buffer = vec![0.5f32];
    capture(state.is_recording, &mut buffer, &[1.0, 2.0]);
    assert_eq!(buffer, vec![0.5]);
    state.handle_key(KeyEvent::Press(Key::F9));
    capture(state.is_recording, &mut buffer, &[1.0, 2.0]);
    capture(state.is_recording, &mut buffer, &[]);
    assert_eq!(buffer, vec![0.5, 1.0, 2.0]);
}

#[test]
fn statuses_are_shown() {
    let mut state = fresh();
    assert_eq!(Indicator::of_status(&state.status), Indicator::Ready);
    state.handle_key(KeyEvent::Press(Key::F9));
    assert_eq!(Indicator::of_status(&state.status), Indicator::Recording);
    state.handle_key(KeyEvent::Release(Key::F9));
    assert_eq!(Indicator::of_status(&state.status), Indicator::Processing);
    assert_eq!(Indicator::of_status("🟢 Ожидание (Зажмите F9)"), Indicator::Ready);
    assert_eq!(Indicator::of_status("Обработка, Запись"), Indicator::Recording);
}

#[test]
fn indicators_in_the_widget() {
    assert_eq!(Indicator::Recording.icon(), "🔴");
    assert_eq!(Indicator::Recording.label(), "Запись...");
    assert_eq!(Indicator::Recording.light(), Light::Red);
    assert!(Indicator::Recording.is_strong());
    assert_eq!(Indicator::Processing.icon(), "⚙️");
    assert_eq!(Indicator::Processing.label(), "Обработка...");
    assert_eq!(Indicator::Processing.light(), Light::Yellow);
    assert!(Indicator::Processing.is_strong());
    assert_eq!(Indicator::Ready.icon(), "🟢");
    assert_eq!(Indicator::Ready.label(), "Готов (F9)");
    assert_eq!(Indicator::Ready.light(), Light::Green);
    assert!(!Indicator::Ready.is_strong());
}

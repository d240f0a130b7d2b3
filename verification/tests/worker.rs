use voiceai::state::{AppState, Key, KeyEvent};
use voiceai::worker::{error_entry, WorkerAction, WorkerEvent};

const WAITING: &str = "🟢 Ожидание (Зажмите F9)";

fn recording() -> AppState {
    let mut state = AppState::new(Some("key".to_string()), Some("эм, ну".to_string()));
    state.handle_key(KeyEvent::Press(Key::F9));
    state
}

#[test]
fn tick_records_while_the_key_is_held() {
    let mut state = recording();
    assert!(matches!(state.step(WorkerEvent::Tick), WorkerAction::Record));
    state.handle_key(KeyEvent::Release(Key::F9));
    assert!(matches!(state.step(WorkerEvent::Tick), WorkerAction::Wait));
    assert_eq!(state.status, "⚙ Обработка...");
}

#[test]
fn recording_becomes_a_job() {
    let mut state = recording();
    state.handle_key(KeyEvent::Release(Key::F9));
    match state.step(WorkerEvent::Recorded(vec![1, 2, 3])) {
        WorkerAction::Transcribe(job) => {
            assert_eq!(job.audio, vec![1, 2, 3]);
            assert_eq!(job.api_key, "key");
            assert_eq!(job.filler_words, vec!["эм", "ну"]);
        }
        _ => panic!("no job"),
    }
    assert_eq!(state.status, "⚙ Обработка...");
}

#[test]
fn nothing_is_transcribed_without_sound_or_key() {
    let mut state = recording();
    assert!(matches!(state.step(WorkerEvent::Recorded(vec![])), WorkerAction::Repaint));
    assert_eq!(state.status, WAITING);
    let mut keyless = AppState::new(None, None);
    assert!(matches!(keyless.step(WorkerEvent::Recorded(vec![1])), WorkerAction::Repaint));
    assert_eq!(keyless.status, WAITING);
    assert!(keyless.history.is_empty());
}

#[test]
fn text_is_pasted_and_kept() {
    let mut state = recording();
    let text = match state.step(WorkerEvent::Transcribed(Ok("Привет.".to_string()))) {
        WorkerAction::Paste(text) => text,
        _ => panic!("nothing to paste"),
    };
    assert_eq!(text, "Привет.");
    assert!(state.history.is_empty());
    assert!(matches!(state.step(WorkerEvent::Pasted(text)), WorkerAction::Repaint));
    assert_eq!(state.history, vec!["Привет."]);
    assert_eq!(state.status, WAITING);
    assert!(state.is_recording);
    assert_eq!(state.api_key, "key");
    assert_eq!(state.filler_words, "эм, ну");
}

#[test]
fn empty_text_leaves_the_history() {
    let mut state = recording();
    assert!(matches!(
        state.step(WorkerEvent::Transcribed(Ok(String::new()))),
        WorkerAction::Repaint
    ));
    assert!(state.history.is_empty());
    assert_eq!(state.status, WAITING);
}

#[test]
fn errors_go_to_the_history() {
    let mut state = recording();
    assert!(matches!(
        state.step(WorkerEvent::Transcribed(Err("нет сети".to_string()))),
        WorkerAction::Repaint
    ));
    assert_eq!(state.history, vec!["❌ Ошибка: нет сети"]);
    assert_eq!(error_entry(""), "❌ Ошибка: ");
}

#[test]
fn a_whole_recording_adds_at_most_one_line() {
    for (audio, outcome, line) in [
        (vec![], Ok("Да.".to_string()), None),
        (vec![1], Ok(String::new()), None),
        (vec![1], Ok("Да.".to_string()), Some("Да.")),
        (vec![1], Err(String::new()), Some("❌ Ошибка: ")),
    ] {
        let mut state = recording();
        state.history.push("Раньше.".to_string());
        if let WorkerAction::Transcribe(_) = state.step(WorkerEvent::Recorded(audio)) {
            state.handle_key(KeyEvent::Release(Key::F9));
            if let WorkerAction::Paste(text) = state.step(WorkerEvent::Transcribed(outcome)) {
                state.api_key = "other".to_string();
                state.step(WorkerEvent::Pasted(text));
            }
        }
        let mut expected = vec!["Раньше."];
        expected.extend(line);
        assert_eq!(state.history, expected);
    }
}

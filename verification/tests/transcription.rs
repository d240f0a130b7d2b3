use voiceai::state::AppState;
use voiceai::transcription::{interpret_reply, process_reply, transcription_request, ReplyError};
use voiceai::worker::{WorkerAction, WorkerEvent};

fn words() -> Vec<String> {
    vec!["эм".to_string(), "ну".to_string()]
}

#[test]
fn request_holds_the_recording_and_the_key() {
    let request = transcription_request(vec![1, 2], "abc");
    assert_eq!(request.url, "https://api.groq.com/openai/v1/audio/transcriptions");
    assert_eq!(request.authorization, "Bearer abc");
    assert_eq!(
        request.fields,
        vec![
            ("model".to_string(), "whisper-large-v3-turbo".to_string()),
            ("language".to_string(), "ru".to_string()),
        ]
    );
    assert_eq!(request.file_field, "file");
    assert_eq!(request.file_name, "speech.flac");
    assert_eq!(request.mime, "audio/flac");
    assert_eq!(request.audio, vec![1, 2]);
}

#[test]
fn text_of_a_reply_is_cleaned() {
    let body = r#"{"x_id": 1, "text": " привет эм как дела"}"#;
    assert_eq!(process_reply(body.as_bytes(), &words()).unwrap(), "Привет как дела.");
}

#[test]
fn replies_without_text_give_nothing() {
    for body in [
        "{}",
        "[]",
        "null",
        "\"text\"",
        "{\"text\": null}",
        "{\"text\": 5}",
        "{\"text\": \"\"}",
        "{\"text\": \" \\t \"}",
        "{\"error\": {\"message\": \"invalid key\"}}",
    ] {
        assert_eq!(process_reply(body.as_bytes(), &words()).unwrap(), "");
    }
}

#[test]
fn malformed_reply_is_an_error() {
    match process_reply(b"{\"text\": ", &words()) {
        Err(ReplyError::Malformed(message)) => {
            assert_eq!(message, "EOF while parsing a value at line 1 column 9")
        }
        _ => panic!("not an error"),
    }
}

#[test]
fn malformed_reply_is_shown_in_the_history() {
    for body in ["", "{\"text\": ", "<html>"] {
        let error = process_reply(body.as_bytes(), &words()).unwrap_err();
        let text = error.shown_text().unwrap();
        assert_eq!(text, "error decoding response body");
        let mut state = AppState::new(Some("key".to_string()), None);
        assert!(matches!(
            state.step(WorkerEvent::Transcribed(Err(text))),
            WorkerAction::Repaint
        ));
        assert_eq!(state.history, vec!["❌ Ошибка: error decoding response body"]);
    }
    assert_eq!(ReplyError::Uncleanable.shown_text(), None);
}

#[test]
fn uncleanable_reply_is_an_error() {
    let body = r#"{"text": "a эм b эм c"}"#;
    assert!(matches!(
        process_reply(body.as_bytes(), &words()),
        Err(ReplyError::Uncleanable)
    ));
}

#[test]
fn what_was_read_decides() {
    assert_eq!(interpret_reply(Ok(None), &words()).unwrap(), "");
    assert_eq!(interpret_reply(Ok(Some("\n".to_string())), &words()).unwrap(), "");
    assert_eq!(interpret_reply(Ok(Some("да".to_string())), &words()).unwrap(), "Да.");
    assert!(matches!(
        interpret_reply(Err("bad".to_string()), &words()),
        Err(ReplyError::Malformed(m)) if m == "bad"
    ));
}

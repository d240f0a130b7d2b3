use voiceai::paste::{paste_steps, PasteKey, PasteStep};

fn show(step: &PasteStep) -> String {
    match step {
        PasteStep::SetClipboard(text) => format!("set {}", text),
        PasteStep::Sleep(millis) => format!("sleep {}", millis),
        PasteStep::Press(PasteKey::ControlLeft) => "press ctrl".to_string(),
        PasteStep::Press(PasteKey::V) => "press v".to_string(),
        PasteStep::Release(PasteKey::ControlLeft) => "release ctrl".to_string(),
        PasteStep::Release(PasteKey::V) => "release v".to_string(),
    }
}

#[test]
fn text_is_pasted_with_the_shortcut() {
    let steps: Vec<String> = paste_steps("Привет.").iter().map(show).collect();
    assert_eq!(
        steps,
        vec![
            "set Привет.",
            "sleep 150",
            "press ctrl",
            "press v",
            "sleep 20",
            "release v",
            "release ctrl"
        ]
    );
}

#[test]
fn empty_text_is_not_pasted() {
    assert!(paste_steps("").is_empty());
}

use voiceai::search::contains;
use voiceai::text::{chars_of, collapse_whitespace, is_blank, is_whitespace, string_of};

#[test]
fn whitespace_agrees_with_the_standard_library() {
    for code in 0..=0x10ffffu32 {
        if let Some(c) = char::from_u32(code) {
            assert_eq!(is_whitespace(c), c.is_whitespace());
        }
    }
}

#[test]
fn whitespace_is_collapsed() {
    let text = "\u{2003} один \r\n два\u{85}три ";
    assert_eq!(collapse_whitespace(text), "один два три");
    assert_eq!(collapse_whitespace(text), text.split_whitespace().collect::<Vec<_>>().join(" "));
    assert_eq!(collapse_whitespace(&collapse_whitespace(text)), "один два три");
    assert_eq!(collapse_whitespace(" \t"), "");
}

#[test]
fn parts_are_found() {
    assert!(contains("🔴 Запись...", "Запись"));
    assert!(!contains("Зажмите", "Запись"));
    assert!(contains("", ""));
    assert!(contains("abc", ""));
    assert!(!contains("ab", "abc"));
    assert!(contains("aab", "ab"));
}

#[test]
fn blank_texts() {
    assert!(is_blank(""));
    assert!(is_blank(" \t\u{3000}"));
    assert!(!is_blank(" . "));
}

#[test]
fn characters_and_back() {
    let chars = chars_of("аb🔴");
    assert_eq!(chars, vec!['а', 'b', '🔴']);
    assert_eq!(string_of(&chars, 0, 3), "аb🔴");
    assert_eq!(string_of(&chars, 1, 2), "b");
    assert_eq!(string_of(&chars, 2, 2), "");
}

use voiceai::clean_text_locally;
use voiceai::cleaning::{
    make_sentence, punctuate, remove_word, remove_words, replace_first, try_clean_text,
};
use voiceai::search::{cut_span, find};

fn words(list: &[&str]) -> Vec<String> {
    list.iter().map(|w| w.to_string()).collect()
}

#[test]
fn removes_single_filler_word() {
    let filler_words = vec!["эм".to_string()];
    let result = clean_text_locally("привет эм как дела", &filler_words);
    assert_eq!(result, "Привет как дела.");
}

#[test]
fn removes_multiple_filler_words() {
    let filler_words = vec!["эм".to_string(), "ну".to_string()];
    let result = clean_text_locally("привет эм как ну дела", &filler_words);
    assert_eq!(result, "Привет как дела.");
}

#[test]
fn leaves_text_without_filler_words_unchanged_but_punctuated() {
    let filler_words = vec!["эм".to_string()];
    let result = clean_text_locally("привет как дела", &filler_words);
    assert_eq!(result, "Привет как дела.");
}

#[test]
fn does_not_duplicate_punctuation_if_already_present() {
    let filler_words: Vec<String> = vec![];
    let result = clean_text_locally("привет!", &filler_words);
    assert_eq!(result, "Привет!");
}

#[test]
fn empty_input_stays_empty() {
    let filler_words = vec!["эм".to_string()];
    let result = clean_text_locally("", &filler_words);
    assert_eq!(result, "");
}

#[test]
fn letter_case_of_a_filler_word_does_not_matter() {
    assert_eq!(clean_text_locally("привет ЭМ как дела", &words(&["эм"])), "Привет как дела.");
    assert_eq!(clean_text_locally("привет эм как дела", &words(&["ЭМ"])), "Привет как дела.");
}

#[test]
fn filler_of_several_words_is_removed() {
    assert_eq!(clean_text_locally("это как бы работает", &words(&["как бы"])), "Это работает.");
}

#[test]
fn fillers_at_the_ends_are_kept() {
    assert_eq!(clean_text_locally("эм привет ну", &words(&["эм", "ну"])), "Эм привет ну.");
}

#[test]
fn fillers_inside_words_are_kept() {
    assert_eq!(clean_text_locally("большая эмблема тут", &words(&["эм"])), "Большая эмблема тут.");
}

#[test]
fn adjacent_repetition_is_removed() {
    assert_eq!(clean_text_locally("a um um b", &words(&["um"])), "A b.");
}

#[test]
fn later_repetition_cuts_at_the_first_offset_again() {
    assert_eq!(clean_text_locally("a um b um c", &words(&["um"])), "A m c.");
}

#[test]
fn cut_inside_a_character_is_refused() {
    assert_eq!(try_clean_text("a эм b эм c", &words(&["эм"])), None);
    assert_eq!(remove_word("a эм b эм c", "эм"), None);
    assert_eq!(remove_words("a эм b эм c", &words(&["x", "эм"])), None);
}

#[test]
fn cut_past_the_end_is_refused() {
    // The lowercase of 'İ' is longer than the letter itself.
    assert_eq!(try_clean_text("İİİİ um ", &words(&["um"])), None);
}

#[test]
fn try_clean_gives_the_cleaned_text() {
    assert_eq!(
        try_clean_text("привет эм как дела", &words(&["эм"])),
        Some("Привет как дела.".to_string())
    );
    assert_eq!(try_clean_text("", &words(&["эм", ""])), Some(String::new()));
}

#[test]
fn empty_filler_word_takes_double_spaces() {
    assert_eq!(remove_word("a  b", ""), Some("a b".to_string()));
    assert_eq!(remove_word("a   b", ""), Some("a b".to_string()));
    assert_eq!(remove_word("a b", ""), Some("a b".to_string()));
}

#[test]
fn single_filler_leaves_one_space() {
    assert_eq!(remove_word("one UM two", "um"), Some("one two".to_string()));
}

#[test]
fn removed_word_is_gone_and_text_is_not_longer() {
    for text in ["a um b", "a um um um b", "um", " um ", "a um b um c"] {
        let rest = remove_word(text, "um").unwrap();
        assert!(!rest.to_lowercase().contains(" um "));
        assert!(rest.len() <= text.len());
    }
}

#[test]
fn sentence_of_words() {
    assert_eq!(make_sentence("  привет \t как\nдела  "), "Привет как дела.");
    assert_eq!(make_sentence("что это?"), "Что это?");
    assert_eq!(make_sentence(" \u{a0}\u{3000} "), "");
    assert_eq!(make_sentence("ßa"), "SSa.");
}

#[test]
fn clean_sentence_stays() {
    assert_eq!(clean_text_locally("Всё уже готово.", &words(&["эм", "ну"])), "Всё уже готово.");
}

#[test]
fn punctuation_of_each_kind() {
    assert_eq!(punctuate("a"), "a.");
    assert_eq!(punctuate("a."), "a.");
    assert_eq!(punctuate("a!"), "a!");
    assert_eq!(punctuate("a?"), "a?");
    assert_eq!(punctuate("a,"), "a,.");
    assert_eq!(punctuate(""), "");
}

#[test]
fn first_character_is_replaced() {
    assert_eq!(replace_first("привет", "П"), "Привет");
    assert_eq!(replace_first("ßx", "SS"), "SSx");
    assert_eq!(replace_first("", "X"), "");
}

#[test]
fn find_agrees_with_the_standard_library() {
    for (text, pattern) in [
        ("привет эм как", " эм "),
        ("aaab", "aab"),
        ("abc", ""),
        ("", ""),
        ("", "a"),
        ("abc", "abcd"),
        ("abc", "c"),
        ("ababab", "abb"),
    ] {
        assert_eq!(find(text, pattern), text.find(pattern));
    }
}

#[test]
fn spans_are_cut_between_characters_only() {
    assert_eq!(cut_span("aэb", 1, 3), Some("a b".to_string()));
    assert_eq!(cut_span("aэb", 1, 2), None);
    assert_eq!(cut_span("aэb", 2, 3), None);
    assert_eq!(cut_span("aэb", 3, 1), None);
    assert_eq!(cut_span("aэb", 1, 5), None);
    assert_eq!(cut_span("aэb", 0, 4), Some(" ".to_string()));
}

fn plain_chars() -> Vec<char> {
    let mut chars: Vec<char> = ('\0'..='\u{7f}').collect();
    chars.extend('А'..='я');
    chars.extend(['Ё', 'ё']);
    chars
}

fn small(c: char) -> char {
    match c {
        'A'..='Z' | 'А'..='Я' => char::from_u32(c as u32 + 32).unwrap(),
        'Ё' => 'ё',
        _ => c,
    }
}

fn capital(c: char) -> char {
    match c {
        'a'..='z' | 'а'..='я' => char::from_u32(c as u32 - 32).unwrap(),
        'ё' => 'Ё',
        _ => c,
    }
}

#[test]
fn plain_characters_have_one_small_and_one_capital_letter() {
    let chars = plain_chars();
    let text: String = chars.iter().collect();
    assert_eq!(text.to_lowercase(), chars.iter().map(|&c| small(c)).collect::<String>());
    for &c in &chars {
        assert_eq!(c.to_string().to_lowercase(), small(c).to_string());
        assert_eq!(c.to_uppercase().to_string(), capital(c).to_string());
        assert_eq!(capital(c).to_uppercase().to_string(), capital(c).to_string());
    }
}

#[test]
fn every_plain_letter_is_found_in_either_letter_case() {
    for c in plain_chars().into_iter().filter(|c| !c.is_whitespace()) {
        for found in [small(c), capital(c)] {
            let text = format!("Это {} Yes", found);
            assert_eq!(remove_word(&text, &c.to_string()), Some("Это Yes".to_string()));
        }
    }
}

#[test]
fn filler_of_any_letter_case_is_cleaned_away() {
    for (before, found, after, word) in [
        ("привет", "Эм", "как дела", "эМ"),
        ("", "КОРОЧЕ", "", "короче"),
        ("Всё", "ёлКи", "ЁЛКИ-палки", "Ёлки"),
        ("so Um-like", "UM", "then umm", "um"),
    ] {
        let text = format!("{} {} {}", before, found, after);
        let rest = format!("{} {}", before, after);
        assert_eq!(
            try_clean_text(&text, &words(&[word])),
            Some(clean_text_locally(&rest, &[]))
        );
    }
}

#[test]
fn cleaned_text_stays_when_cleaned_again() {
    for text in ["привет эм как  дела", " \t", "эм", "?", "ßa b", "ŉ x", "ǆ", "ﬃ um  x", "ёж !"] {
        let cleaned = clean_text_locally(text, &words(&["эм", "um"]));
        assert_eq!(clean_text_locally(&cleaned, &[]), cleaned);
        assert_eq!(cleaned.split_whitespace().collect::<Vec<_>>().join(" "), cleaned);
    }
}

#[test]
fn uppercase_is_settled_for_every_character() {
    for c in '\0'..=char::MAX {
        if !c.is_whitespace() {
            let upper: Vec<char> = c.to_uppercase().collect();
            assert!(!upper.iter().any(|u| u.is_whitespace()));
            assert_eq!(upper[0].to_uppercase().collect::<Vec<_>>(), vec![upper[0]]);
        }
    }
}

#[test]
fn ascii_fillers_can_always_be_removed() {
    for text in ["a um b um c", " um um um ", "um um", "a um  um like x um", " UM ummm um um", ""] {
        for list in [vec!["um"], vec!["like", "UM"], vec!["m", "um", "x"], vec![""], vec![]] {
            assert!(remove_words(text, &words(&list)).is_some());
            assert!(try_clean_text(text, &words(&list)).is_some());
        }
        assert!(remove_word(text, "um").is_some());
    }
}

#[test]
fn ascii_filler_with_a_space_can_be_refused() {
    // After the first cut the word stands before it, and there is no room for the next.
    assert_eq!(remove_word(" a a b b ", "a b"), None);
    assert_eq!(try_clean_text(" a a b b ", &words(&["a b"])), None);
}

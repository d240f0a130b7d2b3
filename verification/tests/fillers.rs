use voiceai::parse_filler_words;

#[test]
fn parses_comma_separated_filler_words() {
    let result = parse_filler_words("эм,ну,как бы");
    assert_eq!(result, vec!["эм", "ну", "как бы"]);
}

#[test]
fn trims_spaces_around_filler_words() {
    let result = parse_filler_words("эм, ну , как бы");
    assert_eq!(result, vec!["эм", "ну", "как бы"]);
}

#[test]
fn empty_filler_words_string_gives_empty_list() {
    let result = parse_filler_words("");
    assert_eq!(result, Vec::<String>::new());
}

#[test]
fn empty_entries_are_left_out() {
    assert_eq!(parse_filler_words(",эм,, \t,ну,"), vec!["эм", "ну"]);
    assert_eq!(parse_filler_words(" , ,,\n"), Vec::<String>::new());
}

#[test]
fn nothing_is_listed_only_by_commas_and_whitespace() {
    for (raw, blank) in [
        ("", true),
        (",", true),
        (" \t,\u{a0},\n", true),
        (".", false),
        (",,\u{200b},", false),
        (" , а", false),
    ] {
        assert_eq!(raw.chars().all(|c| c == ',' || c.is_whitespace()), blank);
        assert_eq!(parse_filler_words(raw).is_empty(), blank);
    }
}

#[test]
fn written_list_is_read_again() {
    let list = vec!["эм", "ну", "как бы", "типа", "короче"];
    assert_eq!(parse_filler_words(&list.join(",")), list);
}

#[test]
fn entries_have_no_commas_and_no_outer_whitespace() {
    for word in parse_filler_words(" a b ,\u{a0}c\u{3000},,d , e") {
        assert!(!word.is_empty());
        assert!(!word.contains(','));
        assert_eq!(word.trim(), word);
    }
}

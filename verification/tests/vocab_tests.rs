use wordle_helper::vocab::{parse_line, parse_words};

#[test]
fn parse_line_accepts_tagged_word() {
    assert_eq!(parse_line("+crane", 5), Some(("crane".to_string(), true)));
    assert_eq!(parse_line("-crane", 5), Some(("crane".to_string(), false)));
    // Any tag other than '+' means "not common".
    assert_eq!(parse_line("xcrane", 5), Some(("crane".to_string(), false)));
}

#[test]
fn parse_line_rejects_wrong_length() {
    assert_eq!(parse_line("crane", 5), None);
    assert_eq!(parse_line("+cranes", 5), None);
    assert_eq!(parse_line("", 5), None);
    assert_eq!(parse_line("+", 5), None);
}

#[test]
fn parse_line_honours_word_length() {
    assert_eq!(parse_line("+abc", 3), Some(("abc".to_string(), true)));
    assert_eq!(parse_line("+abc", 5), None);
}

#[test]
fn parse_words_skips_malformed_lines() {
    let lines: Vec<String> = ["+crane", "bad", "-slate", "", "toolongline"]
        .iter()
        .map(|s| s.to_string())
        .collect();
    let r = parse_words(&lines, 5);
    assert_eq!(
        r,
        vec![("crane".to_string(), true), ("slate".to_string(), false)]
    );
}

#[test]
fn parse_words_of_empty_input_is_empty() {
    let lines: Vec<String> = Vec::new();
    assert!(parse_words(&lines, 5).is_empty());
}

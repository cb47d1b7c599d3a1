use wingbeat::text::{
    concat2, concat3, decimal_string, is_whitespace, join_with, same_text, split_words,
};

fn strings(parts: &[&str]) -> Vec<String> {
    parts.iter().map(|part| part.to_string()).collect()
}

#[test]
fn numbers_are_written_in_decimal() {
    for n in [0usize, 1, 9, 10, 11, 99, 100, 101, 1000, 51200, 123_456_789, usize::MAX] {
        assert_eq!(decimal_string(n), n.to_string());
    }
}

#[test]
fn parts_are_joined_with_the_separator_between() {
    assert_eq!(join_with(&strings(&[]), ", "), "");
    assert_eq!(join_with(&strings(&["a"]), ", "), "a");
    assert_eq!(join_with(&strings(&["a", "b", "c"]), ", "), "a, b, c");
    assert_eq!(join_with(&strings(&["", ""]), "-"), "-");
}

#[test]
fn texts_are_put_in_a_row() {
    assert_eq!(concat2("ab", "cd"), "abcd");
    assert_eq!(concat3("ab", "", "cd"), "abcd");
    assert!(same_text("abc", "abc"));
    assert!(!same_text("abc", "abd"));
    assert!(!same_text("abc", "ab"));
    assert!(same_text("", ""));
}

#[test]
fn white_space_is_what_unicode_says() {
    for code in 0..=0x11_0000u32 {
        if let Some(c) = char::from_u32(code) {
            assert_eq!(is_whitespace(c), c.is_whitespace(), "at {:x}", code);
        }
    }
}

#[test]
fn words_are_the_runs_between_white_space() {
    let samples = [
        "",
        " ",
        "a",
        " a",
        "a ",
        "Test prompt",
        "  Transform this   text into\tsomething amazing\n",
        "tabs\tand\r\nnewlines\u{b}\u{c}",
        "wide\u{3000}space\u{a0}no-break\u{2003}em\u{85}next",
        "ünïcödé wörds €uro",
        "a  b   c    d",
    ];
    for sample in samples {
        let expected: Vec<String> = sample.split_whitespace().map(|w| w.to_string()).collect();
        assert_eq!(split_words(sample), expected, "for {:?}", sample);
    }
    assert_eq!(split_words("Test prompt"), strings(&["Test", "prompt"]));
}

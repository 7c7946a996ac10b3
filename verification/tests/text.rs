use bookmark_check::text::{
    chars_of, count_lines, decimal_string, is_whitespace, matches_at, split_lines, split_tokens,
};

#[test]
fn counts_lines() {
    assert_eq!(count_lines("one\ntwo\nthree\n"), 3);
}

#[test]
fn lines_end_at_line_feeds() {
    let all = ["", "\n", "a", "a\n", "a\nb", "\r\n", "a\r\nb\r", "\r", "a\n\nb\n\n", "a\r\r\nb"];
    for text in all {
        let expected: Vec<&str> = text.lines().collect();
        assert_eq!(split_lines(text), expected);
        assert_eq!(count_lines(text), expected.len());
    }
}

#[test]
fn white_space_is_that_of_unicode() {
    for code in 0..=0x10ffffu32 {
        if let Some(c) = char::from_u32(code) {
            assert_eq!(is_whitespace(c), c.is_whitespace(), "{code:x}");
        }
    }
}

#[test]
fn words_are_separated_by_white_space() {
    let chars = chars_of("xx  a \t b\u{a0}c ");
    assert_eq!(split_tokens(&chars, 2, chars.len()), vec!["a", "b", "c"]);
    assert_eq!(split_tokens(&chars, 2, 4), Vec::<String>::new());
    assert_eq!(split_tokens(&chars, 0, 5), vec!["xx", "a"]);
}

#[test]
fn patterns_match_where_they_stand() {
    let chars = chars_of("abcabc");
    assert!(matches_at(&chars, 3, "abc"));
    assert!(!matches_at(&chars, 2, "abc"));
    assert!(!matches_at(&chars, 4, "bcd"));
    assert!(!matches_at(&chars, 7, ""));
}

#[test]
fn numbers_are_decimal() {
    for n in [0usize, 7, 10, 99, 100, 404, 65535, 1_000_000, usize::MAX] {
        assert_eq!(decimal_string(n), n.to_string());
    }
}

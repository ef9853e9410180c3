use reproducible::text::{decimal_string, split_lines, split_words, str_less};

#[test]
fn decimal_strings() {
    assert_eq!(decimal_string(0), "0");
    assert_eq!(decimal_string(7), "7");
    assert_eq!(decimal_string(1234567890), "1234567890");
    assert_eq!(decimal_string(u128::MAX), u128::MAX.to_string());
}

#[test]
fn string_order_matches_str() {
    for (a, b) in [("a", "b"), ("b", "a"), ("ab", "a"), ("a", "ab"), ("", "x"), ("x", ""), ("same", "same"), ("é", "z")] {
        assert_eq!(str_less(a, b), a < b, "{a} < {b}");
    }
}

#[test]
fn words_match_split_whitespace() {
    for s in ["", "  ", "rustc 1.90.0 (abc 2025)", "\tone\u{3000}two  three\n", "x"] {
        let expected: Vec<String> = s.split_whitespace().map(String::from).collect();
        assert_eq!(split_words(s), expected);
    }
}

#[test]
fn lines_match_str_lines() {
    for s in ["", "a", "a\n", "a\r\nb\n\nc", "foo\nbar\n\r\nbaz", "x\n\n"] {
        let expected: Vec<Vec<char>> = s.lines().map(|l| l.chars().collect()).collect();
        assert_eq!(split_lines(s), expected, "{s:?}");
    }
}

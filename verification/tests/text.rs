use lean_helix_view::text::{chars_of, decimal_string, str_eq, trimmed, without_line_end};

#[test]
fn decimal_string_writes_digits() {
    assert_eq!(decimal_string(0), "0");
    assert_eq!(decimal_string(10), "10");
    assert_eq!(decimal_string(u64::MAX), "18446744073709551615");
}

#[test]
fn white_space_is_trimmed_as_text() {
    for s in ["", " ", "a", " a b\t", "\u{85}\u{a0}a\u{3000}", "\u{200b}a", "\u{1c}a\u{feff}"] {
        let chars = chars_of(s);
        let expected: Vec<char> = s.trim().chars().collect();
        assert_eq!(trimmed(&chars), &expected[..], "{s:?}");
    }
    assert_eq!(without_line_end(&chars_of("a\r\n\r")), &chars_of("a")[..]);
    assert_eq!(without_line_end(&chars_of("\na")), &chars_of("\na")[..]);
}

#[test]
fn text_is_compared_whole() {
    assert!(str_eq("", ""));
    assert!(str_eq("\u{22a2} A", "\u{22a2} A"));
    assert!(!str_eq("ab", "a"));
    assert!(!str_eq("ab", "aB"));
}

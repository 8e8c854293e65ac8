use poe_bridge::text::{
    append_range, byte_length, from_range, has_substring, is_white_space, next_newline, same, strip_prefix,
    to_chars, trim_range, without_trailing_newlines,
};

#[test]
fn white_space_is_that_of_unicode() {
    for n in 0..=0x10FFFFu32 {
        if let Some(c) = char::from_u32(n) {
            assert_eq!(is_white_space(c), c.is_whitespace(), "{:x}", n);
        }
    }
}

#[test]
fn ranges_make_strings() {
    let chars = to_chars("grün是");
    assert_eq!(chars, vec!['g', 'r', 'ü', 'n', '是']);
    assert_eq!(from_range(&chars, 1, 3), "rü");
    let mut out = String::from("> ");
    append_range(&mut out, &chars, 3, 5);
    assert_eq!(out, "> n是");
}

#[test]
fn trimming_agrees_with_str() {
    for text in ["", " ", "a", " a ", "\t\u{3000}a b\u{85}\n", "\u{200B}a\u{200B}", "a\r"] {
        let chars = to_chars(text);
        let (from, to) = trim_range(&chars, 0, chars.len());
        assert_eq!(from_range(&chars, from, to), text.trim());
        assert_eq!(without_trailing_newlines(text), text.trim_end_matches('\n'));
    }
    assert_eq!(without_trailing_newlines("a\n\n\n"), "a");
    assert_eq!(without_trailing_newlines("a\n \n"), "a\n ");
}

#[test]
fn substrings_are_found_anywhere() {
    assert!(has_substring("a rate limit was hit", "rate limit"));
    assert!(has_substring("rate limit", "rate limit"));
    assert!(has_substring("", ""));
    assert!(has_substring("a", ""));
    assert!(!has_substring("Rate limit", "rate limit"));
    assert!(!has_substring("rate", "rate limit"));
}

#[test]
fn prefixes_are_stripped_once() {
    assert_eq!(strip_prefix("Bearer Bearer x", "Bearer "), Some("Bearer x".to_string()));
    assert_eq!(strip_prefix("Bearer", "Bearer "), None);
    assert_eq!(strip_prefix("x", ""), Some("x".to_string()));
}

#[test]
fn equality_is_exact() {
    assert!(same("a是", "a是"));
    assert!(!same("a", "A"));
    assert!(!same("a", "aa"));
}

#[test]
fn length_is_counted_in_bytes() {
    assert_eq!(byte_length(""), 0);
    assert_eq!(byte_length("aü是😀"), 1 + 2 + 3 + 4);
}

#[test]
fn newlines_are_found_in_order() {
    let chars = to_chars("a\nb\nc");
    assert_eq!(next_newline(&chars, 0), 1);
    assert_eq!(next_newline(&chars, 2), 3);
    assert_eq!(next_newline(&chars, 4), 5);
}

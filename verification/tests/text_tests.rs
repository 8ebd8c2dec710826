use svoote::text::{contains, hex_string, is_whitespace, trim, truncate_chars, u8_to_decimal};
use svoote::word_cloud::WordCloud;

#[test]
fn trim_removes_surrounding_whitespace_only() {
    assert_eq!(trim("  Hello World \t\n"), "Hello World");
    assert_eq!(trim("\u{3000}x\u{a0}"), "x");
    assert_eq!(trim("   "), "");
    assert_eq!(trim(""), "");
    assert_eq!(trim("a b"), "a b");
}

#[test]
fn truncate_chars_counts_characters_not_bytes() {
    assert_eq!(truncate_chars("héllo", 2), "hé");
    assert_eq!(truncate_chars("abc", 3), "abc");
    assert_eq!(truncate_chars("abc", 10), "abc");
    assert_eq!(truncate_chars("abc", 0), "");
    assert_eq!(truncate_chars("😀😀😀", 1), "😀");
}

#[test]
fn contains_finds_substrings() {
    assert!(contains("0ebcd2.bundle.css", "bundle.css"));
    assert!(contains("abc", ""));
    assert!(contains("abc", "abc"));
    assert!(!contains("abc", "abcd"));
    assert!(!contains("app.js", "bundle.css"));
    assert!(contains("xäöy", "öy"));
}

#[test]
fn hex_string_is_two_lower_case_digits_per_byte() {
    assert_eq!(hex_string(&[0xab, 0x01, 0x00, 0xff]), "ab0100ff");
    assert_eq!(hex_string(&[]), "");
}

#[test]
fn u8_to_decimal_writes_the_number() {
    assert_eq!(u8_to_decimal(0), "0");
    assert_eq!(u8_to_decimal(7), "7");
    assert_eq!(u8_to_decimal(42), "42");
    assert_eq!(u8_to_decimal(205), "205");
    assert_eq!(u8_to_decimal(255), "255");
}

#[test]
fn lower_casing_goes_through_the_standard_library() {
    // the word-cloud key lower-cases the text
    let mut c = WordCloud::new();
    c.insert("HeLLo ÄÖ");
    assert_eq!(c.words[0].text, "hello äö");
}

#[test]
fn whitespace_is_what_the_standard_library_says() {
    for c in (0u32..=0x10FFFF).filter_map(char::from_u32) {
        assert_eq!(is_whitespace(c), c.is_whitespace(), "{:?}", c);
    }
}

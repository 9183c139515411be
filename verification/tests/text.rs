use acc_calc_mcp::text::{
    is_digit, is_separator, is_whitespace, push_all, same_text, to_chars, trimmed,
};

#[test]
fn whitespace_is_what_the_standard_library_calls_whitespace() {
    for code in 0..=0x10FFFFu32 {
        if let Some(c) = char::from_u32(code) {
            assert_eq!(is_whitespace(c), c.is_whitespace(), "U+{:04X}", code);
        }
    }
}

#[test]
fn digits_are_the_ten_ascii_digits() {
    for code in 0..=0x10FFFFu32 {
        if let Some(c) = char::from_u32(code) {
            assert_eq!(is_digit(c), c.is_ascii_digit(), "U+{:04X}", code);
        }
    }
}

#[test]
fn separators_are_dot_comma_space_and_apostrophe() {
    for c in ['.', ',', ' ', '\''] {
        assert!(is_separator(c));
    }
    for c in ['0', '-', '%', '\t', '_', '"', ';', '\u{a0}'] {
        assert!(!is_separator(c));
    }
}

#[test]
fn trimming_agrees_with_the_standard_library() {
    let samples = [
        "", " ", "  a  ", "a", "\t\n a b \r\n", "\u{a0}x\u{2003}", "x \u{3000}", " \u{feff}x ",
        "1,234 ", "   ",
    ];
    for sample in samples {
        let chars = to_chars(sample);
        let kept: String = trimmed(&chars).iter().collect();
        assert_eq!(kept, sample.trim(), "{:?}", sample);
    }
}

#[test]
fn strings_and_characters_convert_both_ways() {
    let chars = to_chars("a1,é漢");
    assert_eq!(chars, vec!['a', '1', ',', 'é', '漢']);
    let mut out = String::from("x");
    push_all(&mut out, &chars);
    assert_eq!(out, "xa1,é漢");
    push_all(&mut out, &[]);
    assert_eq!(out, "xa1,é漢");
}

#[test]
fn texts_are_compared_by_their_characters() {
    assert!(same_text("", ""));
    assert!(same_text("round_then_divide_by_100", "round_then_divide_by_100"));
    assert!(!same_text("abc", "abd"));
    assert!(!same_text("abc", "ab"));
    assert!(!same_text("", "a"));
}

use acc_calc_mcp::normalize::{normalize_chars, normalize_number, remove_thousand_separators};

#[test]
fn normalizes_the_four_common_styles() {
    assert_eq!(normalize_number("1,234.56"), "1234.56");
    assert_eq!(normalize_number("1.234,56"), "1234.56");
    assert_eq!(normalize_number("1 234,56"), "1234.56");
    assert_eq!(normalize_number("1'234.56"), "1234.56");
}

#[test]
fn rightmost_of_comma_and_dot_is_the_decimal_separator() {
    assert_eq!(normalize_number("1,000,000.50"), "1000000.50");
    assert_eq!(normalize_number("1.000.000,50"), "1000000.50");
    assert_eq!(normalize_number("1.2,3,4"), "123.4");
    assert_eq!(normalize_number("1,2.3.4"), "123.4");
    assert_eq!(normalize_number("1'234 567,8.9"), "12345678.9");
    assert_eq!(normalize_number("12,.5"), "12.5");
}

#[test]
fn lone_comma_before_one_to_three_digits_is_decimal() {
    assert_eq!(normalize_number("123,4"), "123.4");
    assert_eq!(normalize_number("123,45"), "123.45");
    assert_eq!(normalize_number("1,234"), "1.234");
    assert_eq!(normalize_number("1 000,5"), "1000.5");
}

#[test]
fn commas_that_group_are_removed() {
    assert_eq!(normalize_number("1,2345"), "12345");
    assert_eq!(normalize_number("1,234,567"), "1234567");
    assert_eq!(normalize_number("12,34,56"), "123456");
    assert_eq!(normalize_number("5,"), "5");
    assert_eq!(normalize_number("1,2 3"), "123");
    assert_eq!(normalize_number("1,2a"), "12a");
}

#[test]
fn single_dot_is_decimal_whatever_follows() {
    assert_eq!(normalize_number("1.5"), "1.5");
    assert_eq!(normalize_number("1.23456"), "1.23456");
    assert_eq!(normalize_number("1."), "1.");
    assert_eq!(normalize_number("1 234.5"), "1234.5");
    assert_eq!(normalize_number("12'345.678 9"), "12345.6789");
}

#[test]
fn several_dots_end_in_a_decimal_one_before_a_short_group() {
    assert_eq!(normalize_number("1.234.567"), "1234.567");
    assert_eq!(normalize_number("1.234.5"), "1234.5");
    assert_eq!(normalize_number("1.234.5678"), "12345678");
    assert_eq!(normalize_number("1.2."), "12");
    assert_eq!(normalize_number("1.2.x"), "12x");
}

#[test]
fn without_comma_or_dot_only_spaces_and_apostrophes_go() {
    assert_eq!(normalize_number("1 234 567"), "1234567");
    assert_eq!(normalize_number("1'234'567"), "1234567");
    assert_eq!(normalize_number("42"), "42");
    assert_eq!(normalize_number("abc"), "abc");
    assert_eq!(normalize_number("-12"), "-12");
}

#[test]
fn whitespace_around_the_numeral_is_dropped_first() {
    assert_eq!(normalize_number("  12,5 "), "12.5");
    assert_eq!(normalize_number("\t1,234.5\n"), "1234.5");
    assert_eq!(normalize_number("123,45 "), "123.45");
    assert_eq!(normalize_number("\u{a0}7\u{3000}"), "7");
    assert_eq!(normalize_number(""), "");
    assert_eq!(normalize_number("   "), "");
}

#[test]
fn normalized_numerals_hold_one_dot_at_most() {
    let inputs = [
        "1,234.56", "1.234,56", "1.2.3.4", "1,2,3,4", "9'999", "1 2 3", "1.2,3.4,5", "0.5", "7",
        "1,5", "10.000", "1,,2", "1..2", "3.,4",
    ];
    for input in inputs {
        let out = normalize_number(input);
        assert!(out.chars().filter(|c| *c == '.').count() <= 1, "{}", out);
        assert!(!out.contains(',') && !out.contains(' ') && !out.contains('\''), "{}", out);
        let digits_in: String = input.chars().filter(|c| c.is_ascii_digit()).collect();
        let digits_out: String = out.chars().filter(|c| c.is_ascii_digit()).collect();
        assert_eq!(digits_in, digits_out);
        assert!(out.parse::<f64>().is_ok(), "{}", out);
    }
}

#[test]
fn normalizes_a_slice_of_characters() {
    let chars: Vec<char> = "2.000,44".chars().collect();
    assert_eq!(normalize_chars(&chars), "2000.44");
    assert_eq!(normalize_chars(&chars[..5]), "2.000");
    assert_eq!(normalize_chars(&[]), "");
}

#[test]
fn removes_only_the_listed_separators() {
    assert_eq!(remove_thousand_separators("1,234'567 8.9", &[',', '\'', ' ']), "12345678.9");
    assert_eq!(remove_thousand_separators("1.234,5", &['.']), "1234,5");
    assert_eq!(remove_thousand_separators("", &[',']), "");
    assert_eq!(remove_thousand_separators("abc", &[]), "abc");
    assert_eq!(remove_thousand_separators(",,,", &[',']), "");
}

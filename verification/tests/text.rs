use commust::text::{
    chars_of, int_string, nat_string, parse_i32_text, split_options, trimmed,
};

#[test]
fn decimal_text_of_integers() {
    assert_eq!(int_string(0), "0");
    assert_eq!(int_string(5), "5");
    assert_eq!(int_string(10), "10");
    assert_eq!(int_string(-7), "-7");
    assert_eq!(int_string(1234567890), "1234567890");
    assert_eq!(int_string(i64::MAX), "9223372036854775807");
    assert_eq!(int_string(i64::MIN), "-9223372036854775808");
    assert_eq!(nat_string(0), "0");
    assert_eq!(nat_string(u64::MAX), "18446744073709551615");
}

#[test]
fn decimal_text_agrees_with_std() {
    for i in [-1000i64, -1, 0, 1, 9, 10, 99, 100, 101, 65535, 2147483647, -2147483648] {
        assert_eq!(int_string(i), i.to_string());
    }
}

#[test]
fn parse_reads_signed_decimals() {
    assert_eq!(parse_i32_text("0"), Some(0));
    assert_eq!(parse_i32_text("5"), Some(5));
    assert_eq!(parse_i32_text("-5"), Some(-5));
    assert_eq!(parse_i32_text("+5"), Some(5));
    assert_eq!(parse_i32_text("007"), Some(7));
    assert_eq!(parse_i32_text("-0"), Some(0));
    assert_eq!(parse_i32_text("2147483647"), Some(i32::MAX));
    assert_eq!(parse_i32_text("-2147483648"), Some(i32::MIN));
    assert_eq!(parse_i32_text("0000000000002147483647"), Some(i32::MAX));
}

#[test]
fn parse_refuses_what_is_no_integer() {
    for text in [
        "", "-", "+", " 5", "5 ", "5.0", "1e3", "abc", "--5", "+-5", "5-", "1_000", "٣",
        "2147483648", "-2147483649", "99999999999999999999999999",
    ] {
        assert_eq!(parse_i32_text(text), None, "{:?}", text);
    }
}

#[test]
fn parse_agrees_with_std() {
    for text in ["", "-", "+", "+0", "-0", "12", "-12", "0012", "2147483648", "x", "1x", " 1"] {
        assert_eq!(parse_i32_text(text), text.parse::<i32>().ok(), "{:?}", text);
    }
}

#[test]
fn parse_reads_back_what_is_written() {
    for i in [i32::MIN, -10, -1, 0, 1, 10, 255, i32::MAX] {
        assert_eq!(parse_i32_text(&int_string(i as i64)), Some(i));
    }
}

#[test]
fn chars_of_gives_the_characters() {
    assert_eq!(chars_of("héé|"), vec!['h', 'é', 'é', '|']);
    assert!(chars_of("").is_empty());
}

#[test]
fn trimmed_takes_whitespace_off_both_ends() {
    let t = |s: &str| -> String { trimmed(&s.chars().collect()).into_iter().collect() };
    assert_eq!(t("  a b \t\n"), "a b");
    assert_eq!(t("a"), "a");
    assert_eq!(t(""), "");
    assert_eq!(t(" \u{a0}\u{3000} "), "");
    assert_eq!(t("\u{2003}x\u{2003}"), "x");
    for s in ["", " ", " a", "a ", " a b ", "\t\tab\r\n", "\u{85}x\u{1680}"] {
        assert_eq!(t(s), s.trim());
    }
}

#[test]
fn split_cuts_at_commas_and_bars() {
    assert_eq!(split_options("red,blue|green", false), vec!["red", "blue", "green"]);
    assert_eq!(split_options("red", false), vec!["red"]);
    assert_eq!(split_options("", false), vec![""]);
    assert_eq!(split_options(",", false), vec!["", ""]);
    assert_eq!(split_options("a,,b|", false), vec!["a", "", "b", ""]);
    assert_eq!(split_options(" a , b ", false), vec![" a ", " b "]);
}

#[test]
fn split_trims_each_piece_when_asked() {
    assert_eq!(split_options(" red , blue |green ", true), vec!["red", "blue", "green"]);
    assert_eq!(split_options(" , ", true), vec!["", ""]);
    assert_eq!(split_options("  ", true), vec![""]);
}

#[test]
fn split_agrees_with_std() {
    for s in ["", "a", "a,b", "a|b,c", ",|,", " x | y ", "é,ü"] {
        let plain: Vec<String> = s.split(&[',', '|']).map(|p| p.to_string()).collect();
        let trimmed: Vec<String> = s.split(&[',', '|']).map(|p| p.trim().to_string()).collect();
        assert_eq!(split_options(s, false), plain);
        assert_eq!(split_options(s, true), trimmed);
    }
}

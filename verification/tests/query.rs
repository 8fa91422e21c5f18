use wrapperd::query::{hex, parse_query, percent_decode, percent_decode_bytes, split_target};
use wrapperd::text::{
    char_vec, eq_ignore_ascii_case, find_char, is_decimal, parse_decimal, push_decimal, same_text,
    split_once, trim,
};

/// The value of a parameter.
fn parameter(query: &str, name: &str) -> Option<String> {
    parse_query(query).get(name).map(|v| v.to_string())
}

#[test]
fn hex_digits() {
    for b in 0..=255u8 {
        assert_eq!(hex(b), (b as char).to_digit(16).map(|d| d as u8));
    }
}

#[test]
fn escapes_are_decoded() {
    assert_eq!(percent_decode("a%20b"), "a b");
    assert_eq!(percent_decode("a+b"), "a b");
    assert_eq!(percent_decode("%2B"), "+");
    assert_eq!(percent_decode("%e2%82%AC"), "\u{20ac}");
    assert_eq!(percent_decode("%41%42"), "AB");
    assert_eq!(percent_decode(""), "");
    assert_eq!(percent_decode("\u{e9}"), "\u{e9}");
}

#[test]
fn broken_escapes_stay() {
    assert_eq!(percent_decode("%"), "%");
    assert_eq!(percent_decode("%4"), "%4");
    assert_eq!(percent_decode("%zz"), "%zz");
    assert_eq!(percent_decode("%4x%41"), "%4xA");
    assert_eq!(percent_decode("%%41"), "%A");
    assert_eq!(percent_decode("100%"), "100%");
}

#[test]
fn bytes_that_are_no_text_are_replaced() {
    assert_eq!(percent_decode_bytes(b"%ff+"), vec![0xff, 0x20]);
    assert_eq!(percent_decode("a%ffb"), "a\u{fffd}b");
    assert_eq!(percent_decode("%f0%9f%98"), "\u{fffd}");
}

#[test]
fn every_byte_reads_back_from_its_escape() {
    for b in 0..=255u8 {
        let text = format!("%{b:02X}%{b:02x}");
        assert_eq!(percent_decode_bytes(text.as_bytes()), vec![b, b]);
    }
}

#[test]
fn targets_are_split_at_the_first_question_mark() {
    let split = |t: &str| split_target(t);
    assert_eq!(split("/a"), ("/a".to_string(), String::new()));
    assert_eq!(split("/a?"), ("/a".to_string(), String::new()));
    assert_eq!(split("/a?b=c"), ("/a".to_string(), "b=c".to_string()));
    assert_eq!(split("/a?b?c"), ("/a".to_string(), "b?c".to_string()));
    assert_eq!(split("?b"), (String::new(), "b".to_string()));
    assert_eq!(split(""), (String::new(), String::new()));
}

#[test]
fn parameters_are_decoded() {
    assert_eq!(parameter("a=1&b=2", "a"), Some("1".to_string()));
    assert_eq!(parameter("a=1&b=2", "b"), Some("2".to_string()));
    assert_eq!(parameter("a=1&b=2", "c"), None);
    assert_eq!(parameter("a=1=2", "a"), Some("1=2".to_string()));
    assert_eq!(parameter("a", "a"), Some(String::new()));
    assert_eq!(parameter("&&a=1&", "a"), Some("1".to_string()));
    assert_eq!(parameter("=x", ""), Some("x".to_string()));
    assert_eq!(parameter("", ""), None);
    assert_eq!(parameter("a%26b=c%3Dd", "a&b"), Some("c=d".to_string()));
    assert_eq!(parse_query("a=1&b=2&a=3").len(), 2);
}

#[test]
fn the_last_of_two_parameters_with_one_name_counts() {
    assert_eq!(parameter("a=1&a=2", "a"), Some("2".to_string()));
    assert_eq!(parameter("a=1&%61=2", "a"), Some("2".to_string()));
}

#[test]
fn a_query_reads_back() {
    let query = "%6E%61%6D%65=%61%26%62&%78=%3D";
    assert_eq!(parameter(query, "name"), Some("a&b".to_string()));
    assert_eq!(parameter(query, "x"), Some("=".to_string()));
    assert_eq!(parse_query(query).len(), 2);
}

#[test]
fn escapes_of_either_case_read_back() {
    assert_eq!(percent_decode("%c3%A9%C3%a9"), "\u{e9}\u{e9}");
    assert_eq!(parameter("%6e=%6A&%6B=%c3%A9", "n"), Some("j".to_string()));
    assert_eq!(parameter("%6e=%6A&%6B=%c3%A9", "k"), Some("\u{e9}".to_string()));
}

#[test]
fn names_and_values_may_hold_any_characters() {
    assert_eq!(parameter("\u{e9}=\u{20ac}&\u{1f600}", "\u{e9}"), Some("\u{20ac}".to_string()));
    assert_eq!(parameter("\u{e9}=\u{20ac}&\u{1f600}", "\u{1f600}"), Some(String::new()));
}

#[test]
fn a_query_of_separators_is_walked_once() {
    let query = "&".repeat(1_000_000);
    assert_eq!(parse_query(&query).len(), 0);
    let query = "a=1&".repeat(250_000);
    assert_eq!(parse_query(&query).len(), 1);
}

#[test]
fn texts_are_searched_and_compared() {
    assert_eq!(find_char("a\u{e9}=b", '='), Some(2));
    assert_eq!(find_char("ab", '='), None);
    assert_eq!(split_once("k=v=w", '='), Some(("k".to_string(), "v=w".to_string())));
    assert_eq!(split_once("k", '='), None);
    assert!(same_text("a", "a"));
    assert!(!same_text("a", "A"));
    assert!(eq_ignore_ascii_case("Content-Length", "content-length"));
    assert!(!eq_ignore_ascii_case("Content-Lengt", "content-length"));
    assert!(!eq_ignore_ascii_case("\u{c9}", "\u{e9}"));
}

#[test]
fn numbers_read_back_from_their_digits() {
    for n in [0usize, 7, 10, 200, 65_536, usize::MAX] {
        let mut text = String::new();
        push_decimal(&mut text, n);
        assert_eq!(text, n.to_string());
        assert_eq!(parse_decimal(&char_vec(&text), usize::MAX), Some(n));
    }
    assert_eq!(parse_decimal(&char_vec("18446744073709551616"), usize::MAX), None);
    assert_eq!(parse_decimal(&char_vec("256"), 255), None);
    assert_eq!(parse_decimal(&char_vec(""), 255), None);
    assert_eq!(parse_decimal(&char_vec("1 "), 255), None);
    assert!(is_decimal(&char_vec("18446744073709551616")));
    assert!(is_decimal(&char_vec("+0")));
    assert!(!is_decimal(&char_vec("+")));
    assert!(!is_decimal(&char_vec("")));
    assert!(!is_decimal(&char_vec("1 ")));
}

#[test]
fn white_space_is_trimmed_as_std_trims_it() {
    for c in (0..0x11_0000u32).filter_map(char::from_u32) {
        let text = format!("{c}a{c}");
        let chars = char_vec(&text);
        let kept: String = trim(&chars).iter().collect();
        assert_eq!(kept, text.trim());
    }
    assert_eq!(trim(&char_vec(" \t ")).len(), 0);
    assert_eq!(trim(&[]).len(), 0);
}

use skagit_flats::strings::{find_char, parse_int, parse_uint, rfind_char, split_chars, trim_chars};
use skagit_flats::text::{
    char_is_whitespace, chars_eq, chars_of, contains_chars, i64_to_string, str_eq, string_from_chars, sub_chars,
    tenths_to_string, to_ascii_lower, u64_to_decimal2, u64_to_string,
};

fn cs(s: &str) -> Vec<char> {
    s.chars().collect()
}

#[test]
fn chars_round_trip() {
    let v = chars_of("río — 5°");
    assert_eq!(v, cs("río — 5°"));
    assert_eq!(string_from_chars(&v), "río — 5°");
    assert!(str_eq("abc", "abc"));
    assert!(!str_eq("abc", "abd"));
    assert!(chars_eq(&cs("x"), &cs("x")));
    assert_eq!(sub_chars(&cs("abcdef"), 1, 4), cs("bcd"));
}

#[test]
fn find_first_and_last() {
    assert_eq!(find_char(&cs("a-b-c"), '-'), Some(1));
    assert_eq!(rfind_char(&cs("a-b-c"), '-'), Some(3));
    assert_eq!(find_char(&cs("abc"), '-'), None);
    assert_eq!(rfind_char(&cs(""), '-'), None);
}

#[test]
fn split_keeps_empty_pieces() {
    assert_eq!(split_chars(&cs("a::b"), ':'), vec![cs("a"), cs(""), cs("b")]);
    assert_eq!(split_chars(&cs(""), ':'), vec![cs("")]);
    assert_eq!(split_chars(&cs("x:"), ':'), vec![cs("x"), cs("")]);
}

#[test]
fn trim_removes_outer_whitespace() {
    assert_eq!(trim_chars(&cs(" \t ab c \n")), cs("ab c"));
    assert_eq!(trim_chars(&cs("   ")), cs(""));
    assert!(char_is_whitespace('\t'));
    assert!(!char_is_whitespace('a'));
}

#[test]
fn parse_integers_like_from_str() {
    assert_eq!(parse_int(&cs("-42")), Some(-42));
    assert_eq!(parse_int(&cs("+7")), Some(7));
    assert_eq!(parse_int(&cs("-9223372036854775808")), Some(i64::MIN));
    assert_eq!(parse_int(&cs("9223372036854775808")), None);
    assert_eq!(parse_int(&cs("")), None);
    assert_eq!(parse_int(&cs("-")), None);
    assert_eq!(parse_int(&cs("1a")), None);
    assert_eq!(parse_uint(&cs("18446744073709551615")), Some(u64::MAX));
    assert_eq!(parse_uint(&cs("18446744073709551616")), None);
    assert_eq!(parse_uint(&cs("-1")), None);
    assert_eq!(parse_uint(&cs("+5")), Some(5));
}

#[test]
fn decimal_rendering() {
    assert_eq!(u64_to_string(0), "0");
    assert_eq!(u64_to_string(1234567890), "1234567890");
    assert_eq!(i64_to_string(-42), "-42");
    assert_eq!(i64_to_string(i64::MIN), "-9223372036854775808");
    assert_eq!(u64_to_decimal2(7), cs("07"));
    assert_eq!(u64_to_decimal2(123), cs("123"));
    assert_eq!(tenths_to_string(115), "11.5");
    assert_eq!(tenths_to_string(-5), "-0.5");
    assert_eq!(tenths_to_string(0), "0.0");
}

#[test]
fn contains_and_lower() {
    assert!(contains_chars(&cs("mostly cloudy"), &cs("cloud")));
    assert!(!contains_chars(&cs("clear"), &cs("cloud")));
    assert!(contains_chars(&cs("x"), &cs("")));
    assert_eq!(to_ascii_lower('Q'), 'q');
    assert_eq!(to_ascii_lower('é'), 'é');
}

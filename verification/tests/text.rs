use dwm_status::numbers::{parse_hex_u32, parse_i64, parse_u32, parse_u64, push_decimal, push_signed};
use dwm_status::order::chars_less;
use dwm_status::text::{chars_of, join_strings, lines_of, trim_chars, words_of};

fn chars(s: &str) -> Vec<char> {
    s.chars().collect()
}

fn strings(v: Vec<Vec<char>>) -> Vec<String> {
    v.into_iter().map(|c| c.into_iter().collect()).collect()
}

#[test]
fn split_lines_and_words() {
    assert_eq!(strings(lines_of(&chars("a\r\nb\n\nc"))), vec!["a", "b", "", "c"]);
    assert_eq!(strings(lines_of(&chars("a\n"))), vec!["a"]);
    assert_eq!(strings(words_of(&chars("  x\ty  z "))), vec!["x", "y", "z"]);
}

#[test]
fn trim_and_join() {
    assert_eq!(trim_chars(&chars(" \tab c\n")).into_iter().collect::<String>(), "ab c");
    let parts = vec!["a".to_string(), "b".to_string(), "c".to_string()];
    assert_eq!(join_strings(&parts, ", "), "a, b, c");
    assert_eq!(join_strings(&Vec::new(), ", "), "");
    assert_eq!(chars_of("hé"), vec!['h', 'é']);
}

#[test]
fn parse_decimal_numbers() {
    assert_eq!(parse_u64(&chars("18446744073709551615")), Some(u64::MAX));
    assert_eq!(parse_u64(&chars("18446744073709551616")), None);
    assert_eq!(parse_u32(&chars("")), None);
    assert_eq!(parse_u32(&chars("+7")), Some(7));
    assert_eq!(parse_i64(&chars("-42")), Some(-42));
    assert_eq!(parse_i64(&chars("4x")), None);
}

#[test]
fn parse_hex_numbers() {
    assert_eq!(parse_hex_u32(&chars("0003")), Some(3));
    assert_eq!(parse_hex_u32(&chars("ffffffff")), Some(u32::MAX));
    assert_eq!(parse_hex_u32(&chars("100000000")), None);
    assert_eq!(parse_hex_u32(&chars("zz")), None);
    assert_eq!(parse_hex_u32(&chars("+1F")), None);
    assert_eq!(parse_hex_u32(&chars("1F")), Some(31));
    assert_eq!(parse_hex_u32(&chars("-1")), None);
    assert_eq!(parse_hex_u32(&chars("")), None);
}

#[test]
fn render_numbers() {
    let mut s = String::new();
    push_decimal(&mut s, 1234);
    s.push(' ');
    push_signed(&mut s, -5);
    assert_eq!(s, "1234 -5");
}

#[test]
fn order_names_by_chars() {
    assert!(chars_less(&chars("a-wan"), &chars("z-wan")));
    assert!(chars_less(&chars("ab"), &chars("abc")));
    assert!(!chars_less(&chars("b"), &chars("b")));
}

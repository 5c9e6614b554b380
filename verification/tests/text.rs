use micro_http::text::chars_of;
use micro_http::text::find_from;
use micro_http::text::push_decimal;
use micro_http::text::spells;

fn decimal(n: usize) -> String {
    let mut out = String::new();
    push_decimal(&mut out, n);
    out
}

#[test]
fn decimal_digits() {
    assert_eq!(decimal(0), "0");
    assert_eq!(decimal(7), "7");
    assert_eq!(decimal(9), "9");
    assert_eq!(decimal(10), "10");
    assert_eq!(decimal(18), "18");
    assert_eq!(decimal(100), "100");
    assert_eq!(decimal(1_234_567_890), "1234567890");
    assert_eq!(decimal(usize::MAX), usize::MAX.to_string());
}

#[test]
fn decimal_is_appended() {
    let mut out = String::from("n=");
    push_decimal(&mut out, 42);
    push_decimal(&mut out, 0);
    assert_eq!(out, "n=420");
}

#[test]
fn characters_of_a_string() {
    assert_eq!(chars_of(""), Vec::<char>::new());
    assert_eq!(chars_of("a\u{e9}\u{1f600}"), vec!['a', '\u{e9}', '\u{1f600}']);
}

#[test]
fn spelling_is_exact() {
    assert!(spells(&chars_of("GET"), "GET"));
    assert!(spells(&chars_of(""), ""));
    assert!(!spells(&chars_of("GET"), "GE"));
    assert!(!spells(&chars_of("GE"), "GET"));
    assert!(!spells(&chars_of("GET"), "get"));
    assert!(!spells(&chars_of(""), "x"));
}

#[test]
fn first_occurrence_from_a_position() {
    let chars = chars_of("a b  c");
    assert_eq!(find_from(&chars, ' ', 0), Some(1));
    assert_eq!(find_from(&chars, ' ', 1), Some(1));
    assert_eq!(find_from(&chars, ' ', 2), Some(3));
    assert_eq!(find_from(&chars, ' ', 4), Some(4));
    assert_eq!(find_from(&chars, ' ', 5), None);
    assert_eq!(find_from(&chars, ' ', 6), None);
    assert_eq!(find_from(&chars, ' ', 7), None);
    assert_eq!(find_from(&chars, ' ', usize::MAX), None);
    assert_eq!(find_from(&chars, 'c', 0), Some(5));
    assert_eq!(find_from(&chars, 'z', 0), None);
    assert_eq!(find_from(&Vec::new(), 'z', 0), None);
}

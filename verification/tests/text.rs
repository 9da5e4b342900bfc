use ocipkg::text::{chars_of, parse_decimal, push_decimal, slice_of, str_eq, string_from};

fn decimal(n: u64) -> String {
    let mut s = String::new();
    push_decimal(&mut s, n);
    s
}

#[test]
fn numbers_are_written_without_zeros_in_front() {
    assert_eq!(decimal(0), "0");
    assert_eq!(decimal(7), "7");
    assert_eq!(decimal(10), "10");
    assert_eq!(decimal(1023), "1023");
    assert_eq!(decimal(u64::MAX), "18446744073709551615");
    let mut s = "size=".to_string();
    push_decimal(&mut s, 42);
    assert_eq!(s, "size=42");
}

#[test]
fn numbers_are_read_if_they_fit() {
    let parse = |s: &str| parse_decimal(&chars_of(s));
    assert_eq!(parse("0"), Some(0));
    assert_eq!(parse("0042"), Some(42));
    assert_eq!(parse("18446744073709551615"), Some(u64::MAX));
    assert_eq!(parse("18446744073709551616"), None);
    assert_eq!(parse("99999999999999999999999"), None);
    assert_eq!(parse(""), None);
    assert_eq!(parse("-1"), None);
    assert_eq!(parse("+1"), None);
    assert_eq!(parse("1 "), None);
    assert_eq!(parse("12a"), None);
    assert_eq!(parse("١٢"), None);
}

#[test]
fn strings_and_characters() {
    let v = chars_of("héllo");
    assert_eq!(v, vec!['h', 'é', 'l', 'l', 'o']);
    assert_eq!(string_from(&v), "héllo");
    assert_eq!(slice_of(&v, 1, 3), vec!['é', 'l']);
    assert!(str_eq("abc", "abc"));
    assert!(!str_eq("abc", "abd"));
    assert!(!str_eq("abc", "ab"));
    assert!(str_eq("", ""));
}

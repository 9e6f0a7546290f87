use sohara::path_order::{path_less, sort_paths};
use sohara::text::{decimal, hexadecimal, parse_i64_text, parse_u16, parse_u64_digits, split_once};

#[test]
fn numbers_render_in_decimal_and_hex() {
    assert_eq!(decimal(0), "0");
    assert_eq!(decimal(1234567890), "1234567890");
    assert_eq!(decimal(u64::MAX), "18446744073709551615");
    assert_eq!(hexadecimal(255), "ff");
    assert_eq!(hexadecimal(0xdead_beef), "deadbeef");
}

#[test]
fn numbers_parse_like_std() {
    assert_eq!(parse_u16("8080"), Some(8080));
    assert_eq!(parse_u16("+80"), Some(80));
    assert_eq!(parse_u16("65536"), None);
    assert_eq!(parse_u16(""), None);
    assert_eq!(parse_u16("8o"), None);
    assert_eq!(parse_u64_digits("18446744073709551615"), Some(u64::MAX));
    assert_eq!(parse_u64_digits("18446744073709551616"), None);
    assert_eq!(parse_i64_text("-9223372036854775808"), Some(i64::MIN));
    assert_eq!(parse_i64_text("9223372036854775808"), None);
    assert_eq!(parse_i64_text("1.5"), None);
}

#[test]
fn split_once_splits_at_the_first_match() {
    assert_eq!(split_once("a:b:c", ":"), Some(("a".to_owned(), "b:c".to_owned())));
    assert_eq!(split_once("abc", ":"), None);
}

#[test]
fn paths_compare_component_by_component() {
    assert!(path_less("x/a/1.yaml", "x/a-1.yaml"));
    assert!(!path_less("x/a-1.yaml", "x/a/1.yaml"));
    assert!(path_less("a", "a/b"));
    assert!(path_less("/a", "a"));
    assert!(path_less("../a", "a"));
    assert!(!path_less("a//b", "a/b"));
    assert!(!path_less("a/b", "a//b"));
    assert!(!path_less("a/b", "a/b"));
    assert_eq!(
        sort_paths(vec!["b".to_owned(), "a/b/".to_owned(), "a-b".to_owned(), "a/b".to_owned()]),
        vec!["a/b/".to_owned(), "a/b".to_owned(), "a-b".to_owned(), "b".to_owned()]
    );
}

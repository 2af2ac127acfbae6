use shellops::number::{parse_u32, to_decimal, to_signed};
use shellops::text::{
    contains, ends_with, extend, find, first_filled, glue, glue3, if_filled, join, lines, listed,
    piece, precedes, same, split, split_once, starts_with, strip_prefix, strip_prefixes,
    strip_suffix, strip_suffixes, trim, trim_of, trimmed_lines, words,
};

fn some(text: &str) -> Option<String> {
    Some(text.to_string())
}

#[test]
fn parts_of_texts_are_found() {
    assert_eq!(find("abcabc", "ca"), Some(2));
    assert_eq!(find("éb", "b"), Some(1));
    assert_eq!(find("abc", "x"), None);
    assert_eq!(find("abc", ""), Some(0));
    assert!(contains("abc", "bc"));
    assert!(starts_with("abc", "ab"));
    assert!(!starts_with("a", "ab"));
    assert!(ends_with("abc", "bc"));
    assert!(same("abc", "abc"));
    assert!(!same("abc", "abd"));
    assert!(listed(&["a".to_string(), "b".to_string()], "b"));
}

#[test]
fn texts_are_stripped_and_trimmed() {
    assert_eq!(strip_prefix("abc", "ab").as_deref(), Some("c"));
    assert_eq!(strip_prefix("abc", "b"), None);
    assert_eq!(strip_suffix("abc", "bc").as_deref(), Some("a"));
    assert_eq!(strip_prefixes("vvv1", "v"), "1");
    assert_eq!(strip_suffixes("a.git.git", ".git"), "a");
    assert_eq!(trim(" \t\u{a0}a b\u{2003}\n"), "a b");
    assert_eq!(trim(" \n"), "");
    assert_eq!(trim_of("\"\"a\"b\"", '"'), "a\"b");
    assert_eq!(if_filled(some("")), None);
    assert_eq!(if_filled(some("x")), some("x"));
    assert_eq!(first_filled(some(""), some("b"), some("c")), some("b"));
}

#[test]
fn texts_are_split_and_joined() {
    assert_eq!(split("a.b.", '.'), vec!["a", "b", ""]);
    assert_eq!(split("", '.'), vec![""]);
    assert_eq!(
        split_once("a=b=c", '='),
        Some(("a".to_string(), "b=c".to_string()))
    );
    assert_eq!(split_once("a", '='), None);
    assert_eq!(lines("a\r\nb\n\nc"), vec!["a", "b", "", "c"]);
    assert_eq!(lines("a\n"), vec!["a"]);
    assert!(lines("").is_empty());
    assert_eq!(trimmed_lines(" a \n\n b"), vec!["a", "b"]);
    assert_eq!(words(" a\tb  c "), vec!["a", "b", "c"]);
    assert_eq!(join(&lines("a\nb"), ", "), "a, b");
    assert_eq!(join(&[], ", "), "");
    assert_eq!(glue("a", "b"), "ab");
    assert_eq!(glue3("a", "b", "c"), "abc");
    assert_eq!(piece(&['a', 'b', 'c'], 1, 3), "bc");
    let mut list = lines("a");
    extend(&mut list, &lines("b\nc"));
    assert_eq!(list, vec!["a", "b", "c"]);
}

#[test]
fn texts_are_ordered_by_their_characters() {
    for (a, b) in [("", "a"), ("a", "b"), ("a", "aa"), ("Z", "a"), ("z", "é")] {
        assert!(precedes(a, b));
        assert!(!precedes(b, a));
        assert_eq!(a < b, precedes(a, b));
    }
    assert!(!precedes("a", "a"));
}

#[test]
fn numbers_are_read_and_written() {
    assert_eq!(to_decimal(0), "0");
    assert_eq!(to_decimal(u64::MAX), "18446744073709551615");
    assert_eq!(to_signed(-12), "-12");
    assert_eq!(to_signed(i64::MIN), "-9223372036854775808");
    assert_eq!(parse_u32("4294967295"), Some(u32::MAX));
    assert_eq!(parse_u32("4294967296"), None);
    assert_eq!(parse_u32("+7"), Some(7));
    for text in ["", "+", "-1", "1 ", "x"] {
        assert_eq!(parse_u32(text), None, "{text}");
    }
}

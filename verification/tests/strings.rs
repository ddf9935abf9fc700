use slime::util::bytes::{find_bytes, PathUtil};
use slime::util::decimal::{decimal_string, parse_unsigned, signed_decimal_string};
use slime::util::path::Path;
use slime::util::strings::{left_justify, levenshtein_distance, StringUtil};

#[test]
fn paths() {
    let x = Path::new("HELP");
    assert!(PathUtil::len(&x) == 4);
    assert!(PathUtil::find(&x, "EL") == Some(1));
    assert!(PathUtil::contains(&x, "LP"));
}

#[test]
fn path_bytes() {
    let x = Path::new("/tmp/\u{e9}t\u{e9}/x");
    assert_eq!(x.len_bytes(), 12);
    assert_eq!(PathUtil::find(&x, "t"), Some(1));
    assert_eq!(PathUtil::find(&x, "t\u{e9}"), Some(7));
    assert_eq!(PathUtil::find(&x, "/x"), Some(10));
    assert_eq!(PathUtil::find(&x, "/y"), None);
    assert!(!PathUtil::contains(&x, "/tmp/\u{e9}t\u{e9}/x/"));
    assert_eq!(x.raw_concat(&vec![".bak".to_string(), "".to_string(), "2".to_string()]), "/tmp/\u{e9}t\u{e9}/x.bak2");
    assert_eq!(x.raw_concat(&Vec::new()), "/tmp/\u{e9}t\u{e9}/x");
}

#[test]
fn find_bytes_first_occurrence() {
    assert_eq!(find_bytes(b"abcabc", b"bc"), Some(1));
    assert_eq!(find_bytes(b"abcabc", b"abcabc"), Some(0));
    assert_eq!(find_bytes(b"abc", b"abcd"), None);
    assert_eq!(find_bytes(b"", b"a"), None);
    assert_eq!(find_bytes(b"aaab", b"ab"), Some(2));
}

#[test]
fn concat_joins() {
    assert_eq!(StringUtil::concat("ab", "cd"), "abcd");
    assert_eq!(StringUtil::concat("", ""), "");
    assert_eq!(StringUtil::concat(&"x".to_string(), &"y".to_string()), "xy");
}

#[test]
fn left_justify_pads_on_the_right() {
    assert_eq!(left_justify("ab", '.', 5), "ab...");
    assert_eq!(left_justify("abcde", '.', 5), "abcde");
    assert_eq!(left_justify("abcdef", '.', 5), "abcdef");
    assert_eq!(left_justify("ab", '\0', 5), "ab");
    assert_eq!(left_justify("\u{e9}", '-', 3), "\u{e9}--");
    assert_eq!(StringUtil::left_justify("a", ' ', 2), "a ");
    assert_eq!("a".to_string().left_justify('*', 3), "a**");
}

#[test]
fn levenshtein_known_distances() {
    assert_eq!(levenshtein_distance("", ""), 0);
    assert_eq!(levenshtein_distance("", "abc"), 3);
    assert_eq!(levenshtein_distance("abc", ""), 3);
    assert_eq!(levenshtein_distance("abc", "abc"), 0);
    assert_eq!(levenshtein_distance("kitten", "sitting"), 3);
    assert_eq!(levenshtein_distance("flaw", "lawn"), 2);
    assert_eq!(levenshtein_distance("saturday", "sunday"), 3);
    assert_eq!(levenshtein_distance("\u{e9}t\u{e9}", "ete"), 2);
    assert_eq!(StringUtil::levenshtein_distance("gumbo", "gambol"), 2);
    assert_eq!("a".to_string().levenshtein_distance(&"b".to_string()), 1);
}

#[test]
fn levenshtein_with_a_long_second_string() {
    let a = "x".repeat(3);
    let b = "y".repeat(100);
    assert_eq!(levenshtein_distance(&a, &b), 100);
    let c = format!("{}{}", "y".repeat(70), "z");
    assert_eq!(levenshtein_distance(&"y".repeat(70), &c), 1);
}

#[test]
fn parse_unsigned_reads_decimal_digits_only() {
    assert_eq!(parse_unsigned("0", 10), Some(0));
    assert_eq!(parse_unsigned("007", 10), Some(7));
    assert_eq!(parse_unsigned("+42", 65535), Some(42));
    assert_eq!(parse_unsigned("65535", 65535), Some(65535));
    assert_eq!(parse_unsigned("65536", 65535), None);
    assert_eq!(parse_unsigned("18446744073709551615", u64::MAX), Some(u64::MAX));
    assert_eq!(parse_unsigned("18446744073709551616", u64::MAX), None);
    assert_eq!(parse_unsigned("99999999999999999999999", u64::MAX), None);
    for bad in ["", "+", "-1", " 1", "1 ", "1_000", "0x10", "++1", "1+", "\u{663}"] {
        assert_eq!(parse_unsigned(bad, u64::MAX), None, "{bad:?}");
    }
}

#[test]
fn decimal_strings() {
    assert_eq!(decimal_string(0), "0");
    assert_eq!(decimal_string(9), "9");
    assert_eq!(decimal_string(10), "10");
    assert_eq!(decimal_string(1234567890), "1234567890");
    assert_eq!(decimal_string(u64::MAX), "18446744073709551615");
    assert_eq!(signed_decimal_string(-1), "-1");
    assert_eq!(signed_decimal_string(0), "0");
    assert_eq!(signed_decimal_string(i64::MIN), "-9223372036854775808");
    assert_eq!(signed_decimal_string(i64::MAX), "9223372036854775807");
    for n in [0u64, 5, 10, 99, 100, 65535, 4294967295] {
        assert_eq!(parse_unsigned(&decimal_string(n), u64::MAX), Some(n));
        assert_eq!(decimal_string(n), n.to_string());
    }
}

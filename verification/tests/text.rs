use falcon::bytes::{get_be, get_le, put_be};
use falcon::event::{millis_at, millis_of, now_millis};
use falcon::text::{
    after_prefix, before_suffix, concat3, contains, join, parse_numeral, path_join, same, show, split, to_lower,
    trim,
};

#[test]
fn trimming_and_case() {
    assert_eq!(trim(" \t\u{3000}a b\u{85}\n"), "a b");
    assert_eq!(trim("   "), "");
    assert_eq!(to_lower("ÄBc-Z"), "Äbc-z");
}

#[test]
fn splitting_and_joining() {
    assert_eq!(split("a,,b", ','), vec!["a", "", "b"]);
    assert_eq!(split("", ','), vec![""]);
    assert_eq!(join(&["a".to_string(), "b".to_string()], ", "), "a, b");
    assert_eq!(join(&[], ", "), "");
    assert_eq!(concat3("a", "", "c"), "ac");
}

#[test]
fn prefixes_suffixes_and_parts() {
    assert_eq!(after_prefix("Bearer x", "Bearer "), Some("x".to_string()));
    assert_eq!(after_prefix("Bear", "Bearer "), None);
    assert_eq!(before_suffix("a.off", ".off"), Some("a".to_string()));
    assert_eq!(before_suffix("a.on", ".off"), None);
    assert!(contains("abcabd", "abd"));
    assert!(contains("abc", ""));
    assert!(!contains("ab", "abc"));
    assert!(same("é", "é") && !same("e", "é"));
}

#[test]
fn paths() {
    assert_eq!(path_join("a", "b"), "a/b");
    assert_eq!(path_join("a/", "b"), "a/b");
    assert_eq!(path_join("", "b"), "b");
    assert_eq!(path_join("a", "/b"), "/b");
}

#[test]
fn numerals() {
    assert_eq!(parse_numeral("007", u64::MAX), Some(7));
    assert_eq!(parse_numeral("18446744073709551615", u64::MAX), Some(u64::MAX));
    assert_eq!(parse_numeral("18446744073709551616", u64::MAX), None);
    assert_eq!(parse_numeral("256", 255), None);
    for bad in ["", "+", "-1", "1_0", " 1"] {
        assert_eq!(parse_numeral(bad, u64::MAX), None, "{bad}");
    }
    assert_eq!(show(0), "0");
    assert_eq!(show(u128::MAX), u128::MAX.to_string());
}

#[test]
fn integers_as_bytes() {
    let mut out = vec![9];
    put_be(&mut out, 0x0102, 4);
    assert_eq!(out, vec![9, 0, 0, 1, 2]);
    assert_eq!(get_be(&out, 1, 4), 0x0102);
    assert_eq!(get_le(&out, 3, 2), 0x0201);
    assert_eq!(get_le(&out, 0, 0), 0);
}

#[test]
fn times_in_milliseconds() {
    assert_eq!(millis_of(0, 0), 0);
    assert_eq!(millis_of(3, 999_999_999), 3_999);
    assert_eq!(millis_at(Some((3, 999_999_999))), Some(3_999));
    assert_eq!(millis_at(None), None);
    let a = now_millis().unwrap();
    assert!(a > 1_600_000_000_000);
    assert!(a < 100_000_000_000_000);
}

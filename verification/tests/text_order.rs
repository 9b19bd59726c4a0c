use diff_core::order::{sorted_unique_order, string_eq, string_lt};
use diff_core::text::{char_is_white_space, ends_with, i64_to_decimal, is_blank, starts_with, u64_to_decimal};

#[test]
fn decimal_matches_to_string() {
    for n in [0u64, 7, 10, 42, 1000, 4294967295, u64::MAX] {
        assert_eq!(u64_to_decimal(n), n.to_string());
    }
    for n in [0i64, -1, -32601, 32000, i64::MIN, i64::MAX] {
        assert_eq!(i64_to_decimal(n), n.to_string());
    }
}

#[test]
fn blank_matches_trim_is_empty() {
    for s in ["", "   ", "\t\n", "\u{3000}\u{2028}", " a ", "x", "\u{200B}"] {
        assert_eq!(is_blank(s), s.trim().is_empty(), "{s:?}");
    }
    for c in ['\u{85}', '\u{a0}', '\u{1680}', ' ', 'a', '\u{200b}', '\u{feff}'] {
        assert_eq!(char_is_white_space(c), c.is_whitespace(), "{c:?}");
    }
}

#[test]
fn prefixes_and_suffixes() {
    assert!(starts_with("event: x", "event: "));
    assert!(!starts_with("even", "event: "));
    assert!(ends_with("index.lock", ".lock"));
    assert!(!ends_with("lock", ".lock"));
}

#[test]
fn string_order_is_rusts() {
    let words = ["b", "a", "ab", "", "é", "z", "Z", "aa"];
    for x in words {
        for y in words {
            assert_eq!(string_lt(x, y), x < y, "{x:?} < {y:?}");
            assert_eq!(string_eq(x, y), x == y);
        }
    }
}

#[test]
fn sorted_unique_order_sorts_and_keeps_first() {
    let keys: Vec<String> = ["c", "a", "b", "a", "c"].iter().map(|s| s.to_string()).collect();
    let order = sorted_unique_order(&keys);
    assert_eq!(order, vec![1, 2, 0]);
    let empty: Vec<String> = Vec::new();
    assert!(sorted_unique_order(&empty).is_empty());
}

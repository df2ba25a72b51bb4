//! Short ASCII texts.

use h1codec::text::{contains, parse_u64, same, to_lowercase};

#[test]
fn texts_are_compared() {
    assert!(same(b"", b""));
    assert!(same(b"abc", b"abc"));
    assert!(!same(b"abc", b"abd"));
    assert!(!same(b"abc", b"ab"));
}

#[test]
fn texts_are_searched() {
    assert!(contains(b"abcd", b"bc"));
    assert!(contains(b"abcd", b"abcd"));
    assert!(contains(b"abcd", b"d"));
    assert!(contains(b"", b""));
    assert!(!contains(b"abcd", b"bd"));
    assert!(!contains(b"ab", b"abc"));
    assert!(contains(b"aab", b"ab"));
}

#[test]
fn letters_become_small() {
    assert_eq!(to_lowercase(b"aZ-[@`{\xc4"), b"az-[@`{\xc4".to_vec());
}

#[test]
fn numbers_are_read() {
    assert_eq!(parse_u64(b"0"), Some(0));
    assert_eq!(parse_u64(b"+12"), Some(12));
    assert_eq!(parse_u64(b"0000000000000000000000001"), Some(1));
    assert_eq!(parse_u64(b"18446744073709551615"), Some(18_446_744_073_709_551_615));
    for text in ["", "+", "-1", "++1", " 1", "1 ", "1a", "18446744073709551616",
        "99999999999999999999999"]
        .iter()
    {
        assert_eq!(parse_u64(text.as_bytes()), None, "{}", text);
        assert!(text.parse::<u64>().is_err());
    }
}

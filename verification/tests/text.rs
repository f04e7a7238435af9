use cooliris::text::{
    contains, from_chars, is_word, matches_at, push_signed, read_signed, read_unsigned, shorten,
    shorten_left, to_chars, to_decimal, trim_bounds,
};

fn unsigned(s: &str) -> Option<u64> {
    let c = to_chars(s);
    read_unsigned(&c, 0, c.len())
}

fn signed(s: &str) -> Option<i64> {
    let c = to_chars(s);
    read_signed(&c, 0, c.len())
}

#[test]
fn decimals_read_back() {
    for n in [0u64, 7, 10, 99, 100, 18_446_744_073_709_551_615] {
        assert_eq!(unsigned(&to_decimal(n)), Some(n));
    }
    assert_eq!(to_decimal(1_048_576), "1048576");
    let mut s = String::from("aid=");
    push_signed(&mut s, -42);
    assert_eq!(s, "aid=-42");
    let mut low = String::new();
    push_signed(&mut low, i64::MIN);
    assert_eq!(low, "-9223372036854775808");
    assert_eq!(signed(&low), Some(i64::MIN));
}

#[test]
fn numbers_are_read_as_the_standard_library_reads_them() {
    for s in [
        "", "+", "-", "0", "+5", "-5", "05", "5x", " 5", "--5", "18446744073709551615",
        "18446744073709551616", "9223372036854775807", "9223372036854775808",
        "-9223372036854775808", "-9223372036854775809",
    ] {
        assert_eq!(unsigned(s), s.parse::<u64>().ok(), "{s:?}");
        assert_eq!(signed(s), s.parse::<i64>().ok(), "{s:?}");
    }
}

#[test]
fn parts_are_found() {
    let whole = to_chars("holiday in rome");
    assert!(contains(&whole, &to_chars("day in")));
    assert!(contains(&whole, &to_chars("")));
    assert!(!contains(&whole, &to_chars("roma")));
    assert!(!contains(&to_chars("ab"), &to_chars("abc")));
    assert!(matches_at(&whole, &to_chars("in"), 8));
    assert!(!matches_at(&whole, &to_chars("in"), 7));
}

#[test]
fn words_match_whatever_their_ascii_case() {
    assert!(is_word(&to_chars("JpEg"), "jpeg"));
    assert!(!is_word(&to_chars("jpe"), "jpeg"));
    assert!(!is_word(&to_chars("jpegs"), "jpeg"));
}

#[test]
fn long_texts_are_shortened() {
    assert_eq!(shorten("short.jpg", 22), "short.jpg");
    assert_eq!(shorten("abcdefghijklmnopqrstuv", 22), "abcdefghijklmnopqrstuv");
    assert_eq!(shorten("abcdefghijklmnopqrstuvw", 22), "abcdefghijklmnopqrstu\u{2026}");
    assert_eq!(shorten_left("/a/b/c.jpg", 72), "/a/b/c.jpg");
    assert_eq!(shorten_left("0123456789", 4), "\u{2026}789");
}

#[test]
fn white_space_around_a_text_is_dropped() {
    for s in ["", "  ", " a ", "\u{3000}x y\t\n", "plain", "\u{a0}z"] {
        let c = to_chars(s);
        let (from, to) = trim_bounds(&c);
        assert_eq!(from_chars(&c, from, to), s.trim(), "{s:?}");
    }
}

use dircmp::{decimal, fit_clusters, fixed_length};

#[test]
fn fixed_length_pads_short_text() {
    assert_eq!(fixed_length("abc", 5, " "), "abc  ");
}

#[test]
fn fixed_length_cuts_long_text() {
    assert_eq!(fixed_length("abcdefgh", 5, " "), "abcde");
}

#[test]
fn fixed_length_exact_width_unchanged() {
    assert_eq!(fixed_length("abcde", 5, " "), "abcde");
}

#[test]
fn fixed_length_zero_width_is_empty() {
    assert_eq!(fixed_length("abc", 0, " "), "");
}

#[test]
fn fixed_length_keeps_clusters_whole() {
    let s = "a\u{310}e\u{301}o\u{308}\u{332}";
    assert_eq!(fixed_length(s, 2, " "), "a\u{310}e\u{301}");
    assert_eq!(fixed_length(s, 4, "-"), "a\u{310}e\u{301}o\u{308}\u{332}-");
}

#[test]
fn fixed_length_counts_clusters_not_bytes() {
    assert_eq!(fixed_length("\u{e9}t\u{e9}", 4, "."), "\u{e9}t\u{e9}.");
    assert_eq!(fixed_length("a\r\nb", 2, " "), "a\r\n");
}

#[test]
fn fixed_length_multichar_padding() {
    assert_eq!(fixed_length("x", 3, "ab"), "xabab");
}

#[test]
fn fit_clusters_joins_and_pads() {
    let cl = vec!["ab".to_string(), "c".to_string()];
    assert_eq!(fit_clusters(&cl, 4, "_"), "abc__");
    assert_eq!(fit_clusters(&cl, 1, "_"), "ab");
    assert_eq!(fit_clusters(&Vec::new(), 2, " "), "  ");
}

#[test]
fn decimal_writes_digits() {
    assert_eq!(decimal(0), "0");
    assert_eq!(decimal(7), "7");
    assert_eq!(decimal(10), "10");
    assert_eq!(decimal(1234509), "1234509");
    assert_eq!(decimal(usize::MAX), usize::MAX.to_string());
}

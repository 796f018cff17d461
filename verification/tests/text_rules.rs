use vellum::text::{compact, decimal_string, lower_ascii, take_prefix, trimmed};

#[test]
fn compact_collapses_and_cuts() {
    assert_eq!(compact("  a \t b\n\nc  ", 80), "a b c");
    assert_eq!(compact("abcdef", 3), "abc…");
    assert_eq!(compact("abc", 3), "abc");
    assert_eq!(compact("\u{3000}", 3), "");
}

#[test]
fn trimming_and_prefixes() {
    assert_eq!(trimmed("\u{a0} 沈砚 \r\n"), "沈砚");
    assert_eq!(take_prefix("沈砚站在", 2), "沈砚");
    assert_eq!(take_prefix("沈", 5), "沈");
    assert_eq!(lower_ascii("EPub-Ä"), "epub-Ä");
}

#[test]
fn decimals() {
    assert_eq!(decimal_string(0), "0");
    assert_eq!(decimal_string(1200), "1200");
    assert_eq!(decimal_string(usize::MAX), usize::MAX.to_string());
}

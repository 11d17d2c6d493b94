use ruso_cli::util::truncate_str;

#[test]
fn truncate_short_unchanged() {
    assert_eq!(truncate_str("hi", 10), "hi");
}

#[test]
fn truncate_long_adds_ellipsis() {
    let out = truncate_str("abcdefghij", 5);
    assert!(out.starts_with("abcde"));
    assert!(out.ends_with('…'));
    assert!(out.len() > 5);
}

#[test]
fn truncate_exact_length_unchanged() {
    assert_eq!(truncate_str("abcde", 5), "abcde");
    assert_eq!(truncate_str("abcdef", 5), "abcde…");
    assert_eq!(truncate_str("", 0), "");
}

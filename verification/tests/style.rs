use ruso_cli::style::{error_tag, paint, severity_code, severity_tag, status_tag, warn_tag, RESET, TAG_WIDTH};

#[test]
fn plain_when_disabled_and_padded() {
    let s = severity_tag(false, "high");
    assert_eq!(s, "[HIGH]    "); // padded to TAG_WIDTH, no escapes
    assert!(!s.contains('\x1b'));
}

#[test]
fn coloured_when_enabled() {
    let s = severity_tag(true, "critical");
    assert!(s.starts_with("\x1b[1;95m"), "got {s:?}");
    assert!(s.ends_with(RESET));
    assert!(s.contains("[CRITICAL]"));
}

#[test]
fn tags_share_one_column_width() {
    assert_eq!(status_tag(false, "OK").len(), TAG_WIDTH);
    assert_eq!(status_tag(false, "ERROR").len(), TAG_WIDTH);
    assert_eq!(severity_tag(false, "low").len(), TAG_WIDTH);
    assert_eq!(severity_tag(false, "critical").len(), TAG_WIDTH);
}

#[test]
fn unknown_severity_is_uncoloured() {
    assert_eq!(severity_code("weird"), "0");
    // still padded and bracketed, just no colour
    assert_eq!(severity_tag(false, "weird"), "[WEIRD]   ");
}

#[test]
fn paint_wraps_only_when_enabled() {
    assert_eq!(paint(false, "1", "x"), "x");
    assert_eq!(paint(true, "1", "x"), "\x1b[1mx\x1b[0m");
    assert_eq!(error_tag(false), "[ERROR]");
    assert_eq!(warn_tag(false), "[WARNING]");
}

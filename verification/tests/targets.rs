use ruso_cli::targets::{discover_targets, is_url, parse_target_line, TargetError, TargetPath};

#[test]
fn discovers_single_url() {
    assert_eq!(
        discover_targets("https://example.com", &TargetPath::Missing).unwrap(),
        vec!["https://example.com".to_string()]
    );
}

#[test]
fn reads_targets_file() {
    let content = "# lab\nhttp://127.0.0.1:19080\nhttps://example.com\n\n";
    let lines: Vec<String> = content.lines().map(|l| l.to_string()).collect();
    let probe = TargetPath::File(Ok((lines, content.len() as u64)));
    let urls = discover_targets("/tmp/ruso_targets_test/targets.txt", &probe).unwrap();
    assert_eq!(urls.len(), 2);
    assert_eq!(urls[0], "http://127.0.0.1:19080");
}

#[test]
fn preserves_url_fragment() {
    let url = parse_target_line("https://app.example/path#section").unwrap();
    assert_eq!(url, "https://app.example/path#section");
}

#[test]
fn comment_line_with_hash_first_is_ignored() {
    assert!(parse_target_line("# https://example.com").is_none());
    assert!(parse_target_line("   # comment").is_none());
}

#[test]
fn is_url_rejects_bare_scheme() {
    assert!(!is_url("http://"));
    assert!(!is_url("https://"));
    assert!(!is_url("https:///just-a-path"));
}

#[test]
fn is_url_accepts_normal_urls() {
    assert!(is_url("http://example.com"));
    assert!(is_url("https://127.0.0.1:8443"));
    assert!(is_url("http://[::1]:8080"));
}

#[test]
fn target_errors_by_kind() {
    assert!(matches!(discover_targets("   ", &TargetPath::Missing), Err(TargetError::Invalid(_))));
    assert!(matches!(discover_targets("somedir", &TargetPath::Other), Err(TargetError::NotFound(_))));
    assert!(matches!(discover_targets("nope", &TargetPath::Missing), Err(TargetError::Invalid(_))));
    let empty = TargetPath::File(Ok((Vec::new(), 0)));
    assert!(matches!(discover_targets("t.txt", &empty), Err(TargetError::EmptyFile(_))));
    let comments = TargetPath::File(Ok((vec!["# only".to_string()], 7)));
    assert!(matches!(discover_targets("t.txt", &comments), Err(TargetError::NoValidTargets(_))));
    let failed = TargetPath::File(Err("denied".to_string()));
    match discover_targets("t.txt", &failed) {
        Err(e @ TargetError::Io { .. }) => assert_eq!(e.message(), "failed to read t.txt: denied"),
        _ => panic!("expected Io"),
    }
}

use ruso_cli::install_store::{
    all_matching_versions, best_local_match, installed_versions, parse_ref, pick_match, pick_remote,
    use_cached, CacheMode, InstallError, InstallStore, RegistryRef,
};
use ruso_cli::registry::VersionSummary;
use semver::Version;

#[test]
fn parse_ref_basic() {
    let r = parse_ref("alice/log4shell").unwrap();
    assert_eq!(r.namespace, "alice");
    assert_eq!(r.name, "log4shell");
    assert!(r.range.is_none());
}

#[test]
fn parse_ref_with_range() {
    let r = parse_ref("alice/log4shell@^1.2").unwrap();
    assert_eq!(r.range.as_deref(), Some("^1.2"));
}

#[test]
fn parse_ref_rejects_paths() {
    assert!(parse_ref("./foo/bar").is_none());
    assert!(parse_ref("/abs/foo/bar").is_none());
    assert!(parse_ref("~/foo/bar").is_none());
    assert!(parse_ref("foo/bar/baz").is_none()); // three segments
    assert!(parse_ref("Foo/bar").is_none()); // uppercase
    assert!(parse_ref("foo/bar@").is_none()); // empty range
}

#[test]
fn pick_match_newest_first() {
    let installed = vec![
        Version::parse("2.0.0").unwrap().to_string(),
        Version::parse("1.2.1").unwrap().to_string(),
        Version::parse("1.1.0").unwrap().to_string(),
    ];
    let got = pick_match(&installed, Some("^1")).unwrap();
    assert_eq!(got, "1.2.1");
}

fn version(v: &str, yanked: bool) -> VersionSummary {
    VersionSummary {
        version: v.to_string(),
        size_bytes: 10,
        tags: Vec::new(),
        published_at: "2024-01-01T00:00:00Z".to_string(),
        yanked_at: if yanked { Some("2024-02-01T00:00:00Z".to_string()) } else { None },
        download_count: 0,
    }
}

#[test]
fn display_round_trips_the_reference() {
    for text in ["alice/log4shell", "alice/log4shell@^1.2", "a-1/b2@>=1.0,<2.0"] {
        let r = parse_ref(text).unwrap();
        assert_eq!(r.display(), text);
    }
}

#[test]
fn parse_ref_splits_at_first_at_and_slash() {
    let r = parse_ref("ns/name@1.0.0@x").unwrap();
    assert_eq!(r.namespace, "ns");
    assert_eq!(r.name, "name");
    assert_eq!(r.range.as_deref(), Some("1.0.0@x"));
    assert!(parse_ref("ns/na me").is_none());
    assert!(parse_ref("ns\\name").is_none());
    assert!(parse_ref("-ns/name").is_none());
    assert!(parse_ref("nsname").is_none());
    let long = "a".repeat(40);
    assert!(parse_ref(&format!("{long}/x")).is_none());
    assert!(parse_ref(&format!("{}/x", "a".repeat(39))).is_some());
}

#[test]
fn remote_pick_is_newest_non_yanked_match() {
    let published = vec![
        version("1.0.0", false),
        version("1.3.0", true),
        version("1.2.0", false),
        version("2.0.0", false),
        version("not-a-version", false),
    ];
    let got = pick_remote(&published, "alice", "x", Some("^1")).unwrap();
    assert_eq!(got, "1.2.0");
    let any = pick_remote(&published, "alice", "x", None).unwrap();
    assert_eq!(any, "2.0.0");
}

#[test]
fn remote_pick_reports_no_match_and_bad_range() {
    let published = vec![version("1.0.0", false), version("3.0.0", true)];
    match pick_remote(&published, "alice", "x", Some("^3")) {
        Err(InstallError::NoMatchingVersion { namespace, name, range }) => {
            assert_eq!(namespace, "alice");
            assert_eq!(name, "x");
            assert_eq!(range, "^3");
        }
        _ => panic!("expected NoMatchingVersion"),
    }
    match pick_remote(&Vec::new(), "alice", "x", None) {
        Err(InstallError::NoMatchingVersion { range, .. }) => assert_eq!(range, "*"),
        _ => panic!("expected NoMatchingVersion"),
    }
    match pick_remote(&published, "alice", "x", Some("not a range")) {
        Err(e @ InstallError::BadRange { .. }) => {
            assert!(e.message().starts_with("invalid SemVer range `not a range`: "));
        }
        _ => panic!("expected BadRange"),
    }
}

#[test]
fn installed_versions_are_newest_first_and_skip_other_files() {
    let entries = vec![
        "/c/scripts/a/b/1.0.0.bc".to_string(),
        "/c/scripts/a/b/1.10.0.bc".to_string(),
        "/c/scripts/a/b/1.2.0.bc".to_string(),
        "/c/scripts/a/b/notes.txt".to_string(),
        "/c/scripts/a/b/garbage.bc".to_string(),
        "/c/scripts/a/b/2.0.0-rc.1.bc".to_string(),
    ];
    let got = installed_versions(&entries);
    assert_eq!(got, vec!["2.0.0-rc.1", "1.10.0", "1.2.0", "1.0.0"]);
}

#[test]
fn best_local_match_uses_first_satisfying_version() {
    let installed = vec!["2.1.0".to_string(), "1.4.0".to_string(), "1.0.0".to_string()];
    assert_eq!(best_local_match(&installed, Some("~1.0")).unwrap(), Some("1.0.0".to_string()));
    assert_eq!(best_local_match(&installed, None).unwrap(), Some("2.1.0".to_string()));
    assert_eq!(best_local_match(&installed, Some("^3")).unwrap(), None);
    assert!(matches!(best_local_match(&installed, Some("^^")), Err(InstallError::BadRange { .. })));
}

#[test]
fn all_versions_are_newest_first_within_range() {
    let published = vec![
        version("1.0.0", false),
        version("1.5.0", false),
        version("1.7.0", true),
        version("2.0.0", false),
    ];
    assert_eq!(all_matching_versions(&published, Some("^1")).unwrap(), vec!["1.5.0", "1.0.0"]);
    assert_eq!(all_matching_versions(&published, None).unwrap(), vec!["2.0.0", "1.5.0", "1.0.0"]);
    let err = all_matching_versions(&published, Some("x.y")).unwrap_err();
    assert!(err.starts_with("invalid SemVer range `x.y`: "));
}

#[test]
fn store_layout() {
    let store = InstallStore::default_for_user(Some("/tmp/ruso"), Some("/home/u")).unwrap();
    assert_eq!(store.root(), "/tmp/ruso");
    assert_eq!(store.script_dir("alice", "x"), "/tmp/ruso/scripts/alice/x");
    assert_eq!(store.bytecode_path("alice", "x", "1.2.3"), "/tmp/ruso/scripts/alice/x/1.2.3.bc");
    let home = InstallStore::default_for_user(Some(""), Some("/home/u")).unwrap();
    assert_eq!(home.root(), "/home/u/.ruso");
    assert!(matches!(InstallStore::default_for_user(None, None), Err(InstallError::NoHomeDir)));
    assert_eq!(InstallError::NoHomeDir.message(), "could not determine home directory");
}

#[test]
fn cache_mode_decides_reuse() {
    assert!(use_cached(&CacheMode::UseCache, true));
    assert!(!use_cached(&CacheMode::UseCache, false));
    assert!(!use_cached(&CacheMode::Force, true));
    let r = RegistryRef { namespace: "a".into(), name: "b".into(), range: None };
    assert_eq!(r.display(), "a/b");
}

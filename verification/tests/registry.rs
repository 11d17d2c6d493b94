use ruso_cli::registry::{
    bytecode_download_path, default_registry, status_error, status_ok, resolve_base_url, script_path, search_query,
    strip_trailing_slash, token_path, unyank_path, upload_file_name, yank_path, yank_request, RegistryError,
    SearchParams,
};

#[test]
fn base_url_priority_flag_env_default() {
    assert_eq!(resolve_base_url(Some("https://r.example/"), Some("https://env")), "https://r.example");
    assert_eq!(resolve_base_url(None, Some("https://env//")), "https://env");
    assert_eq!(resolve_base_url(None, Some("")), "http://127.0.0.1:8080");
    assert_eq!(resolve_base_url(None, None), default_registry());
    assert_eq!(strip_trailing_slash("///"), "");
    assert_eq!(strip_trailing_slash("a/b"), "a/b");
}

#[test]
fn endpoint_paths() {
    assert_eq!(script_path("alice", "x"), "/v1/scripts/alice/x");
    assert_eq!(bytecode_download_path("alice", "x", "1.0.0"), "/v1/scripts/alice/x/versions/1.0.0/bytecode");
    assert_eq!(yank_path("a", "b", "2.0.0"), "/v1/scripts/a/b/versions/2.0.0/yank");
    assert_eq!(unyank_path("a", "b", "2.0.0"), "/v1/scripts/a/b/versions/2.0.0/unyank");
    assert_eq!(token_path("t1"), "/v1/tokens/t1");
    assert_eq!(upload_file_name("x"), "x.ruso");
    assert!(yank_request(None).is_none());
    assert_eq!(yank_request(Some("bad")).unwrap().reason.as_deref(), Some("bad"));
}

#[test]
fn status_classification() {
    assert!(status_ok(200));
    assert!(status_ok(204));
    assert!(!status_ok(302));
    assert!(!status_ok(401));
    assert!(matches!(status_error(401, "/p", "x"), RegistryError::Unauthorized));
    let e = status_error(404, "/v1/x", "missing");
    assert_eq!(e.message(), "registry returned 404 at /v1/x: missing");
    assert!(matches!(status_error(302, "/p", ""), RegistryError::Http { status: 302, .. }));
}

#[test]
fn error_messages() {
    assert_eq!(RegistryError::Network("reset".into()).message(), "network error: reset");
    assert_eq!(
        RegistryError::BadUrl { url: "x".into(), reason: "bad".into() }.message(),
        "invalid registry URL `x`: bad"
    );
    assert_eq!(RegistryError::Unauthorized.message(), "authentication required (run `ruso login --token …`)");
    assert_eq!(RegistryError::Decode("eof".into()).message(), "decode error: eof");
}

#[test]
fn search_query_order() {
    let p = SearchParams {
        q: Some("log4j".into()),
        severity: None,
        cve: Some("CVE-1".into()),
        namespace: None,
        family: Some("web".into()),
        tags: vec!["a".into(), "b".into()],
        page: Some(2),
        per_page: Some(100),
    };
    let q = search_query(&p);
    let pairs: Vec<(&str, &str)> = q.iter().map(|(k, v)| (k.as_str(), v.as_str())).collect();
    assert_eq!(
        pairs,
        vec![("q", "log4j"), ("cve", "CVE-1"), ("family", "web"), ("tag", "a"), ("tag", "b"), ("page", "2"), ("per_page", "100")]
    );
    assert!(search_query(&SearchParams::default()).is_empty());
}

#[test]
fn base_url_must_parse() {
    assert!(ruso_cli::registry::check_base_url("http://127.0.0.1:8080").is_ok());
    match ruso_cli::registry::check_base_url("not a url") {
        Err(RegistryError::BadUrl { url, reason }) => {
            assert_eq!(url, "not a url");
            assert_eq!(reason, "relative URL without a base");
        }
        _ => panic!("expected BadUrl"),
    }
    assert_eq!(ruso_cli::registry::endpoint_url("http://r", "/v1/me"), "http://r/v1/me");
}

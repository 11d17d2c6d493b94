use ruso_cli::scheme::{cert_warning, next_step, DefaultScheme, ResolveOptions, Resolved, SchemeStep};

fn http_scan_opts() -> ResolveOptions {
    ResolveOptions { verify_ssl: true, needs_http: true, default_scheme: DefaultScheme::Https, probe: true, proxy: None }
}

fn done(target: &str, opts: &ResolveOptions, answers: &[bool]) -> (String, bool) {
    match next_step(target, opts, &answers.to_vec()) {
        SchemeStep::Done { url, cert_warned } => (url, cert_warned),
        SchemeStep::Probe { .. } => panic!("expected a decision"),
    }
}

#[test]
fn url_targets_pass_through_unchanged() {
    assert_eq!(done("https://a.example", &http_scan_opts(), &[]), ("https://a.example".to_string(), false));
    assert_eq!(done("http://b.example:8080", &http_scan_opts(), &[]), ("http://b.example:8080".to_string(), false));
}

#[test]
fn socket_scan_keeps_http_carrier() {
    let opts = ResolveOptions { needs_http: false, ..http_scan_opts() };
    assert_eq!(done("db.internal:6379", &opts, &[]).0, "http://db.internal:6379");
}

#[test]
fn probe_disabled_applies_default_scheme() {
    let opts = ResolveOptions { probe: false, ..http_scan_opts() };
    assert_eq!(done("x.example", &opts, &[]).0, "https://x.example");
    let opts = ResolveOptions { probe: false, default_scheme: DefaultScheme::Http, ..http_scan_opts() };
    assert_eq!(done("x.example", &opts, &[]).0, "http://x.example");
}

#[test]
fn probes_https_first_then_http() {
    let opts = http_scan_opts();
    match next_step("h", &opts, &vec![]) {
        SchemeStep::Probe { url, verify_ssl } => {
            assert_eq!(url, "https://h");
            assert!(verify_ssl);
        }
        _ => panic!(),
    }
    match next_step("h", &opts, &vec![false]) {
        SchemeStep::Probe { url, verify_ssl } => {
            assert_eq!(url, "https://h");
            assert!(!verify_ssl);
        }
        _ => panic!(),
    }
    match next_step("h", &opts, &vec![false, false]) {
        SchemeStep::Probe { url, verify_ssl } => {
            assert_eq!(url, "http://h");
            assert!(verify_ssl);
        }
        _ => panic!(),
    }
    assert_eq!(done("h", &opts, &[true]), ("https://h".to_string(), false));
    assert_eq!(done("h", &opts, &[false, true]), ("https://h".to_string(), true));
    assert_eq!(done("h", &opts, &[false, false, true]), ("http://h".to_string(), false));
    assert_eq!(done("h", &opts, &[false, false, false]), ("https://h".to_string(), false));
}

#[test]
fn bare_host_falls_back_to_http_when_443_dead() {
    // Both https probes fail (no TLS on the port); the cleartext probe answers.
    let target = "127.0.0.1:8080";
    assert_eq!(done(target, &http_scan_opts(), &[false, false, true]).0, format!("http://{target}"));
}

#[test]
fn record_keeps_each_warned_url_once() {
    let mut r = Resolved::new();
    r.record("https://a".into(), true);
    r.record("https://a".into(), true);
    r.record("https://b".into(), false);
    assert_eq!(r.urls, vec!["https://a", "https://a", "https://b"]);
    assert_eq!(r.cert_warned, vec!["https://a"]);
    assert!(cert_warning("h").starts_with("h: 443 is reachable"));
    assert_eq!(DefaultScheme::Http.as_str(), "http");
}

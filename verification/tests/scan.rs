use ruso_cli::report::{ScanResultRecord, ScanRunReport};
use ruso_cli::scan::{
    cert_hint_needed, effective_concurrency, is_cert_failure, is_raw_bytecode, job_plan, live_output, multi_target,
    push_completed, select_scan_input, ScanSelection,
};

fn record(target: &str) -> ScanResultRecord {
    ScanResultRecord {
        target: target.into(),
        script: "s".into(),
        success: true,
        detected: false,
        check: None,
        error: None,
        skip_reason: None,
        findings: Vec::new(),
        skipped: false,
        port_checks: Vec::new(),
    }
}

#[test]
fn scan_selection_is_exclusive() {
    assert_eq!(
        select_scan_input(Some("a"), Some("b")).err().unwrap(),
        "--script and --family are mutually exclusive; pass only one"
    );
    assert_eq!(
        select_scan_input(None, None).err().unwrap(),
        "nothing to scan: pass --script <path|ref> or --family <name>"
    );
    assert!(matches!(select_scan_input(Some("a"), None), Ok(ScanSelection::Script(s)) if s == "a"));
    assert!(matches!(select_scan_input(None, Some("web")), Ok(ScanSelection::Family(s)) if s == "web"));
}

#[test]
fn plan_is_target_major() {
    assert_eq!(job_plan(2, 3), vec![(0, 0), (0, 1), (0, 2), (1, 0), (1, 1), (1, 2)]);
    assert!(job_plan(0, 5).is_empty());
    assert_eq!(effective_concurrency(0), 1);
    assert_eq!(effective_concurrency(16), 16);
    assert!(multi_target(2));
    assert!(!multi_target(1));
}

#[test]
fn certificate_failures_and_hint() {
    assert!(is_cert_failure("invalid peer CERTIFICATE: UnknownIssuer"));
    assert!(!is_cert_failure("connection reset"));
    let failed = vec!["https://a".to_string(), "https://b".to_string()];
    assert!(!cert_hint_needed(false, &failed, &vec![]));
    assert!(cert_hint_needed(true, &failed, &vec!["https://a".to_string()]));
    assert!(!cert_hint_needed(true, &failed, &failed.clone()));
}

#[test]
fn completed_runs_are_reported_in_plan_order() {
    let mut report = ScanRunReport::with_capacity(3);
    push_completed(&mut report, vec![Some(record("t1")), None, Some(record("t2"))]);
    let targets: Vec<&str> = report.results().iter().map(|r| r.target.as_str()).collect();
    assert_eq!(targets, vec!["t1", "t2"]);
    assert_eq!(report.summary.clean, 2);
}

#[test]
fn live_output_quiet_and_verbose() {
    let r = record("https://t");
    assert!(live_output(&r, false, false, false).is_empty());
    let lines = live_output(&r, true, false, false);
    assert_eq!(lines.len(), 1);
    assert!(lines[0].starts_with("[OK]"));
}

#[test]
fn raw_bytecode_detected_by_magic() {
    assert!(is_raw_bytecode(&b"RUSOxyz".to_vec(), &b"RUSO".to_vec()));
    assert!(!is_raw_bytecode(&b"52555..".to_vec(), &b"RUSO".to_vec()));
    assert!(!is_raw_bytecode(&b"RU".to_vec(), &b"RUSO".to_vec()));
}

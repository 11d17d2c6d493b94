use ruso_cli::report::{
    exit_code_from_report, report_format_from_path, tally_by_target, validate_report_options, FindingRecord,
    ReportFormat, ScanResultRecord, ScanRunReport,
};

fn empty_report() -> ScanRunReport {
    ScanRunReport::with_capacity(0)
}

fn record(target: &str, script: &str) -> ScanResultRecord {
    ScanResultRecord {
        target: target.into(),
        script: script.into(),
        success: true,
        detected: false,
        check: None,
        error: None,
        skip_reason: None,
        findings: Vec::new(),
        skipped: false,
        port_checks: Vec::new(),
    }
}

fn finding(script: &str, name: &str) -> FindingRecord {
    FindingRecord {
        script: script.into(),
        name: name.into(),
        severity: "high".into(),
        description: None,
        impact: None,
        author: None,
        cve: Vec::new(),
        cwe: Vec::new(),
        references: Vec::new(),
        cvss: Vec::new(),
        cvss_score: Vec::new(),
        mitigation: None,
        version: None,
        family: None,
        tags: Vec::new(),
        evidence: Vec::new(),
    }
}

#[test]
fn classifies_clean_run() {
    let mut report = empty_report();
    report.push_record(record("t", "s"));
    assert_eq!(report.summary.clean, 1);
    assert_eq!(report.summary.failed, 0);
}

#[test]
fn finish_groups_findings_by_target_with_script_on_finding() {
    let mut report = empty_report();
    // Target A: one detected run (carrying a finding) + one clean run.
    let mut a1 = record("https://a", "s1.rsl");
    a1.detected = true;
    a1.findings = vec![finding("s1.rsl", "Finding A")];
    report.push_record(a1);
    report.push_record(record("https://a", "s2.rsl")); // clean
    // Target B: one failed run, no finding.
    let mut b1 = record("https://b", "s3.rsl");
    b1.success = false;
    report.push_record(b1);

    report.finish();

    assert_eq!(report.summary.total_runs, 3);
    assert_eq!(report.targets.len(), 2);

    // First-seen order preserved: A before B.
    let a = &report.targets[0];
    assert_eq!(a.target, "https://a");
    assert_eq!(a.summary.detected, 1);
    assert_eq!(a.summary.clean, 1);
    assert_eq!(a.findings.len(), 1);
    // The script that produced the finding rides on the finding itself.
    assert_eq!(a.findings[0].script, "s1.rsl");

    let b = &report.targets[1];
    assert_eq!(b.target, "https://b");
    assert_eq!(b.summary.failed, 1);
    assert!(b.findings.is_empty());
}

#[test]
fn classifies_failed_when_success_false_without_error_string() {
    let mut report = empty_report();
    let mut r = record("t", "s");
    r.success = false;
    report.push_record(r);
    assert_eq!(report.summary.failed, 1);
    assert_eq!(report.summary.clean, 0);
}

#[test]
fn classifies_skipped_runs_correctly() {
    let mut report = empty_report();
    let mut r = record("t", "s");
    r.skipped = true;
    r.skip_reason = Some("port 80 closed".into());
    report.push_record(r);
    assert_eq!(report.summary.skipped, 1);
    assert_eq!(report.summary.failed, 0);
    assert_eq!(report.summary.clean, 0);
}

#[test]
fn classifies_detected_runs_correctly() {
    let mut report = empty_report();
    let mut r = record("t", "s");
    r.detected = true;
    report.push_record(r);
    assert_eq!(report.summary.detected, 1);
}

#[test]
fn tally_groups_runs_per_target_in_first_seen_order() {
    let mut report = empty_report();
    // host-b first, then host-a, to prove order is preserved.
    let mut detected = record("https://host-b", "s1");
    detected.detected = true;
    report.results.push(detected);
    report.results.push(record("https://host-a", "s2")); // clean
    let mut failed = record("https://host-b", "s3");
    failed.success = false;
    report.results.push(failed);

    let tallies = tally_by_target(&report);
    assert_eq!(tallies.len(), 2);
    // display_target strips the scheme; host-b seen first.
    assert_eq!(tallies[0].target, "host-b");
    assert_eq!(tallies[0].counts, [1, 1, 0, 0]); // detected, failed
    assert_eq!(tallies[1].target, "host-a");
    assert_eq!(tallies[1].counts, [0, 0, 0, 1]); // clean
}

#[test]
fn skip_reason_is_distinct_from_error() {
    let mut report = empty_report();
    let mut r = record("t", "s");
    r.skipped = true;
    r.skip_reason = Some("port closed".into());
    report.push_record(r);
    let stored = &report.results[0];
    assert!(stored.error.is_none());
    assert_eq!(stored.skip_reason.as_deref(), Some("port closed"));
}

#[test]
fn per_target_counts_add_up_to_the_summary() {
    let mut report = empty_report();
    let mut a = record("https://a", "s1");
    a.detected = true;
    report.push_record(a);
    let mut b = record("https://b", "s1");
    b.skipped = true;
    report.push_record(b);
    report.push_record(record("https://a", "s2"));
    let mut c = record("https://b", "s2");
    c.success = false;
    report.push_record(c);
    report.finish();
    let sum = |f: fn(&ruso_cli::report::TargetSummary) -> usize| -> usize {
        report.targets.iter().map(|t| f(&t.summary)).sum()
    };
    assert_eq!(sum(|s| s.detected), report.summary.detected);
    assert_eq!(sum(|s| s.failed), report.summary.failed);
    assert_eq!(sum(|s| s.skipped), report.summary.skipped);
    assert_eq!(sum(|s| s.clean), report.summary.clean);
    assert_eq!(report.summary.total_runs, 4);
}

#[test]
fn exit_code_is_one_only_with_failures() {
    let mut report = empty_report();
    report.push_record(record("t", "s"));
    assert_eq!(exit_code_from_report(&report), 0);
    let mut r = record("t", "s");
    r.success = false;
    report.push_record(r);
    assert_eq!(exit_code_from_report(&report), 1);
}

#[test]
fn report_format_follows_extension() {
    assert!(matches!(report_format_from_path("out.JSON"), Ok(ReportFormat::Json)));
    assert!(matches!(report_format_from_path("out.csv"), Ok(ReportFormat::Csv)));
    assert!(report_format_from_path("out.txt").is_err());
    assert!(validate_report_options(None).is_ok());
    assert!(validate_report_options(Some("x.json")).is_ok());
    assert!(validate_report_options(Some("x.xml")).is_err());
}

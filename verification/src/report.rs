//! Structured scan reports.
//!
//! A report is built from per-run records: each record lands in exactly one
//! outcome bucket (skipped, detected, failed or clean, in that priority
//! order), and `finish` groups the records by target, in the order targets
//! were first seen, with each target's counts and the findings detected on it.

use vstd::prelude::*;

use crate::paths::{extension, extension_spec, file_name, file_name_spec};
use crate::style::{alert, caution, good, heading, dim, paint_spec, severity_code_spec, severity_tag, status_code_spec, status_tag, target as bold_target, bracketed, TAG_WIDTH};
use crate::text::{
    clone_opt, clone_strings, copy_str, has_prefix, opt_view, pad_right_spec, strip_prefix,
    to_ascii_lowercase, all_ascii, ascii_lower, ascii_upper, unicode_upper, views, str_eq, contains_char, decimal,
    decimal_string, pad_left, pad_left_spec, pad_right, push_repeat, repeat_spec,
};

verus! {

/// Report file format, chosen by the `--report` file extension.
#[derive(Debug, Clone, Copy, PartialEq, Eq)]
pub enum ReportFormat {
    /// `.json`
    Json,
    /// `.csv`
    Csv,
}

/// One finding, tagged with the script that produced it.
#[derive(Debug)]
pub struct FindingRecord {
    pub script: String,
    pub name: String,
    pub severity: String,
    pub description: Option<String>,
    pub impact: Option<String>,
    pub author: Option<String>,
    pub cve: Vec<String>,
    pub cwe: Vec<String>,
    pub references: Vec<String>,
    pub cvss: Vec<String>,
    pub cvss_score: Vec<String>,
    pub mitigation: Option<String>,
    pub version: Option<String>,
    pub family: Option<String>,
    pub tags: Vec<String>,
    pub evidence: Vec<String>,
}

/// The content of a [`FindingRecord`], as character sequences.
pub struct FindingView {
    pub script: Seq<char>,
    pub name: Seq<char>,
    pub severity: Seq<char>,
    pub description: Option<Seq<char>>,
    pub impact: Option<Seq<char>>,
    pub author: Option<Seq<char>>,
    pub cve: Seq<Seq<char>>,
    pub cwe: Seq<Seq<char>>,
    pub references: Seq<Seq<char>>,
    pub cvss: Seq<Seq<char>>,
    pub cvss_score: Seq<Seq<char>>,
    pub mitigation: Option<Seq<char>>,
    pub version: Option<Seq<char>>,
    pub family: Option<Seq<char>>,
    pub tags: Seq<Seq<char>>,
    pub evidence: Seq<Seq<char>>,
}

impl View for FindingRecord {
    type V = FindingView;

    open spec fn view(&self) -> FindingView {
        FindingView {
            script: self.script@,
            name: self.name@,
            severity: self.severity@,
            description: opt_view(self.description),
            impact: opt_view(self.impact),
            author: opt_view(self.author),
            cve: views(self.cve@),
            cwe: views(self.cwe@),
            references: views(self.references@),
            cvss: views(self.cvss@),
            cvss_score: views(self.cvss_score@),
            mitigation: opt_view(self.mitigation),
            version: opt_view(self.version),
            family: opt_view(self.family),
            tags: views(self.tags@),
            evidence: views(self.evidence@),
        }
    }
}

impl FindingRecord {
    /// A copy of this finding with the same content.
    pub fn duplicate(&self) -> (r: FindingRecord)
        ensures
            r@ == self@,
    {
        FindingRecord {
            script: self.script.clone(),
            name: self.name.clone(),
            severity: self.severity.clone(),
            description: clone_opt(&self.description),
            impact: clone_opt(&self.impact),
            author: clone_opt(&self.author),
            cve: clone_strings(&self.cve),
            cwe: clone_strings(&self.cwe),
            references: clone_strings(&self.references),
            cvss: clone_strings(&self.cvss),
            cvss_score: clone_strings(&self.cvss_score),
            mitigation: clone_opt(&self.mitigation),
            version: clone_opt(&self.version),
            family: clone_opt(&self.family),
            tags: clone_strings(&self.tags),
            evidence: clone_strings(&self.evidence),
        }
    }
}

/// The content views of a list of findings.
pub open spec fn finding_views(v: Seq<FindingRecord>) -> Seq<FindingView> {
    v.map_values(|f: FindingRecord| f@)
}


/// A TCP port probe the runtime made before a run.
#[derive(Debug)]
pub struct PortCheckRecord {
    pub host: String,
    pub port: u16,
    pub open: bool,
}

/// The outcome of one (target × script) run.
#[derive(Debug)]
pub struct ScanResultRecord {
    pub target: String,
    pub script: String,
    pub success: bool,
    pub detected: bool,
    pub check: Option<String>,
    /// Genuine error (parse/network/runtime failure). Distinct from
    /// `skip_reason`, which records a planned skip such as "port closed".
    pub error: Option<String>,
    /// Why a run was skipped (e.g. `port 80 closed`).
    pub skip_reason: Option<String>,
    pub findings: Vec<FindingRecord>,
    pub skipped: bool,
    pub port_checks: Vec<PortCheckRecord>,
}

/// Bucket numbers, aligned with the summary table columns.
pub open spec fn detected_bucket() -> int { 0 }
pub open spec fn failed_bucket() -> int { 1 }
pub open spec fn skipped_bucket() -> int { 2 }
pub open spec fn clean_bucket() -> int { 3 }

/// The one outcome bucket of a run, resolved in priority order:
/// skipped, then detected, then failed (`!success`), else clean.
pub open spec fn bucket(r: ScanResultRecord) -> int {
    if r.skipped {
        skipped_bucket()
    } else if r.detected {
        detected_bucket()
    } else if !r.success {
        failed_bucket()
    } else {
        clean_bucket()
    }
}

/// Which bucket a record falls in (0 detected, 1 failed, 2 skipped, 3 clean).
pub fn bucket_index(r: &ScanResultRecord) -> (b: usize)
    ensures
        b == bucket(*r),
{
    if r.skipped {
        2
    } else if r.detected {
        0
    } else if !r.success {
        1
    } else {
        3
    }
}

/// Number of records of `rs` in bucket `b`.
pub open spec fn count_in(rs: Seq<ScanResultRecord>, b: int) -> nat
    decreases rs.len(),
{
    if rs.len() == 0 {
        0
    } else {
        count_in(rs.drop_last(), b) + if bucket(rs.last()) == b { 1nat } else { 0nat }
    }
}

/// The summary's counter for bucket `b`.
pub open spec fn bucket_count(s: ScanSummary, b: int) -> int {
    if b == detected_bucket() {
        s.detected as int
    } else if b == failed_bucket() {
        s.failed as int
    } else if b == skipped_bucket() {
        s.skipped as int
    } else {
        s.clean as int
    }
}

/// Records are grouped by a key: the target itself, or its display form.
pub open spec fn by_target() -> spec_fn(ScanResultRecord) -> Seq<char> {
    |r: ScanResultRecord| r.target@
}

/// Number of records of `rs` whose key is `t` and whose bucket is `b`.
pub open spec fn count_by(
    rs: Seq<ScanResultRecord>,
    key: spec_fn(ScanResultRecord) -> Seq<char>,
    t: Seq<char>,
    b: int,
) -> nat
    decreases rs.len(),
{
    if rs.len() == 0 {
        0
    } else {
        count_by(rs.drop_last(), key, t, b) + if key(rs.last()) == t && bucket(rs.last()) == b {
            1nat
        } else {
            0nat
        }
    }
}

/// Number of records of `rs` against target `t` in bucket `b`.
pub open spec fn count_for(rs: Seq<ScanResultRecord>, t: Seq<char>, b: int) -> nat {
    count_by(rs, by_target(), t, b)
}

/// The findings of the records of `rs` against target `t`, in record order.
pub open spec fn findings_for(rs: Seq<ScanResultRecord>, t: Seq<char>) -> Seq<FindingView>
    decreases rs.len(),
{
    if rs.len() == 0 {
        Seq::empty()
    } else if rs.last().target@ == t {
        findings_for(rs.drop_last(), t) + finding_views(rs.last().findings@)
    } else {
        findings_for(rs.drop_last(), t)
    }
}

/// The distinct keys of `rs`, in the order they were first seen.
pub open spec fn first_seen_by(rs: Seq<ScanResultRecord>, key: spec_fn(ScanResultRecord) -> Seq<char>) -> Seq<Seq<char>>
    decreases rs.len(),
{
    if rs.len() == 0 {
        Seq::empty()
    } else if first_seen_by(rs.drop_last(), key).contains(key(rs.last())) {
        first_seen_by(rs.drop_last(), key)
    } else {
        first_seen_by(rs.drop_last(), key).push(key(rs.last()))
    }
}

/// The distinct targets of `rs`, in the order they were first seen.
pub open spec fn first_seen(rs: Seq<ScanResultRecord>) -> Seq<Seq<char>> {
    first_seen_by(rs, by_target())
}

/// Whole-run outcome counts.
#[derive(Debug, Clone, Copy)]
pub struct ScanSummary {
    pub total_runs: usize,
    pub detected: usize,
    pub failed: usize,
    pub skipped: usize,
    pub clean: usize,
}

/// Per-target outcome counts (mirror [`ScanSummary`] minus `total_runs`).
#[derive(Debug, Clone, Copy)]
pub struct TargetSummary {
    pub detected: usize,
    pub failed: usize,
    pub skipped: usize,
    pub clean: usize,
}

/// One target's section of the report: its outcome counts and the findings
/// detected against it.
#[derive(Debug)]
pub struct TargetReport {
    pub target: String,
    pub summary: TargetSummary,
    pub findings: Vec<FindingRecord>,
}

/// The per-target counts of `rs` for target `t`.
pub open spec fn target_counts(rs: Seq<ScanResultRecord>, t: Seq<char>) -> TargetSummary {
    TargetSummary {
        detected: count_for(rs, t, detected_bucket()) as usize,
        failed: count_for(rs, t, failed_bucket()) as usize,
        skipped: count_for(rs, t, skipped_bucket()) as usize,
        clean: count_for(rs, t, clean_bucket()) as usize,
    }
}

/// A report section list that groups `rs` by target: one section per
/// distinct target in first-seen order, each with its counts and findings.
pub open spec fn grouped_by_target(targets: Seq<TargetReport>, rs: Seq<ScanResultRecord>) -> bool {
    &&& targets.len() == first_seen(rs).len()
    &&& forall|k: int| 0 <= k < targets.len() ==> {
        &&& #[trigger] targets[k].target@ == first_seen(rs)[k]
        &&& targets[k].summary == target_counts(rs, first_seen(rs)[k])
        &&& finding_views(targets[k].findings@) == findings_for(rs, first_seen(rs)[k])
    }
}

/// Findings grouped by target plus whole-run counts.
#[derive(Debug)]
pub struct ScanRunReport {
    pub summary: ScanSummary,
    /// Findings grouped by target (the serialized body).
    pub targets: Vec<TargetReport>,
    /// Per-run records, in the order they were pushed. Drives the live
    /// console output and the human summary table; not serialized.
    pub results: Vec<ScanResultRecord>,
}

impl ScanRunReport {
    /// The per-run records pushed so far.
    pub open spec fn records(&self) -> Seq<ScanResultRecord> {
        self.results@
    }

    /// The bucket counters agree with the records.
    pub open spec fn counts_match(&self) -> bool {
        &&& self.summary.detected == count_in(self.records(), detected_bucket())
        &&& self.summary.failed == count_in(self.records(), failed_bucket())
        &&& self.summary.skipped == count_in(self.records(), skipped_bucket())
        &&& self.summary.clean == count_in(self.records(), clean_bucket())
    }

    /// An empty report sized for `capacity` per-run records.
    pub fn with_capacity(capacity: usize) -> (r: ScanRunReport)
        ensures
            r.records() == Seq::<ScanResultRecord>::empty(),
            r.summary == (ScanSummary { total_runs: 0, detected: 0, failed: 0, skipped: 0, clean: 0 }),
            r.targets@ == Seq::<TargetReport>::empty(),
            r.counts_match(),
    {
        ScanRunReport {
            summary: ScanSummary { total_runs: 0, detected: 0, failed: 0, skipped: 0, clean: 0 },
            targets: Vec::new(),
            results: Vec::with_capacity(capacity),
        }
    }

    /// The per-run records, in push order.
    pub fn results(&self) -> (r: &Vec<ScanResultRecord>)
        ensures
            r@ == self.records(),
    {
        &self.results
    }

    /// Append a record and count it in its bucket.
    ///
    /// Buckets are exclusive and resolved in priority order:
    /// 1. `skipped` — run did not execute (port closed)
    /// 2. `detected` — finding emitted
    /// 3. `failed` — `!success` for any reason (Fail opcode, IO error, …)
    /// 4. `clean`  — ran successfully with no finding
    pub fn push_record(&mut self, record: ScanResultRecord)
        requires
            bucket_count(old(self).summary, bucket(record)) < usize::MAX,
        ensures
            final(self).records() == old(self).records().push(record),
            old(self).counts_match() ==> final(self).counts_match(),
            final(self).targets@ == old(self).targets@,
            final(self).summary.total_runs == old(self).summary.total_runs,
            final(self).summary.detected == old(self).summary.detected + if bucket(record)
                == detected_bucket() {
                1int
            } else {
                0int
            },
            final(self).summary.failed == old(self).summary.failed + if bucket(record)
                == failed_bucket() {
                1int
            } else {
                0int
            },
            final(self).summary.skipped == old(self).summary.skipped + if bucket(record)
                == skipped_bucket() {
                1int
            } else {
                0int
            },
            final(self).summary.clean == old(self).summary.clean + if bucket(record)
                == clean_bucket() {
                1int
            } else {
                0int
            },
    {
        proof {
            lemma_count_in_push(self.records(), record);
        }
        if record.skipped {
            self.summary.skipped = self.summary.skipped + 1;
        } else if record.detected {
            self.summary.detected = self.summary.detected + 1;
        } else if !record.success {
            self.summary.failed = self.summary.failed + 1;
        } else {
            self.summary.clean = self.summary.clean + 1;
        }
        self.results.push(record);
    }

    /// Finalise: set `total_runs` and build the per-target sections from the
    /// collected records, preserving first-seen target order. Each target's
    /// findings are the findings of its runs, in run order; clean, failed and
    /// skipped runs contribute only counts.
    pub fn finish(&mut self)
        ensures
            final(self).records() == old(self).records(),
            final(self).summary == (ScanSummary {
                total_runs: old(self).records().len() as usize,
                ..old(self).summary
            }),
            grouped_by_target(final(self).targets@, final(self).records()),
    {
        let n = self.results.len();
        self.summary.total_runs = n;
        let mut targets: Vec<TargetReport> = Vec::new();
        let ghost rs = self.results@;
        let mut i: usize = 0;
        while i < n
            invariant
                n == rs.len(),
                self.results@ == rs,
                i <= n,
                grouped_by_target(targets@, rs.take(i as int)),
            decreases n - i,
        {
            let ghost pre = rs.take(i as int);
            let ghost post = rs.take(i + 1);
            let ghost fs = first_seen(pre);
            let ghost start = targets@;
            let record = &self.results[i];
            proof {
                assert(post =~= pre.push(*record));
                lemma_step(pre, *record, record.target@);
                lemma_first_seen_distinct(pre);
            }
            let mut j: usize = 0;
            while j < targets.len() && targets[j].target != record.target
                invariant
                    j <= targets.len(),
                    forall|k: int| 0 <= k < j ==> targets@[k].target@ != record.target@,
                decreases targets.len() - j,
            {
                j = j + 1;
            }
            if j == targets.len() {
                proof {
                    assert(!fs.contains(record.target@)) by {
                        if fs.contains(record.target@) {
                            let k = choose|k: int| 0 <= k < fs.len() && fs[k] == record.target@;
                            assert(targets@[k].target@ == fs[k]);
                        }
                    }
                    lemma_first_seen_contains(pre, record.target@);
                    lemma_absent_target(pre, record.target@);
                }
                targets.push(TargetReport {
                    target: record.target.clone(),
                    summary: TargetSummary { detected: 0, failed: 0, skipped: 0, clean: 0 },
                    findings: Vec::new(),
                });
                proof {
                    assert(first_seen(post) == fs.push(record.target@));
                }
            } else {
                proof {
                    assert(targets@[j as int].target@ == fs[j as int]);
                    assert(fs.contains(record.target@));
                    assert(first_seen(post) == fs);
                }
            }
            let ghost before = targets@;
            proof {
                lemma_count_for_bound(pre, record.target@, bucket(*record));
                assert(targets@[j as int].target@ == record.target@);
                assert(targets@[j as int].summary == target_counts(pre, record.target@));
                assert(finding_views(targets@[j as int].findings@) == findings_for(pre, record.target@));
                assert(forall|k: int| 0 <= k < fs.len() ==> before[k] == start[k]);
            }
            if record.skipped {
                targets[j].summary.skipped = targets[j].summary.skipped + 1;
            } else if record.detected {
                targets[j].summary.detected = targets[j].summary.detected + 1;
            } else if !record.success {
                targets[j].summary.failed = targets[j].summary.failed + 1;
            } else {
                targets[j].summary.clean = targets[j].summary.clean + 1;
            }
            let mut m: usize = 0;
            while m < record.findings.len()
                invariant
                    j < targets.len(),
                    targets.len() == before.len(),
                    m <= record.findings.len(),
                    forall|k: int| 0 <= k < targets.len() && k != j ==> targets@[k] == before[k],
                    targets@[j as int].target == before[j as int].target,
                    targets@[j as int].summary == target_counts(post, record.target@),
                    finding_views(targets@[j as int].findings@) == findings_for(pre, record.target@)
                        + finding_views(record.findings@.take(m as int)),
                decreases record.findings.len() - m,
            {
                let f = record.findings[m].duplicate();
                let ghost old_list = targets@[j as int].findings@;
                targets[j].findings.push(f);
                proof {
                    assert(targets@[j as int].findings@ == old_list.push(f));
                    assert(finding_views(old_list.push(f)) =~= finding_views(old_list).push(f@));
                    assert(record.findings@.take(m + 1) =~= record.findings@.take(m as int).push(
                        record.findings@[m as int],
                    ));
                    assert(finding_views(record.findings@.take(m + 1)) =~= finding_views(
                        record.findings@.take(m as int),
                    ).push(record.findings@[m as int]@));
                    assert(finding_views(targets@[j as int].findings@) =~= findings_for(
                        pre,
                        record.target@,
                    ) + finding_views(record.findings@.take(m + 1)));
                }
                m = m + 1;
            }
            proof {
                assert(record.findings@.take(record.findings.len() as int) =~= record.findings@);
                lemma_step(pre, *record, record.target@);
                lemma_regroup(start, targets@, pre, *record, j as int);
            }
            i = i + 1;
        }
        proof {
            assert(rs.take(n as int) =~= rs);
        }
        self.targets = targets;
    }
}

/// A finding as the runtime reports it for one run.
#[derive(Debug)]
pub struct RunFinding {
    pub name: String,
    /// The severity's canonical lower-case word.
    pub severity: String,
    pub description: Option<String>,
    pub impact: Option<String>,
    pub author: Option<String>,
    pub cve: Vec<String>,
    pub cwe: Vec<String>,
    pub references: Vec<String>,
    pub cvss: Vec<String>,
    pub cvss_score: Vec<String>,
    pub mitigation: Option<String>,
    pub evidence: Vec<String>,
}

/// Script-level check metadata carried by a run's result.
#[derive(Debug)]
pub struct RunMetadata {
    pub name: Option<String>,
    pub version: Option<String>,
    pub family: Option<String>,
    pub tags: Vec<String>,
}

/// What the runtime hands back for one executed script.
#[derive(Debug)]
pub struct ExecutionOutcome {
    pub success: bool,
    pub detected: bool,
    pub skipped: bool,
    pub skip_reason: Option<String>,
    pub metadata: RunMetadata,
    pub findings: Vec<RunFinding>,
    pub port_checks: Vec<PortCheckRecord>,
}

/// The report finding for runtime finding `f` of `script`, with the
/// script-level metadata (version, family, tags) folded in.
pub open spec fn finding_from_run(script: Seq<char>, f: RunFinding, meta: RunMetadata) -> FindingView {
    FindingView {
        script: script,
        name: f.name@,
        severity: f.severity@,
        description: opt_view(f.description),
        impact: opt_view(f.impact),
        author: opt_view(f.author),
        cve: views(f.cve@),
        cwe: views(f.cwe@),
        references: views(f.references@),
        cvss: views(f.cvss@),
        cvss_score: views(f.cvss_score@),
        mitigation: opt_view(f.mitigation),
        version: opt_view(meta.version),
        family: opt_view(meta.family),
        tags: views(meta.tags@),
        evidence: views(f.evidence@),
    }
}

/// The content of a port check.
pub open spec fn port_view(p: PortCheckRecord) -> (Seq<char>, u16, bool) {
    (p.host@, p.port, p.open)
}

/// The contents of a list of port checks.
pub open spec fn port_views(s: Seq<PortCheckRecord>) -> Seq<(Seq<char>, u16, bool)> {
    s.map_values(|p: PortCheckRecord| port_view(p))
}

impl ScanResultRecord {
    /// The record of a run that executed. A skipped run is not an error: its
    /// reason goes to `skip_reason`, and `error` stays empty.
    pub fn from_execution(target: String, script: String, result: &ExecutionOutcome) -> (r: ScanResultRecord)
        ensures
            r.target@ == target@,
            r.script@ == script@,
            r.success == result.success,
            r.detected == result.detected,
            opt_view(r.check) == opt_view(result.metadata.name),
            r.error is None,
            opt_view(r.skip_reason) == if result.skipped { opt_view(result.skip_reason) } else { None },
            r.skipped == result.skipped,
            r.findings@.len() == result.findings@.len(),
            forall|i: int| 0 <= i < r.findings@.len() ==> #[trigger] r.findings@[i]@ == finding_from_run(
                script@,
                result.findings@[i],
                result.metadata,
            ),
            port_views(r.port_checks@) == port_views(result.port_checks@),
    {
        let meta = &result.metadata;
        let mut findings: Vec<FindingRecord> = Vec::new();
        let mut i: usize = 0;
        while i < result.findings.len()
            invariant
                i <= result.findings.len(),
                findings@.len() == i,
                forall|k: int| 0 <= k < i ==> #[trigger] findings@[k]@ == finding_from_run(script@, result.findings@[k], *meta),
            decreases result.findings.len() - i,
        {
            let f = &result.findings[i];
            findings.push(FindingRecord {
                script: script.clone(),
                name: f.name.clone(),
                severity: f.severity.clone(),
                description: clone_opt(&f.description),
                impact: clone_opt(&f.impact),
                author: clone_opt(&f.author),
                cve: clone_strings(&f.cve),
                cwe: clone_strings(&f.cwe),
                references: clone_strings(&f.references),
                cvss: clone_strings(&f.cvss),
                cvss_score: clone_strings(&f.cvss_score),
                mitigation: clone_opt(&f.mitigation),
                version: clone_opt(&meta.version),
                family: clone_opt(&meta.family),
                tags: clone_strings(&meta.tags),
                evidence: clone_strings(&f.evidence),
            });
            i = i + 1;
        }
        let mut ports: Vec<PortCheckRecord> = Vec::new();
        let mut j: usize = 0;
        while j < result.port_checks.len()
            invariant
                j <= result.port_checks.len(),
                port_views(ports@) == port_views(result.port_checks@.take(j as int)),
            decreases result.port_checks.len() - j,
        {
            let c = &result.port_checks[j];
            let ghost old_ports = ports@;
            let rec = PortCheckRecord { host: c.host.clone(), port: c.port, open: c.open };
            assert(port_view(rec) == port_view(*c));
            ports.push(rec);
            proof {
                assert(ports@ == old_ports.push(rec));
                assert(port_views(ports@) =~= port_views(old_ports).push(port_view(rec)));
                assert(result.port_checks@.take(j + 1) =~= result.port_checks@.take(j as int).push(result.port_checks@[j as int]));
                assert(port_views(ports@) =~= port_views(result.port_checks@.take(j + 1)));
            }
            j = j + 1;
        }
        proof {
            assert(result.port_checks@.take(result.port_checks@.len() as int) =~= result.port_checks@);
        }
        let skip_reason = if result.skipped { clone_opt(&result.skip_reason) } else { None };
        ScanResultRecord {
            target,
            script,
            success: result.success,
            detected: result.detected,
            check: clone_opt(&meta.name),
            error: None,
            skip_reason,
            findings,
            skipped: result.skipped,
            port_checks: ports,
        }
    }

    /// The record of a run that could not execute: failed, with `message`
    /// as its error, nothing detected, no findings.
    pub fn from_error(target: String, script: String, message: String) -> (r: ScanResultRecord)
        ensures
            r.target@ == target@,
            r.script@ == script@,
            !r.success,
            !r.detected,
            r.check is None,
            opt_view(r.error) == Some(message@),
            r.skip_reason is None,
            r.findings@.len() == 0,
            !r.skipped,
            r.port_checks@.len() == 0,
            bucket(r) == failed_bucket(),
    {
        ScanResultRecord {
            target,
            script,
            success: false,
            detected: false,
            check: None,
            error: Some(message),
            skip_reason: None,
            findings: Vec::new(),
            skipped: false,
            port_checks: Vec::new(),
        }
    }
}

/// Column names of the CSV report.
pub open spec fn csv_header_spec() -> Seq<Seq<char>> {
    seq![
        "target"@, "script"@, "severity"@, "finding_name"@, "description"@, "impact"@, "author"@,
        "cve"@, "cwe"@, "references"@, "cvss"@, "cvss_score"@, "mitigation"@, "version"@,
        "family"@, "tags"@, "evidence"@,
    ]
}

/// The CSV header row.
pub fn csv_header() -> (r: Vec<String>)
    ensures
        views(r@) == csv_header_spec(),
{
    let names = [
        "target", "script", "severity", "finding_name", "description", "impact", "author", "cve",
        "cwe", "references", "cvss", "cvss_score", "mitigation", "version", "family", "tags",
        "evidence",
    ];
    let mut r: Vec<String> = Vec::new();
    let mut i: usize = 0;
    while i < 17
        invariant
            i <= 17,
            names@ == seq![
                "target", "script", "severity", "finding_name", "description", "impact", "author", "cve",
                "cwe", "references", "cvss", "cvss_score", "mitigation", "version", "family", "tags",
                "evidence",
            ],
            views(r@) == csv_header_spec().take(i as int),
        decreases 17 - i,
    {
        let ghost old_r = r@;
        r.push(copy_str(names[i]));
        assert(views(r@) =~= views(old_r).push(names@[i as int]@));
        assert(csv_header_spec().take(i + 1) =~= csv_header_spec().take(i as int).push(csv_header_spec()[i as int]));
        i = i + 1;
    }
    assert(csv_header_spec().take(17) =~= csv_header_spec());
    r
}

/// An optional field as a CSV cell: its text, or empty.
pub open spec fn cell_opt(o: Option<Seq<char>>) -> Seq<char> {
    match o {
        Some(s) => s,
        None => Seq::empty(),
    }
}

/// The CSV row of one finding on `target`: list fields are joined with ` | `,
/// absent optional fields are empty.
pub open spec fn csv_row_spec(target: Seq<char>, f: FindingView) -> Seq<Seq<char>> {
    let sep = " | "@;
    seq![
        target, f.script, f.severity, f.name, cell_opt(f.description), cell_opt(f.impact),
        cell_opt(f.author), crate::text::join_spec(f.cve, sep), crate::text::join_spec(f.cwe, sep),
        crate::text::join_spec(f.references, sep), crate::text::join_spec(f.cvss, sep),
        crate::text::join_spec(f.cvss_score, sep), cell_opt(f.mitigation), cell_opt(f.version),
        cell_opt(f.family), crate::text::join_spec(f.tags, sep), crate::text::join_spec(f.evidence, sep),
    ]
}

/// The cell that the column named `column` holds for a finding on `target`:
/// the field that the column's name names.
pub open spec fn named_cell(column: Seq<char>, target: Seq<char>, f: FindingView) -> Seq<char> {
    let sep = " | "@;
    if column == "target"@ {
        target
    } else if column == "script"@ {
        f.script
    } else if column == "severity"@ {
        f.severity
    } else if column == "finding_name"@ {
        f.name
    } else if column == "description"@ {
        cell_opt(f.description)
    } else if column == "impact"@ {
        cell_opt(f.impact)
    } else if column == "author"@ {
        cell_opt(f.author)
    } else if column == "cve"@ {
        crate::text::join_spec(f.cve, sep)
    } else if column == "cwe"@ {
        crate::text::join_spec(f.cwe, sep)
    } else if column == "references"@ {
        crate::text::join_spec(f.references, sep)
    } else if column == "cvss"@ {
        crate::text::join_spec(f.cvss, sep)
    } else if column == "cvss_score"@ {
        crate::text::join_spec(f.cvss_score, sep)
    } else if column == "mitigation"@ {
        cell_opt(f.mitigation)
    } else if column == "version"@ {
        cell_opt(f.version)
    } else if column == "family"@ {
        cell_opt(f.family)
    } else if column == "tags"@ {
        crate::text::join_spec(f.tags, sep)
    } else if column == "evidence"@ {
        crate::text::join_spec(f.evidence, sep)
    } else {
        Seq::empty()
    }
}

/// Law: a CSV row has one cell per header column, and each cell lies under
/// the column that names its field (`severity` under "severity",
/// the finding's name under "finding_name", and so on).
pub proof fn law_csv_cells_match_header(target: Seq<char>, f: FindingView)
    ensures
        csv_row_spec(target, f).len() == csv_header_spec().len(),
        forall|k: int| 0 <= k < csv_header_spec().len() ==>
            #[trigger] csv_row_spec(target, f)[k] == named_cell(csv_header_spec()[k], target, f),
{
    reveal_strlit("target");
    reveal_strlit("script");
    reveal_strlit("severity");
    reveal_strlit("finding_name");
    reveal_strlit("description");
    reveal_strlit("impact");
    reveal_strlit("author");
    reveal_strlit("cve");
    reveal_strlit("cwe");
    reveal_strlit("references");
    reveal_strlit("cvss");
    reveal_strlit("cvss_score");
    reveal_strlit("mitigation");
    reveal_strlit("version");
    reveal_strlit("family");
    reveal_strlit("tags");
    reveal_strlit("evidence");
    let h = csv_header_spec();
    let row = csv_row_spec(target, f);
    assert(row[0] == named_cell(h[0], target, f)) by {
        
    }
    assert(row[1] == named_cell(h[1], target, f)) by {
        assert(h[1][0] != "target"@[0]);
    }
    assert(row[2] == named_cell(h[2], target, f)) by {
        assert(h[2].len() != "target"@.len());
        assert(h[2].len() != "script"@.len());
    }
    assert(row[3] == named_cell(h[3], target, f)) by {
        assert(h[3].len() != "target"@.len());
        assert(h[3].len() != "script"@.len());
        assert(h[3].len() != "severity"@.len());
    }
    assert(row[4] == named_cell(h[4], target, f)) by {
        assert(h[4].len() != "target"@.len());
        assert(h[4].len() != "script"@.len());
        assert(h[4].len() != "severity"@.len());
        assert(h[4].len() != "finding_name"@.len());
    }
    assert(row[5] == named_cell(h[5], target, f)) by {
        assert(h[5][0] != "target"@[0]);
        assert(h[5][0] != "script"@[0]);
        assert(h[5].len() != "severity"@.len());
        assert(h[5].len() != "finding_name"@.len());
        assert(h[5].len() != "description"@.len());
    }
    assert(row[6] == named_cell(h[6], target, f)) by {
        assert(h[6][0] != "target"@[0]);
        assert(h[6][0] != "script"@[0]);
        assert(h[6].len() != "severity"@.len());
        assert(h[6].len() != "finding_name"@.len());
        assert(h[6].len() != "description"@.len());
        assert(h[6][0] != "impact"@[0]);
    }
    assert(row[7] == named_cell(h[7], target, f)) by {
        assert(h[7].len() != "target"@.len());
        assert(h[7].len() != "script"@.len());
        assert(h[7].len() != "severity"@.len());
        assert(h[7].len() != "finding_name"@.len());
        assert(h[7].len() != "description"@.len());
        assert(h[7].len() != "impact"@.len());
        assert(h[7].len() != "author"@.len());
    }
    assert(row[8] == named_cell(h[8], target, f)) by {
        assert(h[8].len() != "target"@.len());
        assert(h[8].len() != "script"@.len());
        assert(h[8].len() != "severity"@.len());
        assert(h[8].len() != "finding_name"@.len());
        assert(h[8].len() != "description"@.len());
        assert(h[8].len() != "impact"@.len());
        assert(h[8].len() != "author"@.len());
        assert(h[8][1] != "cve"@[1]);
    }
    assert(row[9] == named_cell(h[9], target, f)) by {
        assert(h[9].len() != "target"@.len());
        assert(h[9].len() != "script"@.len());
        assert(h[9].len() != "severity"@.len());
        assert(h[9].len() != "finding_name"@.len());
        assert(h[9].len() != "description"@.len());
        assert(h[9].len() != "impact"@.len());
        assert(h[9].len() != "author"@.len());
        assert(h[9].len() != "cve"@.len());
        assert(h[9].len() != "cwe"@.len());
    }
    assert(row[10] == named_cell(h[10], target, f)) by {
        assert(h[10].len() != "target"@.len());
        assert(h[10].len() != "script"@.len());
        assert(h[10].len() != "severity"@.len());
        assert(h[10].len() != "finding_name"@.len());
        assert(h[10].len() != "description"@.len());
        assert(h[10].len() != "impact"@.len());
        assert(h[10].len() != "author"@.len());
        assert(h[10].len() != "cve"@.len());
        assert(h[10].len() != "cwe"@.len());
        assert(h[10].len() != "references"@.len());
    }
    assert(row[11] == named_cell(h[11], target, f)) by {
        assert(h[11].len() != "target"@.len());
        assert(h[11].len() != "script"@.len());
        assert(h[11].len() != "severity"@.len());
        assert(h[11].len() != "finding_name"@.len());
        assert(h[11].len() != "description"@.len());
        assert(h[11].len() != "impact"@.len());
        assert(h[11].len() != "author"@.len());
        assert(h[11].len() != "cve"@.len());
        assert(h[11].len() != "cwe"@.len());
        assert(h[11][0] != "references"@[0]);
        assert(h[11].len() != "cvss"@.len());
    }
    assert(row[12] == named_cell(h[12], target, f)) by {
        assert(h[12].len() != "target"@.len());
        assert(h[12].len() != "script"@.len());
        assert(h[12].len() != "severity"@.len());
        assert(h[12].len() != "finding_name"@.len());
        assert(h[12].len() != "description"@.len());
        assert(h[12].len() != "impact"@.len());
        assert(h[12].len() != "author"@.len());
        assert(h[12].len() != "cve"@.len());
        assert(h[12].len() != "cwe"@.len());
        assert(h[12][0] != "references"@[0]);
        assert(h[12].len() != "cvss"@.len());
        assert(h[12][0] != "cvss_score"@[0]);
    }
    assert(row[13] == named_cell(h[13], target, f)) by {
        assert(h[13].len() != "target"@.len());
        assert(h[13].len() != "script"@.len());
        assert(h[13].len() != "severity"@.len());
        assert(h[13].len() != "finding_name"@.len());
        assert(h[13].len() != "description"@.len());
        assert(h[13].len() != "impact"@.len());
        assert(h[13].len() != "author"@.len());
        assert(h[13].len() != "cve"@.len());
        assert(h[13].len() != "cwe"@.len());
        assert(h[13].len() != "references"@.len());
        assert(h[13].len() != "cvss"@.len());
        assert(h[13].len() != "cvss_score"@.len());
        assert(h[13].len() != "mitigation"@.len());
    }
    assert(row[14] == named_cell(h[14], target, f)) by {
        assert(h[14][0] != "target"@[0]);
        assert(h[14][0] != "script"@[0]);
        assert(h[14].len() != "severity"@.len());
        assert(h[14].len() != "finding_name"@.len());
        assert(h[14].len() != "description"@.len());
        assert(h[14][0] != "impact"@[0]);
        assert(h[14][0] != "author"@[0]);
        assert(h[14].len() != "cve"@.len());
        assert(h[14].len() != "cwe"@.len());
        assert(h[14].len() != "references"@.len());
        assert(h[14].len() != "cvss"@.len());
        assert(h[14].len() != "cvss_score"@.len());
        assert(h[14].len() != "mitigation"@.len());
        assert(h[14].len() != "version"@.len());
    }
    assert(row[15] == named_cell(h[15], target, f)) by {
        assert(h[15].len() != "target"@.len());
        assert(h[15].len() != "script"@.len());
        assert(h[15].len() != "severity"@.len());
        assert(h[15].len() != "finding_name"@.len());
        assert(h[15].len() != "description"@.len());
        assert(h[15].len() != "impact"@.len());
        assert(h[15].len() != "author"@.len());
        assert(h[15].len() != "cve"@.len());
        assert(h[15].len() != "cwe"@.len());
        assert(h[15].len() != "references"@.len());
        assert(h[15][0] != "cvss"@[0]);
        assert(h[15].len() != "cvss_score"@.len());
        assert(h[15].len() != "mitigation"@.len());
        assert(h[15].len() != "version"@.len());
        assert(h[15].len() != "family"@.len());
    }
    assert(row[16] == named_cell(h[16], target, f)) by {
        assert(h[16].len() != "target"@.len());
        assert(h[16].len() != "script"@.len());
        assert(h[16][0] != "severity"@[0]);
        assert(h[16].len() != "finding_name"@.len());
        assert(h[16].len() != "description"@.len());
        assert(h[16].len() != "impact"@.len());
        assert(h[16].len() != "author"@.len());
        assert(h[16].len() != "cve"@.len());
        assert(h[16].len() != "cwe"@.len());
        assert(h[16].len() != "references"@.len());
        assert(h[16].len() != "cvss"@.len());
        assert(h[16].len() != "cvss_score"@.len());
        assert(h[16].len() != "mitigation"@.len());
        assert(h[16].len() != "version"@.len());
        assert(h[16].len() != "family"@.len());
        assert(h[16].len() != "tags"@.len());
    }
    assert forall|k: int| 0 <= k < h.len() implies #[trigger] row[k] == named_cell(h[k], target, f) by {
        assert(k == 0 || k == 1 || k == 2 || k == 3 || k == 4 || k == 5 || k == 6 || k == 7 || k == 8 || k == 9
            || k == 10 || k == 11 || k == 12 || k == 13 || k == 14 || k == 15 || k == 16);
    }
}

fn opt_cell(o: &Option<String>) -> (r: String)
    ensures
        r@ == cell_opt(opt_view(*o)),
{
    match o {
        Some(s) => s.clone(),
        None => String::new(),
    }
}

/// The CSV row for one finding on `target`.
pub fn csv_row(target: &str, finding: &FindingRecord) -> (r: Vec<String>)
    ensures
        views(r@) == csv_row_spec(target@, finding@),
{
    let sep = " | ";
    let mut r: Vec<String> = Vec::new();
    r.push(copy_str(target));
    r.push(finding.script.clone());
    r.push(finding.severity.clone());
    r.push(finding.name.clone());
    r.push(opt_cell(&finding.description));
    r.push(opt_cell(&finding.impact));
    r.push(opt_cell(&finding.author));
    r.push(crate::text::join(&finding.cve, sep));
    r.push(crate::text::join(&finding.cwe, sep));
    r.push(crate::text::join(&finding.references, sep));
    r.push(crate::text::join(&finding.cvss, sep));
    r.push(crate::text::join(&finding.cvss_score, sep));
    r.push(opt_cell(&finding.mitigation));
    r.push(opt_cell(&finding.version));
    r.push(opt_cell(&finding.family));
    r.push(crate::text::join(&finding.tags, sep));
    r.push(crate::text::join(&finding.evidence, sep));
    assert(views(r@) =~= csv_row_spec(target@, finding@));
    r
}

/// The CSV data rows of the target sections `ts`: for each section in order,
/// one row per finding in order.
pub open spec fn csv_rows_spec(ts: Seq<TargetReport>) -> Seq<Seq<Seq<char>>>
    decreases ts.len(),
{
    if ts.len() == 0 {
        Seq::empty()
    } else {
        csv_rows_spec(ts.drop_last()) + ts.last().findings@.map_values(|f: FindingRecord| csv_row_spec(ts.last().target@, f@))
    }
}

/// The cell texts of rows of cells.
pub open spec fn row_views(rows: Seq<Vec<String>>) -> Seq<Seq<Seq<char>>> {
    rows.map_values(|row: Vec<String>| views(row@))
}

/// All CSV data rows: one per finding, grouped by target in section order.
pub fn csv_rows(report: &ScanRunReport) -> (r: Vec<Vec<String>>)
    ensures
        row_views(r@) == csv_rows_spec(report.targets@),
        r@.len() == csv_row_count(report.targets@),
{
    let mut rows: Vec<Vec<String>> = Vec::new();
    let mut i: usize = 0;
    while i < report.targets.len()
        invariant
            i <= report.targets.len(),
            row_views(rows@) == csv_rows_spec(report.targets@.take(i as int)),
            rows@.len() == csv_row_count(report.targets@.take(i as int)),
        decreases report.targets.len() - i,
    {
        let t = &report.targets[i];
        let ghost start = row_views(rows@);
        let ghost n0 = rows@.len();
        let mut k: usize = 0;
        while k < t.findings.len()
            invariant
                k <= t.findings.len(),
                rows@.len() == n0 + k,
                row_views(rows@) == start + t.findings@.take(k as int).map_values(|f: FindingRecord| csv_row_spec(t.target@, f@)),
            decreases t.findings.len() - k,
        {
            let ghost before = rows@;
            rows.push(csv_row(t.target.as_str(), &t.findings[k]));
            assert(row_views(rows@) =~= row_views(before).push(csv_row_spec(t.target@, t.findings@[k as int]@)));
            assert(t.findings@.take(k + 1).map_values(|f: FindingRecord| csv_row_spec(t.target@, f@))
                =~= t.findings@.take(k as int).map_values(|f: FindingRecord| csv_row_spec(t.target@, f@)).push(csv_row_spec(t.target@, t.findings@[k as int]@)));
            k = k + 1;
        }
        assert(t.findings@.take(t.findings.len() as int) =~= t.findings@);
        assert(report.targets@.take(i + 1).drop_last() =~= report.targets@.take(i as int));
        assert(report.targets@.take(i + 1).last() == report.targets@[i as int]);
        i = i + 1;
    }
    assert(report.targets@.take(report.targets.len() as int) =~= report.targets@);
    rows
}

/// Number of findings over all target sections.
pub open spec fn csv_row_count(ts: Seq<TargetReport>) -> int
    decreases ts.len(),
{
    if ts.len() == 0 {
        0
    } else {
        csv_row_count(ts.drop_last()) + ts.last().findings@.len()
    }
}

/// The console form of a target: the `https://` or `http://` carrier scheme
/// stripped (the report keeps the full target).
pub open spec fn display_spec(t: Seq<char>) -> Seq<char> {
    if has_prefix(t, "https://"@) {
        t.subrange(("https://"@).len() as int, t.len() as int)
    } else if has_prefix(t, "http://"@) {
        t.subrange(("http://"@).len() as int, t.len() as int)
    } else {
        t
    }
}

/// Strip the `http(s)://` carrier scheme for display.
pub fn display_target(target: &str) -> (r: String)
    ensures
        r@ == display_spec(target@),
{
    match strip_prefix(target, "https://") {
        Some(rest) => rest,
        None => match strip_prefix(target, "http://") {
            Some(rest) => rest,
            None => copy_str(target),
        },
    }
}

/// Records grouped by their display target.
pub open spec fn by_display() -> spec_fn(ScanResultRecord) -> Seq<char> {
    |r: ScanResultRecord| display_spec(r.target@)
}

/// Per-target run counts in the order targets were first seen.
/// `counts` is `[detected, failed, skipped, clean]`, aligned with the table
/// columns and their colourisers.
#[derive(Debug)]
pub struct TargetTally {
    pub target: String,
    pub counts: [usize; 4],
}

/// Tallies that count `rs` per display target, in first-seen order.
pub open spec fn tallied(tallies: Seq<TargetTally>, rs: Seq<ScanResultRecord>) -> bool {
    let keys = first_seen_by(rs, by_display());
    &&& tallies.len() == keys.len()
    &&& forall|k: int| 0 <= k < tallies.len() ==> {
        &&& #[trigger] tallies[k].target@ == keys[k]
        &&& forall|b: int| 0 <= b < 4 ==> tallies[k].counts@[b] == count_by(rs, by_display(), keys[k], b)
    }
}

/// Aggregate every run into per-target tallies keyed by display target,
/// preserving first-seen order.
#[verifier::spinoff_prover]
pub fn tally_by_target(report: &ScanRunReport) -> (r: Vec<TargetTally>)
    ensures
        tallied(r@, report.records()),
{
    let rs = &report.results;
    let mut tallies: Vec<TargetTally> = Vec::new();
    let mut i: usize = 0;
    while i < rs.len()
        invariant
            i <= rs.len(),
            tallied(tallies@, rs@.take(i as int)),
        decreases rs.len() - i,
    {
        let ghost pre = rs@.take(i as int);
        let ghost keys = first_seen_by(pre, by_display());
        let ghost start = tallies@;
        let record = &rs[i];
        let key = display_target(record.target.as_str());
        proof {
            assert(rs@.take(i + 1) =~= pre.push(*record));
            lemma_first_seen_distinct_by(pre, by_display());
            lemma_step_by(pre, by_display(), *record, key@);
            assert(by_display()(*record) == key@);
        }
        let mut j: usize = 0;
        while j < tallies.len() && !str_eq(tallies[j].target.as_str(), key.as_str())
            invariant
                j <= tallies.len(),
                forall|k: int| 0 <= k < j ==> tallies@[k].target@ != key@,
            decreases tallies.len() - j,
        {
            j = j + 1;
        }
        if j == tallies.len() {
            proof {
                assert(!keys.contains(key@)) by {
                    if keys.contains(key@) {
                        let k = choose|k: int| 0 <= k < keys.len() && keys[k] == key@;
                        assert(tallies@[k].target@ == keys[k]);
                    }
                }
                lemma_first_seen_contains_by(pre, by_display(), key@);
                lemma_absent_key(pre, by_display(), key@);
            }
            tallies.push(TargetTally { target: copy_str(key.as_str()), counts: [0, 0, 0, 0] });
        } else {
            proof {
                assert(tallies@[j as int].target@ == keys[j as int]);
            }
        }
        let b = bucket_index(record);
        proof {
            lemma_count_by_bound(pre, by_display(), key@, b as int);
            assert(tallies@[j as int].counts@[b as int] == count_by(pre, by_display(), key@, b as int));
        }
        tallies[j].counts[b] = tallies[j].counts[b] + 1;
        proof {
            let post = rs@.take(i + 1);
            let keys2 = first_seen_by(post, by_display());
            lemma_first_seen_distinct_by(post, by_display());
            assert forall|k: int| 0 <= k < tallies.len() implies {
                &&& #[trigger] tallies@[k].target@ == keys2[k]
                &&& forall|c: int| 0 <= c < 4 ==> tallies@[k].counts@[c] == count_by(post, by_display(), keys2[k], c)
            } by {
                if k != j {
                    assert(tallies@[k] == start[k]);
                    assert(keys2[k] == keys[k]);
                    assert(keys2[j as int] == key@);
                    assert(keys2[k] != key@);
                    lemma_step_by(pre, by_display(), *record, keys[k]);
                } else {
                    assert(keys2[k] == key@);
                }
            }
        }
        i = i + 1;
    }
    proof {
        assert(rs@.take(rs.len() as int) =~= rs@);
    }
    tallies
}

/// `""` for a count of one, `"s"` otherwise (`1 target`, `48 targets`).
pub fn plural(n: usize) -> (r: &'static str)
    ensures
        r@ == if n == 1 { ""@ } else { "s"@ },
{
    if n == 1 {
        ""
    } else {
        "s"
    }
}

/// The label shown for a script: registry refs (they contain `@`) as given,
/// a path by its file name (or as given when it has none).
pub open spec fn script_label_spec(script: Seq<char>) -> Seq<char> {
    if script.contains('@') {
        script
    } else {
        match file_name_spec(script) {
            Some(n) => n,
            None => script,
        }
    }
}

/// Short script label for console rows.
pub fn script_label(script: &str) -> (r: String)
    ensures
        r@ == script_label_spec(script@),
{
    if contains_char(script, '@') {
        return copy_str(script);
    }
    match file_name(script) {
        Some(n) => n,
        None => copy_str(script),
    }
}

/// One console line per finding: the `[SEVERITY]` tag, the bold display
/// target, then the finding title.
pub open spec fn finding_line_spec(enabled: bool, target: Seq<char>, f: FindingView) -> Seq<char> {
    paint_spec(enabled, severity_code_spec(f.severity), pad_right_spec(bracketed(unicode_upper(f.severity)), TAG_WIDTH as nat))
        + " "@ + paint_spec(enabled, "1"@, display_spec(target)) + "  "@ + f.name
}

/// The console line for a finding (what the live printer writes for it).
pub fn finding_line(enabled: bool, target: &str, finding: &FindingRecord) -> (r: String)
    ensures
        r@ == finding_line_spec(enabled, target@, finding@),
        all_ascii(finding@.severity) ==> r@ == paint_spec(
            enabled,
            severity_code_spec(finding@.severity),
            pad_right_spec(bracketed(finding@.severity.map_values(|c: char| ascii_upper(c))), TAG_WIDTH as nat),
        ) + " "@ + paint_spec(enabled, "1"@, display_spec(target@)) + "  "@ + finding@.name,
{
    let mut s = severity_tag(enabled, finding.severity.as_str());
    s.append(" ");
    let shown = display_target(target);
    s.append(bold_target(enabled, shown.as_str()).as_str());
    s.append("  ");
    s.append(finding.name.as_str());
    s
}

/// One `[OK]/[SKIP]/[ERROR]` status row: tag, bold target, dim script label,
/// and an optional dim `(reason)`.
pub open spec fn status_line_spec(
    enabled: bool,
    status: Seq<char>,
    target: Seq<char>,
    label: Seq<char>,
    note: Option<Seq<char>>,
) -> Seq<char> {
    let base = paint_spec(enabled, status_code_spec(status), pad_right_spec(bracketed(status), TAG_WIDTH as nat))
        + " "@ + paint_spec(enabled, "1"@, target) + "  "@ + paint_spec(enabled, "2"@, label);
    match note {
        Some(n) => base + " "@ + paint_spec(enabled, "2"@, "("@ + n + ")"@),
        None => base,
    }
}

/// A verbose status row.
pub fn status_line(enabled: bool, status: &str, target: &str, label: &str, note: Option<&str>) -> (r: String)
    ensures
        r@ == status_line_spec(enabled, status@, target@, label@, match note { Some(n) => Some(n@), None => None }),
{
    let mut line = status_tag(enabled, status);
    line.append(" ");
    line.append(bold_target(enabled, target).as_str());
    line.append("  ");
    line.append(dim(enabled, label).as_str());
    match note {
        Some(n) => {
            let mut inner = String::new();
            inner.append("(");
            inner.append(n);
            inner.append(")");
            line.append(" ");
            line.append(dim(enabled, inner.as_str()).as_str());
        },
        None => {},
    }
    line
}

/// The lines a verbose scan prints for one run: a `[SKIP]` row (with the
/// skip reason, or `port closed`), an `[ERROR]` row with the error, one line
/// per finding for a detection, or an `[OK]` row.
pub open spec fn live_run_spec(enabled: bool, r: ScanResultRecord) -> Seq<Seq<char>> {
    let label = script_label_spec(r.script@);
    let target = display_spec(r.target@);
    if r.skipped {
        let msg = match r.skip_reason {
            Some(m) => m@,
            None => "port closed"@,
        };
        seq![status_line_spec(enabled, "SKIP"@, target, label, Some(msg))]
    } else if r.error is Some {
        seq![status_line_spec(enabled, "ERROR"@, target, label, Some(r.error->0@))]
    } else if r.detected {
        Seq::new(r.findings@.len(), |i: int| finding_line_spec(enabled, r.target@, r.findings@[i]@))
    } else {
        seq![status_line_spec(enabled, "OK"@, target, label, None)]
    }
}

/// The lines printed for one run during a verbose scan (see [`live_run_spec`]).
pub fn print_live_run(record: &ScanResultRecord, _multi_target: bool, enabled: bool) -> (r: Vec<String>)
    ensures
        views(r@) == live_run_spec(enabled, *record),
{
    let label = script_label(record.script.as_str());
    let target = display_target(record.target.as_str());
    let mut out: Vec<String> = Vec::new();
    if record.skipped {
        let msg = match &record.skip_reason {
            Some(m) => m.as_str(),
            None => "port closed",
        };
        out.push(status_line(enabled, "SKIP", target.as_str(), label.as_str(), Some(msg)));
        assert(views(out@) =~= live_run_spec(enabled, *record));
    } else if let Some(err) = &record.error {
        out.push(status_line(enabled, "ERROR", target.as_str(), label.as_str(), Some(err.as_str())));
        assert(views(out@) =~= live_run_spec(enabled, *record));
    } else if record.detected {
        let mut i: usize = 0;
        while i < record.findings.len()
            invariant
                i <= record.findings.len(),
                views(out@) =~= Seq::new(i as nat, |k: int| finding_line_spec(enabled, record.target@, record.findings@[k]@)),
            decreases record.findings.len() - i,
        {
            let ghost old_out = out@;
            let line = finding_line(enabled, record.target.as_str(), &record.findings[i]);
            out.push(line);
            assert(views(out@) =~= views(old_out).push(line@));
            assert(views(out@) =~= Seq::new((i + 1) as nat, |k: int| finding_line_spec(enabled, record.target@, record.findings@[k]@)));
            i = i + 1;
        }
        assert(views(out@) =~= live_run_spec(enabled, *record));
    } else {
        out.push(status_line(enabled, "OK", target.as_str(), label.as_str(), None));
        assert(views(out@) =~= live_run_spec(enabled, *record));
    }
    out
}

/// Exit status of a scan: 1 when any run failed, else 0.
pub fn exit_code_from_report(report: &ScanRunReport) -> (r: i32)
    ensures
        r == if report.summary.failed > 0 { 1i32 } else { 0i32 },
{
    if report.summary.failed > 0 {
        1
    } else {
        0
    }
}

/// The report format implied by a `--report` path's extension
/// (ASCII case-insensitive): `.json` or `.csv`.
pub open spec fn report_format_spec(path: Seq<char>) -> Option<ReportFormat> {
    match extension_spec(path) {
        Some(e) => {
            let l = e.map_values(|c: char| ascii_lower(c));
            if l == "json"@ {
                Some(ReportFormat::Json)
            } else if l == "csv"@ {
                Some(ReportFormat::Csv)
            } else {
                None
            }
        },
        None => None,
    }
}

/// The error for a `--report` path without a `.json` / `.csv` extension.
pub open spec fn unsupported_report_message(path: Seq<char>) -> Seq<char> {
    "unsupported --report file `"@ + path + "`: use a .json or .csv extension"@
}

/// The report format implied by a `--report` path's extension, or an error
/// if the extension isn't `.json` / `.csv`.
pub fn report_format_from_path(path: &str) -> (r: Result<ReportFormat, String>)
    ensures
        match r {
            Ok(f) => report_format_spec(path@) == Some(f),
            Err(m) => report_format_spec(path@) is None && m@ == unsupported_report_message(path@),
        },
{
    if let Some(e) = extension(path) {
        let l = to_ascii_lowercase(e.as_str());
        if str_eq(l.as_str(), "json") {
            return Ok(ReportFormat::Json);
        } else if str_eq(l.as_str(), "csv") {
            return Ok(ReportFormat::Csv);
        }
    }
    let mut m = String::new();
    m.append("unsupported --report file `");
    m.append(path);
    m.append("`: use a .json or .csv extension");
    Err(m)
}

/// Validate the `--report` path (if any) before scanning, so a bad extension
/// fails fast rather than after a full run.
pub fn validate_report_options(report_path: Option<&str>) -> (r: Result<(), String>)
    ensures
        match report_path {
            Some(p) => match r {
                Ok(()) => report_format_spec(p@) is Some,
                Err(m) => report_format_spec(p@) is None && m@ == unsupported_report_message(p@),
            },
            None => r is Ok,
        },
{
    match report_path {
        Some(path) => match report_format_from_path(path) {
            Ok(_) => Ok(()),
            Err(m) => Err(m),
        },
        None => Ok(()),
    }
}

/// Column headings of the summary table, in bucket order.
pub open spec fn head_spec() -> Seq<Seq<char>> {
    seq!["detected"@, "failed"@, "skipped"@, "clean"@]
}

/// SGR code a non-zero count of bucket `i` is painted with.
pub open spec fn paint_code(i: int) -> Seq<char> {
    if i == 0 || i == 1 {
        "31"@
    } else if i == 2 {
        "33"@
    } else {
        "32"@
    }
}

/// Width of the target column: its widest target or the `target` heading.
pub open spec fn target_width(ts: Seq<TargetTally>) -> nat
    decreases ts.len(),
{
    if ts.len() == 0 {
        6
    } else {
        let w = target_width(ts.drop_last());
        let l = ts.last().target@.len();
        if l > w { l } else { w }
    }
}

/// Width of count column `i`: its heading or its widest count.
pub open spec fn count_width(ts: Seq<TargetTally>, i: int) -> nat
    decreases ts.len(),
{
    if ts.len() == 0 {
        head_spec()[i].len()
    } else {
        let w = count_width(ts.drop_last(), i);
        let l = decimal(ts.last().counts@[i] as nat).len();
        if l > w { l } else { w }
    }
}

/// A horizontal rule: `left`, a run of `─` per column (its width plus one
/// space each side), `mid` between columns, `right`.
pub open spec fn rule_spec(ts: Seq<TargetTally>, left: char, mid: char, right: char) -> Seq<char> {
    seq![left] + repeat_spec('─', target_width(ts) + 2) + seq![mid] + repeat_spec('─', count_width(ts, 0) + 2)
        + seq![mid] + repeat_spec('─', count_width(ts, 1) + 2) + seq![mid] + repeat_spec('─', count_width(ts, 2) + 2)
        + seq![mid] + repeat_spec('─', count_width(ts, 3) + 2) + seq![right]
}

/// A table row from a painted target cell and four painted count cells.
pub open spec fn row_spec(target_cell: Seq<char>, cells: Seq<Seq<char>>) -> Seq<char> {
    "│ "@ + target_cell + " "@ + "│ "@ + cells[0] + " "@ + "│ "@ + cells[1] + " "@ + "│ "@ + cells[2] + " "@
        + "│ "@ + cells[3] + " "@ + "│"@
}

/// The count cell of bucket `i` for tally `t`: right-aligned, coloured when
/// non-zero, dimmed at zero.
pub open spec fn count_cell_spec(enabled: bool, ts: Seq<TargetTally>, t: TargetTally, i: int) -> Seq<char> {
    let cell = pad_left_spec(decimal(t.counts@[i] as nat), count_width(ts, i));
    if t.counts@[i] > 0 {
        paint_spec(enabled, paint_code(i), cell)
    } else {
        paint_spec(enabled, "2"@, cell)
    }
}

/// The blank line, top rule, heading row and middle rule of the table.
pub open spec fn table_head_spec(enabled: bool, ts: Seq<TargetTally>) -> Seq<Seq<char>> {
    let header = row_spec(
        paint_spec(enabled, "1"@, pad_right_spec("target"@, target_width(ts))),
        Seq::new(4, |i: int| paint_spec(enabled, "1"@, pad_left_spec(head_spec()[i], count_width(ts, i)))),
    );
    seq![Seq::<char>::empty(), rule_spec(ts, '┌', '┬', '┐'), header, rule_spec(ts, '├', '┼', '┤')]
}

/// One table row per tally.
pub open spec fn table_rows_spec(enabled: bool, ts: Seq<TargetTally>) -> Seq<Seq<char>> {
    Seq::new(ts.len(), |k: int| row_spec(
        paint_spec(enabled, "1"@, pad_right_spec(ts[k].target@, target_width(ts))),
        Seq::new(4, |i: int| count_cell_spec(enabled, ts, ts[k], i)),
    ))
}

/// The dimmed footer: `scan duration <d> · N run(s) across M target(s)`.
pub open spec fn footer_spec(enabled: bool, targets: nat, total: nat, duration: Seq<char>) -> Seq<char> {
    paint_spec(enabled, "2"@, "scan duration "@ + duration + " · "@ + decimal(total) + " run"@
        + (if total == 1 { ""@ } else { "s"@ }) + " across "@ + decimal(targets) + " target"@
        + (if targets == 1 { ""@ } else { "s"@ }))
}

/// The lines of the per-target summary table, then the footer line.
pub open spec fn summary_table_spec(enabled: bool, ts: Seq<TargetTally>, total: nat, duration: Seq<char>) -> Seq<Seq<char>> {
    table_head_spec(enabled, ts) + table_rows_spec(enabled, ts) + seq![
        rule_spec(ts, '└', '┴', '┘'),
        footer_spec(enabled, ts.len(), total, duration),
    ]
}

proof fn lemma_views_append(a: Seq<String>, b: Seq<String>)
    ensures
        views(a + b) == views(a) + views(b),
{
    assert(views(a + b) =~= views(a) + views(b));
}

fn table_widths(ts: &Vec<TargetTally>) -> (r: (usize, [usize; 4]))
    ensures
        r.0 == target_width(ts@),
        forall|i: int| 0 <= i < 4 ==> r.1@[i] == count_width(ts@, i),
{
    let heads = ["detected", "failed", "skipped", "clean"];
    let mut tw: usize = 6;
    let mut nw: [usize; 4] = [8, 6, 7, 5];
    proof {
        reveal_strlit("detected");
        reveal_strlit("failed");
        reveal_strlit("skipped");
        reveal_strlit("clean");
        assert(ts@.take(0) =~= Seq::<TargetTally>::empty());
    }
    let mut k: usize = 0;
    while k < ts.len()
        invariant
            k <= ts.len(),
            tw == target_width(ts@.take(k as int)),
            forall|i: int| 0 <= i < 4 ==> nw@[i] == count_width(ts@.take(k as int), i),
        decreases ts.len() - k,
    {
        let t = &ts[k];
        let l = t.target.as_str().unicode_len();
        proof {
            assert(ts@.take(k + 1).drop_last() =~= ts@.take(k as int));
            assert(ts@.take(k + 1).last() == ts@[k as int]);
        }
        if l > tw {
            tw = l;
        }
        let mut i: usize = 0;
        while i < 4
            invariant
                k < ts.len(),
                i <= 4,
                forall|c: int| 0 <= c < i ==> nw@[c] == count_width(ts@.take(k + 1), c),
                forall|c: int| i <= c < 4 ==> nw@[c] == count_width(ts@.take(k as int), c),
            decreases 4 - i,
        {
            let d = decimal_string(t.counts[i] as u64).as_str().unicode_len();
            if d > nw[i] {
                nw[i] = d;
            }
            i = i + 1;
        }
        k = k + 1;
    }
    proof {
        assert(ts@.take(ts.len() as int) =~= ts@);
    }
    (tw, nw)
}

fn push_bar(s: &mut String, w: usize)
    ensures
        final(s)@ == old(s)@ + repeat_spec('─', (w + 2) as nat),
{
    push_repeat(s, '─', w);
    s.push('─');
    s.push('─');
    assert(old(s)@ + repeat_spec('─', (w + 2) as nat) =~= old(s)@ + repeat_spec('─', w as nat) + seq!['─'] + seq!['─']);
}

fn rule(tw: usize, nw: &[usize; 4], left: char, mid: char, right: char) -> (r: String)
    ensures
        r@ == seq![left] + repeat_spec('─', (tw + 2) as nat) + seq![mid] + repeat_spec('─', (nw@[0] + 2) as nat)
            + seq![mid] + repeat_spec('─', (nw@[1] + 2) as nat) + seq![mid] + repeat_spec('─', (nw@[2] + 2) as nat)
            + seq![mid] + repeat_spec('─', (nw@[3] + 2) as nat) + seq![right],
{
    let mut s = String::new();
    s.push(left);
    push_bar(&mut s, tw);
    s.push(mid);
    push_bar(&mut s, nw[0]);
    s.push(mid);
    push_bar(&mut s, nw[1]);
    s.push(mid);
    push_bar(&mut s, nw[2]);
    s.push(mid);
    push_bar(&mut s, nw[3]);
    s.push(right);
    s
}

fn row_line(target_cell: &str, cells: &Vec<String>) -> (r: String)
    requires
        cells@.len() == 4,
    ensures
        r@ == row_spec(target_cell@, views(cells@)),
{
    let mut s = String::new();
    s.append("│ ");
    s.append(target_cell);
    s.append(" ");
    s.append("│ ");
    s.append(cells[0].as_str());
    s.append(" ");
    s.append("│ ");
    s.append(cells[1].as_str());
    s.append(" ");
    s.append("│ ");
    s.append(cells[2].as_str());
    s.append(" ");
    s.append("│ ");
    s.append(cells[3].as_str());
    s.append(" ");
    s.append("│");
    s
}

fn paint_count(enabled: bool, i: usize, cell: &str) -> (r: String)
    requires
        i < 4,
    ensures
        r@ == paint_spec(enabled, paint_code(i as int), cell@),
{
    if i == 0 || i == 1 {
        alert(enabled, cell)
    } else if i == 2 {
        caution(enabled, cell)
    } else {
        good(enabled, cell)
    }
}

fn table_head(enabled: bool, tallies: &Vec<TargetTally>, tw: usize, nw: &[usize; 4]) -> (r: Vec<String>)
    requires
        tw == target_width(tallies@),
        forall|c: int| 0 <= c < 4 ==> nw@[c] == count_width(tallies@, c),
    ensures
        views(r@) == table_head_spec(enabled, tallies@),
{
    let mut lines: Vec<String> = Vec::new();
    lines.push(String::new());
    lines.push(rule(tw, nw, '┌', '┬', '┐'));
    let heads = ["detected", "failed", "skipped", "clean"];
    let mut head_cells: Vec<String> = Vec::new();
    let mut i: usize = 0;
    while i < 4
        invariant
            i <= 4,
            heads@ == seq!["detected", "failed", "skipped", "clean"],
            views(head_cells@) == Seq::new(i as nat, |c: int| paint_spec(enabled, "1"@, pad_left_spec(head_spec()[c], count_width(tallies@, c)))),
        decreases 4 - i,
    {
        let ghost old_cells = head_cells@;
        let cell = heading(enabled, pad_left(heads[i], nw[i]).as_str());
        head_cells.push(cell);
        assert(views(head_cells@) =~= views(old_cells).push(cell@));
        assert(views(head_cells@) =~= Seq::new((i + 1) as nat, |c: int| paint_spec(enabled, "1"@, pad_left_spec(head_spec()[c], count_width(tallies@, c)))));
        i = i + 1;
    }
    let head_target = heading(enabled, pad_right("target", tw).as_str());
    lines.push(row_line(head_target.as_str(), &head_cells));
    lines.push(rule(tw, nw, '├', '┼', '┤'));
    assert(views(lines@) =~= table_head_spec(enabled, tallies@));
    lines
}

fn table_rows(enabled: bool, tallies: &Vec<TargetTally>, tw: usize, nw: &[usize; 4]) -> (r: Vec<String>)
    requires
        tw == target_width(tallies@),
        forall|c: int| 0 <= c < 4 ==> nw@[c] == count_width(tallies@, c),
    ensures
        views(r@) == table_rows_spec(enabled, tallies@),
{
    let mut lines: Vec<String> = Vec::new();
    let mut k: usize = 0;
    while k < tallies.len()
        invariant
            k <= tallies.len(),
            views(lines@) =~= table_rows_spec(enabled, tallies@).take(k as int),
        decreases tallies.len() - k,
    {
        let t = &tallies[k];
        let target_cell = bold_target(enabled, pad_right(t.target.as_str(), tw).as_str());
        let mut cells: Vec<String> = Vec::new();
        let mut i: usize = 0;
        while i < 4
            invariant
                i <= 4,
                k < tallies.len(),
                views(cells@) == Seq::new(i as nat, |c: int| count_cell_spec(enabled, tallies@, tallies@[k as int], c)),
            decreases 4 - i,
        {
            let n = t.counts[i];
            let text = pad_left(decimal_string(n as u64).as_str(), nw[i]);
            let cell = if n > 0 { paint_count(enabled, i, text.as_str()) } else { dim(enabled, text.as_str()) };
            let ghost old_cells = cells@;
            cells.push(cell);
            assert(views(cells@) =~= views(old_cells).push(cell@));
            assert(views(cells@) =~= Seq::new((i + 1) as nat, |c: int| count_cell_spec(enabled, tallies@, tallies@[k as int], c)));
            i = i + 1;
        }
        let ghost old_lines = lines@;
        let line = row_line(target_cell.as_str(), &cells);
        lines.push(line);
        assert(views(lines@) =~= views(old_lines).push(line@));
        assert(table_rows_spec(enabled, tallies@).take(k + 1) =~= table_rows_spec(enabled, tallies@).take(k as int).push(line@));
        k = k + 1;
    }
    assert(table_rows_spec(enabled, tallies@).take(tallies.len() as int) =~= table_rows_spec(enabled, tallies@));
    lines
}

fn footer_line(enabled: bool, targets: usize, total: usize, duration: &str) -> (r: String)
    ensures
        r@ == footer_spec(enabled, targets as nat, total as nat, duration@),
{
    let mut footer = String::new();
    footer.append("scan duration ");
    footer.append(duration);
    footer.append(" · ");
    footer.append(decimal_string(total as u64).as_str());
    footer.append(" run");
    footer.append(plural(total));
    footer.append(" across ");
    footer.append(decimal_string(targets as u64).as_str());
    footer.append(" target");
    footer.append(plural(targets));
    dim(enabled, footer.as_str())
}

/// Render the multi-run outcome as a per-target table followed by the footer
/// `scan duration <duration> · N runs across M targets`; `duration` is the
/// already formatted elapsed time. Returns the printed lines.
pub fn print_summary_table(report: &ScanRunReport, enabled: bool, duration: &str) -> (r: Vec<String>)
    ensures
        exists|ts: Seq<TargetTally>| tallied(ts, report.records()) && views(r@) == summary_table_spec(
            enabled,
            ts,
            report.summary.total_runs as nat,
            duration@,
        ),
{
    let tallies = tally_by_target(report);
    let (tw, nw) = table_widths(&tallies);
    let mut lines = table_head(enabled, &tallies, tw, &nw);
    let mut rows = table_rows(enabled, &tallies, tw, &nw);
    let mut tail: Vec<String> = Vec::new();
    tail.push(rule(tw, &nw, '└', '┴', '┘'));
    tail.push(footer_line(enabled, tallies.len(), report.summary.total_runs, duration));
    let ghost h = lines@;
    let ghost rw = rows@;
    let ghost tl = tail@;
    lines.append(&mut rows);
    lines.append(&mut tail);
    proof {
        lemma_views_append(h, rw);
        lemma_views_append(h + rw, tl);
        assert(lines@ == h + rw + tl);
        assert(views(tl) =~= seq![rule_spec(tallies@, '└', '┴', '┘'), footer_spec(enabled, tallies@.len(), report.summary.total_runs as nat, duration@)]);
    }
    lines
}

/// Whether the human output ends with the summary table: for a multi-run
/// scan, when something was detected or failed, or always when verbose.
pub fn should_print_summary(report: &ScanRunReport, verbose: bool) -> (b: bool)
    ensures
        b == (report.summary.total_runs > 1 && (report.summary.detected > 0 || report.summary.failed > 0 || verbose)),
{
    let multi = report.summary.total_runs > 1;
    multi && (report.summary.detected > 0 || report.summary.failed > 0 || verbose)
}

/// A target section's count for bucket `b`.
pub open spec fn summary_bucket(s: TargetSummary, b: int) -> int {
    if b == detected_bucket() {
        s.detected as int
    } else if b == failed_bucket() {
        s.failed as int
    } else if b == skipped_bucket() {
        s.skipped as int
    } else {
        s.clean as int
    }
}

/// Sum of bucket `b` over the target sections `ts`.
pub open spec fn sum_bucket(ts: Seq<TargetReport>, b: int) -> int
    decreases ts.len(),
{
    if ts.len() == 0 {
        0
    } else {
        sum_bucket(ts.drop_last(), b) + summary_bucket(ts.last().summary, b)
    }
}

/// Sum of `count_for(rs, t, b)` over the targets `fs`.
pub open spec fn sum_for(fs: Seq<Seq<char>>, rs: Seq<ScanResultRecord>, b: int) -> int
    decreases fs.len(),
{
    if fs.len() == 0 {
        0
    } else {
        sum_for(fs.drop_last(), rs, b) + count_for(rs, fs.last(), b)
    }
}

/// Law: once a report is grouped by target, each bucket's per-target counts
/// add up to the whole-run count of that bucket, so no run is lost or counted
/// twice by the grouping.
pub proof fn law_target_counts_add_up(report: &ScanRunReport)
    requires
        report.counts_match(),
        grouped_by_target(report.targets@, report.records()),
    ensures
        sum_bucket(report.targets@, detected_bucket()) == report.summary.detected,
        sum_bucket(report.targets@, failed_bucket()) == report.summary.failed,
        sum_bucket(report.targets@, skipped_bucket()) == report.summary.skipped,
        sum_bucket(report.targets@, clean_bucket()) == report.summary.clean,
{
    let rs = report.records();
    let ts = report.targets@;
    assert(rs.len() == report.results.len());
    assert forall|b: int| 0 <= b < 4 implies #[trigger] sum_bucket(ts, b) == count_in(rs, b) by {
        lemma_sum_bucket_is_sum_for(ts, rs, b, ts.len() as int);
        assert(ts.take(ts.len() as int) =~= ts);
        assert(first_seen(rs).take(ts.len() as int) =~= first_seen(rs));
        lemma_sum_for_first_seen(rs, b);
    }
    assert(sum_bucket(ts, 0) == count_in(rs, 0));
    assert(sum_bucket(ts, 1) == count_in(rs, 1));
    assert(sum_bucket(ts, 2) == count_in(rs, 2));
    assert(sum_bucket(ts, 3) == count_in(rs, 3));
}

proof fn lemma_sum_bucket_is_sum_for(ts: Seq<TargetReport>, rs: Seq<ScanResultRecord>, b: int, n: int)
    requires
        0 <= b < 4,
        0 <= n <= ts.len(),
        rs.len() <= usize::MAX,
        grouped_by_target(ts, rs),
    ensures
        sum_bucket(ts.take(n), b) == sum_for(first_seen(rs).take(n), rs, b),
    decreases n,
{
    if n > 0 {
        lemma_sum_bucket_is_sum_for(ts, rs, b, n - 1);
        assert(ts.take(n).drop_last() =~= ts.take(n - 1));
        assert(first_seen(rs).take(n).drop_last() =~= first_seen(rs).take(n - 1));
        assert(ts.take(n).last() == ts[n - 1]);
        assert(ts[n - 1].target@ == first_seen(rs)[n - 1]);
        lemma_count_for_bound(rs, first_seen(rs)[n - 1], b);
        assert(summary_bucket(ts[n - 1].summary, b) == count_for(rs, first_seen(rs)[n - 1], b));
    }
}

/// Summing a bucket over the first-seen targets gives the bucket's count.
proof fn lemma_sum_for_first_seen(rs: Seq<ScanResultRecord>, b: int)
    ensures
        sum_for(first_seen(rs), rs, b) == count_in(rs, b),
    decreases rs.len(),
{
    if rs.len() > 0 {
        let p = rs.drop_last();
        let r = rs.last();
        assert(p.push(r) =~= rs);
        lemma_sum_for_first_seen(p, b);
        lemma_first_seen_distinct(p);
        lemma_sum_for_push(first_seen(p), p, r, b);
        lemma_step(p, r, r.target@);
        if !first_seen(p).contains(r.target@) {
            lemma_first_seen_contains(p, r.target@);
            lemma_absent_target(p, r.target@);
            let fs = first_seen(p).push(r.target@);
            assert(fs.drop_last() =~= first_seen(p));
            assert(count_for(rs, r.target@, b) == count_for(p, r.target@, b) + if bucket(r) == b { 1int } else { 0int }) by {
                assert(rs.drop_last() =~= p);
            }
        }
        assert(count_in(rs, b) == count_in(p, b) + if bucket(r) == b { 1int } else { 0int });
    }
}

/// Adding one record changes the sum over distinct targets `fs` only through
/// the record's own target.
proof fn lemma_sum_for_push(fs: Seq<Seq<char>>, rs: Seq<ScanResultRecord>, r: ScanResultRecord, b: int)
    requires
        forall|x: int, y: int| 0 <= x < y < fs.len() ==> #[trigger] fs[x] != #[trigger] fs[y],
    ensures
        sum_for(fs, rs.push(r), b) == sum_for(fs, rs, b) + if fs.contains(r.target@) && bucket(r) == b {
            1int
        } else {
            0int
        },
    decreases fs.len(),
{
    if fs.len() > 0 {
        let p = fs.drop_last();
        assert forall|x: int, y: int| 0 <= x < y < p.len() implies #[trigger] p[x] != #[trigger] p[y] by {
            assert(p[x] == fs[x] && p[y] == fs[y]);
        }
        lemma_sum_for_push(p, rs, r, b);
        assert(rs.push(r).drop_last() =~= rs);
        assert(rs.push(r).last() == r);
        if fs.last() == r.target@ {
            assert(!p.contains(r.target@)) by {
                if p.contains(r.target@) {
                    let x = choose|x: int| 0 <= x < p.len() && p[x] == r.target@;
                    assert(fs[x] == fs[fs.len() - 1]);
                }
            }
        } else {
            assert(p.contains(r.target@) == fs.contains(r.target@)) by {
                if fs.contains(r.target@) {
                    let x = choose|x: int| 0 <= x < fs.len() && fs[x] == r.target@;
                    assert(p[x] == fs[x]);
                }
                if p.contains(r.target@) {
                    let x = choose|x: int| 0 <= x < p.len() && p[x] == r.target@;
                    assert(fs[x] == p[x]);
                }
            }
        }
    }
}

proof fn lemma_count_by_bound(rs: Seq<ScanResultRecord>, key: spec_fn(ScanResultRecord) -> Seq<char>, t: Seq<char>, b: int)
    ensures
        count_by(rs, key, t, b) <= rs.len(),
    decreases rs.len(),
{
    if rs.len() > 0 {
        lemma_count_by_bound(rs.drop_last(), key, t, b);
    }
}

proof fn lemma_count_for_bound(rs: Seq<ScanResultRecord>, t: Seq<char>, b: int)
    ensures
        count_for(rs, t, b) <= rs.len(),
{
    lemma_count_by_bound(rs, by_target(), t, b);
}

/// Counting one more record adds one to its own bucket only.
pub proof fn lemma_count_in_push(rs: Seq<ScanResultRecord>, r: ScanResultRecord)
    ensures
        forall|b: int| #[trigger] count_in(rs.push(r), b) == count_in(rs, b) + if bucket(r) == b {
            1nat
        } else {
            0nat
        },
{
    assert(rs.push(r).drop_last() =~= rs);
}

/// Counting one more record, seen from key `t`.
proof fn lemma_step_by(rs: Seq<ScanResultRecord>, key: spec_fn(ScanResultRecord) -> Seq<char>, r: ScanResultRecord, t: Seq<char>)
    ensures
        forall|b: int| #[trigger] count_by(rs.push(r), key, t, b) == count_by(rs, key, t, b) + if key(r) == t && bucket(r) == b {
            1nat
        } else {
            0nat
        },
        first_seen_by(rs.push(r), key) == if first_seen_by(rs, key).contains(key(r)) {
            first_seen_by(rs, key)
        } else {
            first_seen_by(rs, key).push(key(r))
        },
{
    assert(rs.push(r).drop_last() =~= rs);
    assert(rs.push(r).last() == r);
}

/// Counting and collecting one more record, seen from target `t`.
proof fn lemma_step(rs: Seq<ScanResultRecord>, r: ScanResultRecord, t: Seq<char>)
    ensures
        target_counts(rs.push(r), t) == (if r.target@ == t {
            TargetSummary {
                detected: (count_for(rs, t, detected_bucket()) + if bucket(r) == detected_bucket() { 1nat } else { 0nat }) as usize,
                failed: (count_for(rs, t, failed_bucket()) + if bucket(r) == failed_bucket() { 1nat } else { 0nat }) as usize,
                skipped: (count_for(rs, t, skipped_bucket()) + if bucket(r) == skipped_bucket() { 1nat } else { 0nat }) as usize,
                clean: (count_for(rs, t, clean_bucket()) + if bucket(r) == clean_bucket() { 1nat } else { 0nat }) as usize,
            }
        } else {
            target_counts(rs, t)
        }),
        findings_for(rs.push(r), t) == if r.target@ == t {
            findings_for(rs, t) + finding_views(r.findings@)
        } else {
            findings_for(rs, t)
        },
        first_seen(rs.push(r)) == if first_seen(rs).contains(r.target@) {
            first_seen(rs)
        } else {
            first_seen(rs).push(r.target@)
        },
{
    lemma_step_by(rs, by_target(), r, t);
    assert(rs.push(r).drop_last() =~= rs);
    assert(rs.push(r).last() == r);
}

/// Re-establishing the grouping after one more record was folded in.
proof fn lemma_regroup(
    start: Seq<TargetReport>,
    now: Seq<TargetReport>,
    pre: Seq<ScanResultRecord>,
    r: ScanResultRecord,
    j: int,
)
    requires
        grouped_by_target(start, pre),
        0 <= j < now.len(),
        now.len() == first_seen(pre.push(r)).len(),
        first_seen(pre.push(r))[j] == r.target@,
        j < start.len() ==> now.len() == start.len(),
        j >= start.len() ==> j == start.len() && now.len() == start.len() + 1,
        now[j].target@ == r.target@,
        now[j].summary == target_counts(pre.push(r), r.target@),
        finding_views(now[j].findings@) == findings_for(pre.push(r), r.target@),
        forall|k: int| 0 <= k < now.len() && k != j ==> now[k] == start[k],
        forall|k: int| 0 <= k < start.len() ==> first_seen(pre.push(r))[k] == first_seen(pre)[k],
    ensures
        grouped_by_target(now, pre.push(r)),
{
    let post = pre.push(r);
    let fs = first_seen(pre);
    let fs2 = first_seen(post);
    lemma_first_seen_distinct(post);
    assert forall|k: int| 0 <= k < now.len() implies {
        &&& #[trigger] now[k].target@ == fs2[k]
        &&& now[k].summary == target_counts(post, fs2[k])
        &&& finding_views(now[k].findings@) == findings_for(post, fs2[k])
    } by {
        if k != j {
            assert(k < start.len());
            assert(fs2[k] != r.target@);
            assert(now[k] == start[k]);
            assert(start[k].target@ == fs[k]);
            lemma_step(pre, r, fs[k]);
        }
    }
}

/// `t` is among the first-seen keys of `rs` exactly when some record has key `t`.
proof fn lemma_first_seen_contains_by(rs: Seq<ScanResultRecord>, key: spec_fn(ScanResultRecord) -> Seq<char>, t: Seq<char>)
    ensures
        first_seen_by(rs, key).contains(t) <==> exists|i: int| 0 <= i < rs.len() && #[trigger] key(rs[i]) == t,
    decreases rs.len(),
{
    if rs.len() > 0 {
        let p = rs.drop_last();
        let last = rs.last();
        lemma_first_seen_contains_by(p, key, t);
        if first_seen_by(rs, key).contains(t) {
            if first_seen_by(p, key).contains(t) {
                let i = choose|i: int| 0 <= i < p.len() && #[trigger] key(p[i]) == t;
                assert(rs[i] == p[i]);
            } else {
                assert(first_seen_by(rs, key) == first_seen_by(p, key).push(key(last)));
                let k = choose|k: int| 0 <= k < first_seen_by(rs, key).len() && first_seen_by(rs, key)[k] == t;
                if k < first_seen_by(p, key).len() {
                    assert(first_seen_by(p, key)[k] == t);
                    assert(false);
                }
                assert(key(rs[rs.len() - 1]) == t);
            }
        }
        if exists|i: int| 0 <= i < rs.len() && #[trigger] key(rs[i]) == t {
            let i = choose|i: int| 0 <= i < rs.len() && #[trigger] key(rs[i]) == t;
            if i < rs.len() - 1 {
                assert(p[i] == rs[i]);
                assert(first_seen_by(p, key).contains(t));
                if !first_seen_by(p, key).contains(key(last)) {
                    let k = choose|k: int| 0 <= k < first_seen_by(p, key).len() && first_seen_by(p, key)[k] == t;
                    assert(first_seen_by(rs, key)[k] == t);
                }
            } else {
                if !first_seen_by(p, key).contains(key(last)) {
                    assert(first_seen_by(rs, key)[first_seen_by(p, key).len() as int] == t);
                }
            }
        }
    }
}

/// `t` is among the first-seen targets of `rs` exactly when some record targets it.
proof fn lemma_first_seen_contains(rs: Seq<ScanResultRecord>, t: Seq<char>)
    ensures
        first_seen(rs).contains(t) <==> exists|i: int| 0 <= i < rs.len() && #[trigger] rs[i].target@ == t,
{
    lemma_first_seen_contains_by(rs, by_target(), t);
    if exists|i: int| 0 <= i < rs.len() && #[trigger] rs[i].target@ == t {
        let i = choose|i: int| 0 <= i < rs.len() && #[trigger] rs[i].target@ == t;
        assert(by_target()(rs[i]) == t);
    }
}

/// The first-seen keys are pairwise distinct.
proof fn lemma_first_seen_distinct_by(rs: Seq<ScanResultRecord>, key: spec_fn(ScanResultRecord) -> Seq<char>)
    ensures
        forall|a: int, b: int|
            0 <= a < b < first_seen_by(rs, key).len() ==> #[trigger] first_seen_by(rs, key)[a] != #[trigger] first_seen_by(rs, key)[b],
    decreases rs.len(),
{
    if rs.len() > 0 {
        let p = rs.drop_last();
        lemma_first_seen_distinct_by(p, key);
        if !first_seen_by(p, key).contains(key(rs.last())) {
            let fs = first_seen_by(rs, key);
            assert forall|a: int, b: int| 0 <= a < b < fs.len() implies #[trigger] fs[a] != #[trigger] fs[b] by {
                if b == fs.len() - 1 {
                    assert(fs[a] == first_seen_by(p, key)[a]);
                }
            }
        }
    }
}

/// The first-seen targets are pairwise distinct.
proof fn lemma_first_seen_distinct(rs: Seq<ScanResultRecord>)
    ensures
        forall|a: int, b: int|
            0 <= a < b < first_seen(rs).len() ==> #[trigger] first_seen(rs)[a] != #[trigger] first_seen(rs)[b],
{
    lemma_first_seen_distinct_by(rs, by_target());
}

/// A key no record has gets zero counts.
proof fn lemma_absent_key(rs: Seq<ScanResultRecord>, key: spec_fn(ScanResultRecord) -> Seq<char>, t: Seq<char>)
    requires
        forall|i: int| 0 <= i < rs.len() ==> #[trigger] key(rs[i]) != t,
    ensures
        forall|b: int| #[trigger] count_by(rs, key, t, b) == 0,
    decreases rs.len(),
{
    if rs.len() > 0 {
        let p = rs.drop_last();
        assert forall|i: int| 0 <= i < p.len() implies #[trigger] key(p[i]) != t by {
            assert(p[i] == rs[i]);
        }
        assert(key(rs[rs.len() - 1]) != t);
        lemma_absent_key(p, key, t);
        assert forall|b: int| #[trigger] count_by(rs, key, t, b) == 0 by {
            assert(count_by(p, key, t, b) == 0);
        }
    }
}

/// A target no record names has zero counts and no findings.
proof fn lemma_absent_target(rs: Seq<ScanResultRecord>, t: Seq<char>)
    requires
        forall|i: int| 0 <= i < rs.len() ==> #[trigger] rs[i].target@ != t,
    ensures
        forall|b: int| #[trigger] count_for(rs, t, b) == 0,
        findings_for(rs, t) == Seq::<FindingView>::empty(),
    decreases rs.len(),
{
    assert forall|i: int| 0 <= i < rs.len() implies #[trigger] by_target()(rs[i]) != t by {
        assert(rs[i].target@ != t);
    }
    lemma_absent_key(rs, by_target(), t);
    if rs.len() > 0 {
        let p = rs.drop_last();
        assert forall|i: int| 0 <= i < p.len() implies #[trigger] p[i].target@ != t by {
            assert(p[i] == rs[i]);
        }
        assert(rs[rs.len() - 1].target@ != t);
        lemma_absent_target(p, t);
    }
}

} // verus!

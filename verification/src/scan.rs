//! The decisions of a scan run (`scan` and `exec`): what to run, the
//! (target × script) work plan, what is printed live for each finished run,
//! how finished runs are reported in plan order, and when the `--insecure`
//! hint is due. Running the scripts is the binary's.

use vstd::prelude::*;

use crate::report::{bucket, bucket_count, count_in, finding_line, finding_line_spec, lemma_count_in_push, live_run_spec, print_live_run, ScanResultRecord, ScanRunReport};
use crate::text::{contains_str, contains_sub, str_eq, to_ascii_lowercase, views};

verus! {

broadcast use vstd::string::group_string_axioms;

/// What `scan` runs.
#[derive(Debug)]
pub enum ScanSelection {
    /// `--script <path|ref>`.
    Script(String),
    /// `--family <name>`.
    Family(String),
}

/// Exactly one of `--script` and `--family` selects what `scan` runs.
pub fn select_scan_input(script: Option<&str>, family: Option<&str>) -> (r: Result<ScanSelection, String>)
    ensures
        (script is Some && family is Some) ==> (r matches Err(m)
            && m@ == "--script and --family are mutually exclusive; pass only one"@),
        (script is None && family is None) ==> (r matches Err(m)
            && m@ == "nothing to scan: pass --script <path|ref> or --family <name>"@),
        (script is Some && family is None) ==> (r matches Ok(ScanSelection::Script(t)) && t@ == script.unwrap()@),
        (script is None && family is Some) ==> (r matches Ok(ScanSelection::Family(t)) && t@ == family.unwrap()@),
{
    match (script, family) {
        (Some(_), Some(_)) => Err(String::from_str("--script and --family are mutually exclusive; pass only one")),
        (None, None) => Err(String::from_str("nothing to scan: pass --script <path|ref> or --family <name>")),
        (Some(s), None) => Ok(ScanSelection::Script(s.to_string())),
        (None, Some(f)) => Ok(ScanSelection::Family(f.to_string())),
    }
}

/// The (target, script) pairs of a run, target-major: every script against
/// the first target, then the second, and so on. Results are reported in
/// this order whatever order they finish in.
pub fn job_plan(n_targets: usize, n_scripts: usize) -> (jobs: Vec<(usize, usize)>)
    requires
        n_targets * n_scripts <= usize::MAX,
    ensures
        jobs@.len() == n_targets * n_scripts,
        forall|t: int, s: int| 0 <= t < n_targets && 0 <= s < n_scripts
            ==> #[trigger] jobs@[t * n_scripts + s] == (t as usize, s as usize),
{
    let mut jobs: Vec<(usize, usize)> = Vec::new();
    let mut ti: usize = 0;
    while ti < n_targets
        invariant
            ti <= n_targets,
            n_targets * n_scripts <= usize::MAX,
            jobs@.len() == ti * n_scripts,
            forall|t: int, s: int| 0 <= t < ti && 0 <= s < n_scripts
                ==> #[trigger] jobs@[t * n_scripts + s] == (t as usize, s as usize),
        decreases n_targets - ti,
    {
        let mut si: usize = 0;
        proof {
            assert(ti * n_scripts + n_scripts == (ti + 1) * n_scripts) by (nonlinear_arith);
            assert((ti + 1) * n_scripts <= n_targets * n_scripts) by (nonlinear_arith)
                requires ti + 1 <= n_targets;
        }
        while si < n_scripts
            invariant
                ti < n_targets,
                si <= n_scripts,
                ti * n_scripts + n_scripts <= usize::MAX,
                jobs@.len() == ti * n_scripts + si,
                forall|t: int, s: int| 0 <= t < ti && 0 <= s < n_scripts
                    ==> #[trigger] jobs@[t * n_scripts + s] == (t as usize, s as usize),
                forall|s: int| 0 <= s < si ==> #[trigger] jobs@[ti * n_scripts + s] == (ti, s as usize),
            decreases n_scripts - si,
        {
            let ghost before = jobs@;
            jobs.push((ti, si));
            proof {
                assert forall|t: int, s: int| 0 <= t < ti && 0 <= s < n_scripts
                    implies #[trigger] jobs@[t * n_scripts + s] == (t as usize, s as usize) by {
                    assert(t * n_scripts + s < ti * n_scripts) by (nonlinear_arith)
                        requires t < ti, 0 <= s < n_scripts;
                    assert(jobs@[t * n_scripts + s] == before[t * n_scripts + s]);
                }
            }
            si = si + 1;
        }
        proof {
            assert forall|t: int, s: int| 0 <= t < ti + 1 && 0 <= s < n_scripts
                implies #[trigger] jobs@[t * n_scripts + s] == (t as usize, s as usize) by {
                if t == ti {
                    assert(jobs@[ti * n_scripts + s] == (ti, s as usize));
                }
            }
            assert(jobs@.len() == (ti + 1) * n_scripts) by (nonlinear_arith)
                requires jobs@.len() == ti * n_scripts + n_scripts;
        }
        ti = ti + 1;
    }
    jobs
}

/// How many runs go at once: `--concurrency`, at least 1.
pub fn effective_concurrency(requested: usize) -> (r: usize)
    ensures
        r == (if requested < 1 { 1 } else { requested }),
{
    if requested < 1 { 1 } else { requested }
}

/// Whether live output names the target (more than one target).
pub fn multi_target(n_targets: usize) -> (r: bool)
    ensures
        r == (n_targets > 1),
{
    n_targets > 1
}

/// Whether a run's error is a TLS certificate rejection (its text mentions
/// `certificate`, in any ASCII case).
pub fn is_cert_failure(error: &str) -> (r: bool)
    ensures
        r == contains_sub(error@.map_values(|c: char| crate::text::ascii_lower(c)), "certificate"@),
{
    let lowered = to_ascii_lowercase(error);
    contains_str(lowered.as_str(), "certificate")
}

/// The `--insecure` hint is due when certificates are verified and some
/// target failed on its certificate without the resolver having warned
/// about it already.
pub open spec fn cert_hint_spec(verify_ssl: bool, failed: Seq<Seq<char>>, warned: Seq<Seq<char>>) -> bool {
    verify_ssl && exists|i: int| 0 <= i < failed.len() && !warned.contains(#[trigger] failed[i])
}

fn contains_text(v: &Vec<String>, s: &str) -> (r: bool)
    ensures
        r == views(v@).contains(s@),
{
    let mut i: usize = 0;
    while i < v.len()
        invariant
            i <= v.len(),
            forall|j: int| 0 <= j < i ==> (#[trigger] v@[j])@ != s@,
        decreases v.len() - i,
    {
        if str_eq(v[i].as_str(), s) {
            assert(views(v@)[i as int] == s@);
            return true;
        }
        i = i + 1;
    }
    proof {
        assert forall|j: int| 0 <= j < views(v@).len() implies views(v@)[j] != s@ by {
            assert(views(v@)[j] == v@[j]@);
        }
    }
    false
}

/// Whether to print the `--insecure` hint after the scan.
pub fn cert_hint_needed(verify_ssl: bool, failed: &Vec<String>, warned: &Vec<String>) -> (r: bool)
    ensures
        r == cert_hint_spec(verify_ssl, views(failed@), views(warned@)),
{
    if !verify_ssl {
        return false;
    }
    let mut i: usize = 0;
    while i < failed.len()
        invariant
            i <= failed.len(),
            forall|j: int| 0 <= j < i ==> views(warned@).contains(#[trigger] views(failed@)[j]),
        decreases failed.len() - i,
    {
        if !contains_text(warned, failed[i].as_str()) {
            assert(!views(warned@).contains(views(failed@)[i as int]));
            return true;
        }
        i = i + 1;
    }
    false
}

/// The hint printed when a certificate failed unannounced.
pub fn cert_hint_message() -> (r: String)
    ensures
        r@ == "a target's TLS certificate did not verify — pass --insecure to scan it (only if you accept the MITM / finding-injection risk)"@,
{
    String::from_str("a target's TLS certificate did not verify — pass --insecure to scan it (only if you accept the MITM / finding-injection risk)")
}

/// What is printed as a run finishes: its status lines when verbose,
/// otherwise one line per finding of a run that detected something.
pub open spec fn live_output_spec(record: ScanResultRecord, verbose: bool, enabled: bool) -> Seq<Seq<char>> {
    if verbose {
        live_run_spec(enabled, record)
    } else if record.detected {
        Seq::new(record.findings@.len(), |k: int| finding_line_spec(enabled, record.target@, record.findings@[k]@))
    } else {
        Seq::empty()
    }
}

/// The live console lines for one finished run.
pub fn live_output(record: &ScanResultRecord, verbose: bool, multi_target: bool, enabled: bool) -> (r: Vec<String>)
    ensures
        views(r@) == live_output_spec(*record, verbose, enabled),
{
    if verbose {
        return print_live_run(record, multi_target, enabled);
    }
    let mut out: Vec<String> = Vec::new();
    if record.detected {
        let mut i: usize = 0;
        while i < record.findings.len()
            invariant
                i <= record.findings.len(),
                views(out@) =~= Seq::new(i as nat, |k: int| finding_line_spec(enabled, record.target@, record.findings@[k]@)),
            decreases record.findings.len() - i,
        {
            let ghost before = out@;
            let line = finding_line(enabled, record.target.as_str(), &record.findings[i]);
            out.push(line);
            assert(views(out@) =~= views(before).push(line@));
            assert(views(out@) =~= Seq::new((i + 1) as nat, |k: int| finding_line_spec(enabled, record.target@, record.findings@[k]@)));
            i = i + 1;
        }
    }
    assert(views(out@) =~= live_output_spec(*record, verbose, enabled));
    out
}

/// The present entries of `s`, in order.
pub open spec fn present<T>(s: Seq<Option<T>>) -> Seq<T>
    decreases s.len(),
{
    if s.len() == 0 {
        Seq::empty()
    } else {
        match s.last() {
            Some(x) => present(s.drop_last()).push(x),
            None => present(s.drop_last()),
        }
    }
}

proof fn lemma_present_len<T>(s: Seq<Option<T>>)
    ensures
        present(s).len() <= s.len(),
    decreases s.len(),
{
    if s.len() > 0 {
        lemma_present_len(s.drop_last());
    }
}

/// Counting the present entries of a prefix of `s` never exceeds counting
/// those of all of `s`.
proof fn lemma_present_count_prefix(s: Seq<Option<ScanResultRecord>>, i: int, b: int)
    requires
        0 <= i <= s.len(),
    ensures
        count_in(present(s.take(i)), b) <= count_in(present(s), b),
    decreases s.len(),
{
    if i == s.len() {
        assert(s.take(i) =~= s);
    } else {
        let d = s.drop_last();
        assert(s.take(i) =~= d.take(i));
        lemma_present_count_prefix(d, i, b);
        match s.last() {
            Some(x) => lemma_count_in_push(present(d), x),
            None => {},
        }
    }
}

/// Add the finished runs to the report in plan order (slot order), skipping
/// slots that never finished; each run is counted in its bucket.
pub fn push_completed(report: &mut ScanRunReport, completed: Vec<Option<ScanResultRecord>>)
    requires
        forall|b: int| 0 <= b < 4 ==> #[trigger] bucket_count(old(report).summary, b) + count_in(present(completed@), b) <= usize::MAX,
    ensures
        final(report).records() == old(report).records() + present(completed@),
        forall|b: int| 0 <= b < 4 ==> #[trigger] bucket_count(final(report).summary, b) == bucket_count(old(report).summary, b) + count_in(present(completed@), b),
        old(report).counts_match() ==> final(report).counts_match(),
        final(report).targets@ == old(report).targets@,
        final(report).summary.total_runs == old(report).summary.total_runs,
{
    let ghost start = report.records();
    let ghost s0 = report.summary;
    let ghost matched = report.counts_match();
    let ghost orig = completed@;
    let mut rest = completed;
    let ghost mut k: int = 0;
    assert(orig.subrange(0, orig.len() as int) =~= orig);
    assert(orig.take(0) =~= Seq::<Option<ScanResultRecord>>::empty());
    while rest.len() > 0
        invariant
            0 <= k <= orig.len(),
            rest@ == orig.subrange(k, orig.len() as int),
            matched ==> report.counts_match(),
            report.records() == start + present(orig.take(k)),
            forall|b: int| 0 <= b < 4 ==> #[trigger] bucket_count(s0, b) + count_in(present(orig), b) <= usize::MAX,
            forall|b: int| 0 <= b < 4 ==> #[trigger] bucket_count(report.summary, b) == bucket_count(s0, b) + count_in(present(orig.take(k)), b),
            report.targets@ == old(report).targets@,
            report.summary.total_runs == old(report).summary.total_runs,
        decreases rest.len(),
    {
        let slot = rest.remove(0);
        proof {
            assert(slot == orig[k]);
            assert(rest@ =~= orig.subrange(k + 1, orig.len() as int));
            assert(orig.take(k + 1).drop_last() =~= orig.take(k));
            assert(orig.take(k + 1).last() == orig[k]);
        }
        match slot {
            Some(record) => {
                proof {
                    let p = present(orig.take(k));
                    lemma_count_in_push(p, record);
                    lemma_present_count_prefix(orig, k + 1, bucket(record));
                    assert(present(orig.take(k + 1)) == p.push(record));
                    assert(0 <= bucket(record) < 4);
                    assert(bucket_count(report.summary, bucket(record)) == bucket_count(s0, bucket(record)) + count_in(p, bucket(record)));
                }
                let ghost pre = report.summary;
                report.push_record(record);
                proof {
                    let p = present(orig.take(k));
                    assert(forall|b: int| 0 <= b < 4 ==> #[trigger] bucket_count(pre, b) == bucket_count(s0, b) + count_in(p, b));
                    assert(report.records() =~= start + present(orig.take(k + 1)));
                    assert(present(orig.take(k + 1)) == p.push(record));
                    lemma_count_in_push(p, record);
                    assert forall|b: int| 0 <= b < 4 implies #[trigger] bucket_count(report.summary, b) == bucket_count(s0, b) + count_in(present(orig.take(k + 1)), b) by {
                        assert(count_in(p.push(record), b) == count_in(p, b) + if bucket(record) == b { 1nat } else { 0nat });
                        assert(bucket_count(report.summary, b) == bucket_count(pre, b) + if bucket(record) == b { 1int } else { 0int });
                    }
                }
            },
            None => {
                proof {
                    assert(present(orig.take(k + 1)) == present(orig.take(k)));
                }
            },
        }
        proof {
            k = k + 1;
        }
    }
    assert(orig.take(k) =~= orig);
}

/// Whether a bytecode file holds raw bytecode (it starts with the format's
/// magic bytes) rather than the hex text `compile` writes.
pub fn is_raw_bytecode(data: &Vec<u8>, magic: &Vec<u8>) -> (r: bool)
    ensures
        r == (magic@.len() <= data@.len() && data@.subrange(0, magic@.len() as int) == magic@),
{
    if magic.len() > data.len() {
        return false;
    }
    let mut i: usize = 0;
    while i < magic.len()
        invariant
            magic.len() <= data.len(),
            i <= magic.len(),
            forall|j: int| 0 <= j < i ==> data@[j] == magic@[j],
        decreases magic.len() - i,
    {
        if data[i] != magic[i] {
            assert(data@.subrange(0, magic@.len() as int)[i as int] != magic@[i as int]);
            return false;
        }
        i = i + 1;
    }
    assert(data@.subrange(0, magic@.len() as int) =~= magic@);
    true
}

} // verus!

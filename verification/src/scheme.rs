//! The URL scheme of a bare-host `--target` (`example.com`, `10.0.0.5`).
//!
//! Production web is TLS-first, so https is probed first and http is tried
//! only when 443 does not answer at the connection level: a certificate or
//! HTTP-status problem never downgrades a target to cleartext. The probes
//! themselves are the caller's; `next_step` says which probe to run next, or
//! what the target resolves to, from the answers so far.

use vstd::prelude::*;

use crate::targets::{is_url, is_url_spec};
use crate::text::str_eq;

verus! {

broadcast use vstd::string::group_string_axioms;

/// The scheme applied when probing is off or no port answers.
#[derive(Debug, Clone, Copy, PartialEq, Eq, Structural)]
pub enum DefaultScheme {
    Https,
    Http,
}

/// The scheme's name.
pub open spec fn scheme_name(s: DefaultScheme) -> Seq<char> {
    match s {
        DefaultScheme::Https => "https"@,
        DefaultScheme::Http => "http"@,
    }
}

impl DefaultScheme {
    /// `https` or `http`.
    pub fn as_str(&self) -> (r: &'static str)
        ensures
            r@ == scheme_name(*self),
    {
        match self {
            DefaultScheme::Https => "https",
            DefaultScheme::Http => "http",
        }
    }
}

/// What controls bare-host resolution.
#[derive(Debug)]
pub struct ResolveOptions {
    /// Verify TLS certificates while probing (mirrors `--insecure`).
    pub verify_ssl: bool,
    /// Whether any script of the run makes HTTP requests; when none does,
    /// the scheme never reaches the wire and the `http://` carrier is kept.
    pub needs_http: bool,
    /// Scheme applied when probing is disabled or no port answers.
    pub default_scheme: DefaultScheme,
    /// Run the https-first probe; when false, apply `default_scheme`.
    pub probe: bool,
    /// HTTP proxy the probes go through.
    pub proxy: Option<String>,
}

/// `<scheme>://<target>`.
pub open spec fn with_scheme(scheme: Seq<char>, target: Seq<char>) -> Seq<char> {
    scheme + "://"@ + target
}

/// The `i`-th probe answer, false when there is none.
pub open spec fn answer(answers: Seq<bool>, i: int) -> bool {
    0 <= i < answers.len() && answers[i]
}

/// Whether the answers so far decide the target: it is a URL, no probing
/// applies, a probe answered, or all three probes were run.
pub open spec fn decided(target: Seq<char>, o: ResolveOptions, answers: Seq<bool>) -> bool {
    ||| is_url_spec(target)
    ||| !o.needs_http
    ||| !o.probe
    ||| answer(answers, 0)
    ||| answer(answers, 1)
    ||| answers.len() >= 3
}

/// What a target resolves to, with whether a certificate warning is due, given
/// the answers of the probes: (0) https honouring `verify_ssl`, (1) https
/// without verification, (2) http. A URL is kept as it is; without HTTP
/// scripts the `http://` carrier is used; without probing, the default
/// scheme; otherwise the first probe that answered decides (https for either
/// https probe, warning when only the unverified one answered and
/// verification is on), and the default scheme when none answered.
pub open spec fn resolve_spec(target: Seq<char>, o: ResolveOptions, answers: Seq<bool>) -> (Seq<char>, bool) {
    if is_url_spec(target) {
        (target, false)
    } else if !o.needs_http {
        (with_scheme("http"@, target), false)
    } else if !o.probe {
        (with_scheme(scheme_name(o.default_scheme), target), false)
    } else if answer(answers, 0) {
        (with_scheme("https"@, target), false)
    } else if answer(answers, 1) {
        (with_scheme("https"@, target), o.verify_ssl)
    } else if answer(answers, 2) {
        (with_scheme("http"@, target), false)
    } else {
        (with_scheme(scheme_name(o.default_scheme), target), false)
    }
}

/// The `k`-th probe: its URL and whether it verifies certificates.
pub open spec fn probe_spec(target: Seq<char>, o: ResolveOptions, k: int) -> (Seq<char>, bool) {
    if k == 0 {
        (with_scheme("https"@, target), o.verify_ssl)
    } else if k == 1 {
        (with_scheme("https"@, target), false)
    } else {
        (with_scheme("http"@, target), true)
    }
}

/// The next thing to do for one target.
#[derive(Debug)]
pub enum SchemeStep {
    /// Send a GET to `url` (verifying certificates or not) and report whether
    /// any HTTP response came back.
    Probe { url: String, verify_ssl: bool },
    /// The target resolves to `url`; `cert_warned` when 443 answered only
    /// with certificate checks off while verification is on.
    Done { url: String, cert_warned: bool },
}

fn scheme_url(scheme: &str, target: &str) -> (r: String)
    ensures
        r@ == with_scheme(scheme@, target@),
{
    let mut s = String::new();
    s.append(scheme);
    s.append("://");
    s.append(target);
    s
}

/// What to do next for `target`, given the answers of the probes run so
/// far (in order).
pub fn next_step(target: &str, opts: &ResolveOptions, answers: &Vec<bool>) -> (r: SchemeStep)
    ensures
        match r {
            SchemeStep::Done { url, cert_warned } => decided(target@, *opts, answers@)
                && (url@, cert_warned) == resolve_spec(target@, *opts, answers@),
            SchemeStep::Probe { url, verify_ssl } => !decided(target@, *opts, answers@)
                && (url@, verify_ssl) == probe_spec(target@, *opts, answers@.len() as int),
        },
{
    if is_url(target) {
        return SchemeStep::Done { url: target.to_string(), cert_warned: false };
    }
    if !opts.needs_http {
        return SchemeStep::Done { url: scheme_url("http", target), cert_warned: false };
    }
    if !opts.probe {
        return SchemeStep::Done { url: scheme_url(opts.default_scheme.as_str(), target), cert_warned: false };
    }
    let n = answers.len();
    if n >= 1 && answers[0] {
        return SchemeStep::Done { url: scheme_url("https", target), cert_warned: false };
    }
    if n >= 2 && answers[1] {
        return SchemeStep::Done { url: scheme_url("https", target), cert_warned: opts.verify_ssl };
    }
    if n >= 3 {
        if answers[2] {
            return SchemeStep::Done { url: scheme_url("http", target), cert_warned: false };
        }
        return SchemeStep::Done { url: scheme_url(opts.default_scheme.as_str(), target), cert_warned: false };
    }
    if n == 0 {
        SchemeStep::Probe { url: scheme_url("https", target), verify_ssl: opts.verify_ssl }
    } else if n == 1 {
        SchemeStep::Probe { url: scheme_url("https", target), verify_ssl: false }
    } else {
        SchemeStep::Probe { url: scheme_url("http", target), verify_ssl: true }
    }
}

/// The warning shown when 443 answers but its certificate does not verify.
pub fn cert_warning(target: &str) -> (r: String)
    ensures
        r@ == target@ + ": 443 is reachable but its TLS certificate did not verify; scanning over https — pass --insecure to complete the scan"@,
{
    let mut s = String::new();
    s.append(target);
    s.append(": 443 is reachable but its TLS certificate did not verify; scanning over https — pass --insecure to complete the scan");
    s
}

/// A bare host is never downgraded to cleartext once 443 answered: when
/// either https probe got a response, the target resolves to https; and it
/// resolves to http only when both https probes failed (or probing does not
/// apply).
pub proof fn law_no_downgrade_after_https_answer(target: Seq<char>, o: ResolveOptions, answers: Seq<bool>)
    requires
        !is_url_spec(target),
        o.needs_http,
        o.probe,
    ensures
        answer(answers, 0) || answer(answers, 1) ==> resolve_spec(target, o, answers).0 == with_scheme("https"@, target),
        resolve_spec(target, o, answers).0 == with_scheme("http"@, target) && o.default_scheme == DefaultScheme::Https
            ==> !answer(answers, 0) && !answer(answers, 1),
{
    if resolve_spec(target, o, answers).0 == with_scheme("http"@, target) && o.default_scheme == DefaultScheme::Https {
        if answer(answers, 0) || answer(answers, 1) {
            reveal_strlit("https");
            reveal_strlit("http");
            reveal_strlit("://");
            let a = with_scheme("https"@, target);
            let b = with_scheme("http"@, target);
            assert(a[4] == 's');
            assert(b[4] == ':');
        }
    }
}

/// The targets of a run, rewritten with explicit schemes, and those whose
/// certificate was warned about (each once).
#[derive(Debug)]
pub struct Resolved {
    pub urls: Vec<String>,
    pub cert_warned: Vec<String>,
}

impl Resolved {
    /// Nothing resolved yet.
    pub fn new() -> (r: Resolved)
        ensures
            r.urls@.len() == 0,
            r.cert_warned@.len() == 0,
    {
        Resolved { urls: Vec::new(), cert_warned: Vec::new() }
    }

    /// Record one resolved target: its URL is appended, and when it was
    /// warned about, it joins `cert_warned` unless already there.
    pub fn record(&mut self, url: String, warned: bool)
        ensures
            final(self).urls@ == old(self).urls@.push(url),
            warned && !old(self).cert_warned@.map_values(|s: String| s@).contains(url@)
                ==> final(self).cert_warned@.map_values(|s: String| s@)
                == old(self).cert_warned@.map_values(|s: String| s@).push(url@),
            !(warned && !old(self).cert_warned@.map_values(|s: String| s@).contains(url@))
                ==> final(self).cert_warned@ == old(self).cert_warned@,
    {
        if warned {
            let mut seen = false;
            let mut i: usize = 0;
            while i < self.cert_warned.len()
                invariant
                    i <= self.cert_warned.len(),
                    seen == exists|j: int| 0 <= j < i && (#[trigger] self.cert_warned@[j])@ == url@,
                decreases self.cert_warned.len() - i,
            {
                if str_eq(self.cert_warned[i].as_str(), url.as_str()) {
                    seen = true;
                }
                i = i + 1;
            }
            proof {
                let vs = self.cert_warned@.map_values(|s: String| s@);
                if seen {
                    let j = choose|j: int| 0 <= j < i && (#[trigger] self.cert_warned@[j])@ == url@;
                    assert(vs[j] == url@);
                } else {
                    assert forall|j: int| 0 <= j < vs.len() implies vs[j] != url@ by {
                        assert(vs[j] == self.cert_warned@[j]@);
                    }
                }
            }
            if !seen {
                let ghost before = self.cert_warned@;
                self.cert_warned.push(url.clone());
                assert(self.cert_warned@.map_values(|s: String| s@)
                    =~= before.map_values(|s: String| s@).push(url@));
            }
        }
        self.urls.push(url);
    }
}

} // verus!

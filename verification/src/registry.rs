//! The registry's wire model: which base URL to talk to, the endpoint paths
//! and search query the client sends, how an HTTP status becomes an error,
//! and the request/response records exchanged with the backend.

use vstd::prelude::*;

use crate::paths::slice_of;
use crate::text::{chars_of, clone_opt, decimal, decimal_string, opt_view, string_of};

verus! {

broadcast use vstd::string::group_string_axioms;

/// The registry used when neither `--registry` nor `RUSO_REGISTRY_URL` names one.
pub open spec fn default_registry_spec() -> Seq<char> {
    "http://127.0.0.1:8080"@
}

/// The built-in default registry URL.
pub fn default_registry() -> (r: String)
    ensures
        r@ == default_registry_spec(),
{
    String::from_str("http://127.0.0.1:8080")
}

/// Number of trailing `/` characters of `s`.
pub open spec fn trailing_slashes(s: Seq<char>) -> nat
    decreases s.len(),
{
    if s.len() > 0 && s.last() == '/' {
        1 + trailing_slashes(s.drop_last())
    } else {
        0
    }
}

/// `s.trim_end_matches('/')`.
pub open spec fn strip_slashes_spec(s: Seq<char>) -> Seq<char> {
    s.subrange(0, s.len() - trailing_slashes(s))
}

proof fn lemma_trailing_slashes_bound(s: Seq<char>)
    ensures
        trailing_slashes(s) <= s.len(),
    decreases s.len(),
{
    if s.len() > 0 && s.last() == '/' {
        lemma_trailing_slashes_bound(s.drop_last());
    }
}

/// `s` without its trailing `/` characters.
pub fn strip_trailing_slash(s: &str) -> (r: String)
    ensures
        r@ == strip_slashes_spec(s@),
{
    let cs = chars_of(s);
    let mut end: usize = cs.len();
    proof {
        lemma_trailing_slashes_bound(s@);
        assert(cs@.subrange(0, cs.len() as int) =~= cs@);
    }
    while end > 0 && cs[end - 1] == '/'
        invariant
            cs@ == s@,
            end <= cs.len(),
            trailing_slashes(s@) == (cs.len() - end) + trailing_slashes(cs@.subrange(0, end as int)),
        decreases end,
    {
        proof {
            let pre = cs@.subrange(0, end as int);
            assert(pre.drop_last() =~= cs@.subrange(0, end - 1));
        }
        end = end - 1;
    }
    proof {
        assert(trailing_slashes(cs@.subrange(0, end as int)) == 0);
    }
    let kept = slice_of(&cs, 0, end);
    string_of(kept.as_slice())
}

/// Which registry a command talks to: the `--registry` flag, else a non-empty
/// `RUSO_REGISTRY_URL`, else the default; trailing `/` are dropped from the
/// first two.
pub open spec fn base_url_spec(flag: Option<Seq<char>>, env: Option<Seq<char>>) -> Seq<char> {
    match flag {
        Some(v) => strip_slashes_spec(v),
        None => match env {
            Some(v) => if v.len() > 0 { strip_slashes_spec(v) } else { default_registry_spec() },
            None => default_registry_spec(),
        },
    }
}

/// The registry base URL, from the `--registry` flag and the value of
/// `RUSO_REGISTRY_URL` (if set).
pub fn resolve_base_url(flag: Option<&str>, env_value: Option<&str>) -> (r: String)
    ensures
        r@ == base_url_spec(
            match flag { Some(v) => Some(v@), None => None },
            match env_value { Some(v) => Some(v@), None => None },
        ),
{
    match flag {
        Some(v) => strip_trailing_slash(v),
        None => match env_value {
            Some(v) => {
                if v.unicode_len() > 0 {
                    strip_trailing_slash(v)
                } else {
                    default_registry()
                }
            },
            None => default_registry(),
        },
    }
}

/// Failure of a registry call.
#[derive(Debug)]
pub enum RegistryError {
    /// Transport failure (connection, TLS, timeout, body read).
    Network(String),
    /// The base URL does not parse.
    BadUrl { url: String, reason: String },
    /// A non-success status other than 401.
    Http { status: u16, path: String, body: String },
    /// 401 from the backend.
    Unauthorized,
    /// The response body was not what was expected.
    Decode(String),
}

/// The text of a registry error.
pub open spec fn error_text(e: RegistryError) -> Seq<char> {
    match e {
        RegistryError::Network(m) => "network error: "@ + m@,
        RegistryError::BadUrl { url, reason } => "invalid registry URL `"@ + url@ + "`: "@ + reason@,
        RegistryError::Http { status, path, body } => "registry returned "@ + decimal(status as nat)
            + " at "@ + path@ + ": "@ + body@,
        RegistryError::Unauthorized => "authentication required (run `ruso login --token …`)"@,
        RegistryError::Decode(m) => "decode error: "@ + m@,
    }
}

impl RegistryError {
    /// The error's text, as shown to the user.
    pub fn message(&self) -> (r: String)
        ensures
            r@ == error_text(*self),
            r@ == match *self {
                RegistryError::Network(m) => "network error: "@ + m@,
                RegistryError::BadUrl { url, reason } => "invalid registry URL `"@ + url@ + "`: "@ + reason@,
                RegistryError::Http { status, path, body } => "registry returned "@ + decimal(status as nat)
                    + " at "@ + path@ + ": "@ + body@,
                RegistryError::Unauthorized => "authentication required (run `ruso login --token …`)"@,
                RegistryError::Decode(m) => "decode error: "@ + m@,
            },
    {
        let mut s = String::new();
        match self {
            RegistryError::Network(m) => {
                s.append("network error: ");
                s.append(m.as_str());
            },
            RegistryError::BadUrl { url, reason } => {
                s.append("invalid registry URL `");
                s.append(url.as_str());
                s.append("`: ");
                s.append(reason.as_str());
            },
            RegistryError::Http { status, path, body } => {
                s.append("registry returned ");
                let d = decimal_string(*status as u64);
                s.append(d.as_str());
                s.append(" at ");
                s.append(path.as_str());
                s.append(": ");
                s.append(body.as_str());
            },
            RegistryError::Unauthorized => {
                s.append("authentication required (run `ruso login --token …`)");
            },
            RegistryError::Decode(m) => {
                s.append("decode error: ");
                s.append(m.as_str());
            },
        }
        s
    }
}

/// What `Url::parse` reports for `url`: `None` when it parses, else the
/// error's text.
pub uninterp spec fn url_parse_error(url: Seq<char>) -> Option<Seq<char>>;

/// `reqwest::Url::parse` (the `url` crate's parser). Trusted: success and the
/// error's `Display` text are what `url_parse_error` names for the input.
#[verifier::external_body]
fn parse_url(url: &str) -> (r: Result<(), String>)
    ensures
        match r {
            Ok(()) => url_parse_error(url@) is None,
            Err(m) => url_parse_error(url@) == Some(m@),
        },
{
    match reqwest::Url::parse(url) {
        Ok(_) => Ok(()),
        Err(e) => Err(e.to_string()),
    }
}

/// A client is only built for a base URL that parses, so the first error a
/// user sees for a bad `--registry` is about the URL, not a later DNS
/// failure; `BadUrl` carries the URL and the parser's reason.
pub fn check_base_url(base_url: &str) -> (r: Result<(), RegistryError>)
    ensures
        match url_parse_error(base_url@) {
            None => r is Ok,
            Some(m) => r matches Err(RegistryError::BadUrl { url, reason }) && url@ == base_url@ && reason@ == m,
        },
{
    match parse_url(base_url) {
        Ok(()) => Ok(()),
        Err(m) => Err(RegistryError::BadUrl { url: base_url.to_string(), reason: m }),
    }
}

/// The full URL of an endpoint: the base URL followed by the path.
pub fn endpoint_url(base_url: &str, path: &str) -> (r: String)
    ensures
        r@ == base_url@ + path@,
{
    let mut s = String::new();
    s.append(base_url);
    s.append(path);
    s
}

/// Whether a response status is a success (200..=299), whose body is then read.
pub fn status_ok(status: u16) -> (r: bool)
    ensures
        r == (200 <= status <= 299),
{
    200 <= status && status <= 299
}

/// The error for a non-success status: 401 is `Unauthorized`; any other is
/// an `Http` error carrying the status, the request path and the response
/// body.
pub fn status_error(status: u16, path: &str, body: &str) -> (r: RegistryError)
    requires
        !(200 <= status <= 299),
    ensures
        status == 401 ==> r is Unauthorized,
        status != 401 ==> (r matches RegistryError::Http { status: s, path: p, body: b }
            && s == status && p@ == path@ && b@ == body@),
{
    if status == 401 {
        RegistryError::Unauthorized
    } else {
        RegistryError::Http { status, path: path.to_string(), body: body.to_string() }
    }
}

/// `/v1/scripts/<ns>/<name>`: show, publish and edit a script.
pub open spec fn script_path_spec(ns: Seq<char>, name: Seq<char>) -> Seq<char> {
    "/v1/scripts/"@ + ns + "/"@ + name
}

/// `/v1/scripts/<ns>/<name>/versions/<version>/<action>`.
pub open spec fn version_path_spec(ns: Seq<char>, name: Seq<char>, version: Seq<char>, action: Seq<char>) -> Seq<char> {
    script_path_spec(ns, name) + "/versions/"@ + version + "/"@ + action
}

/// The path of script `<ns>/<name>`.
pub fn script_path(ns: &str, name: &str) -> (r: String)
    ensures
        r@ == script_path_spec(ns@, name@),
{
    let mut s = String::new();
    s.append("/v1/scripts/");
    s.append(ns);
    s.append("/");
    s.append(name);
    s
}

fn version_path(ns: &str, name: &str, version: &str, action: &str) -> (r: String)
    ensures
        r@ == version_path_spec(ns@, name@, version@, action@),
{
    let mut s = script_path(ns, name);
    s.append("/versions/");
    s.append(version);
    s.append("/");
    s.append(action);
    s
}

/// Where a version's bytecode is downloaded from.
pub fn bytecode_download_path(ns: &str, name: &str, version: &str) -> (r: String)
    ensures
        r@ == version_path_spec(ns@, name@, version@, "bytecode"@),
{
    version_path(ns, name, version, "bytecode")
}

/// Where a version is yanked.
pub fn yank_path(ns: &str, name: &str, version: &str) -> (r: String)
    ensures
        r@ == version_path_spec(ns@, name@, version@, "yank"@),
{
    version_path(ns, name, version, "yank")
}

/// Where a version is un-yanked.
pub fn unyank_path(ns: &str, name: &str, version: &str) -> (r: String)
    ensures
        r@ == version_path_spec(ns@, name@, version@, "unyank"@),
{
    version_path(ns, name, version, "unyank")
}

/// Where a token is revoked.
pub fn token_path(id: &str) -> (r: String)
    ensures
        r@ == "/v1/tokens/"@ + id@,
{
    let mut s = String::new();
    s.append("/v1/tokens/");
    s.append(id);
    s
}

/// The file name under which published source is uploaded.
pub fn upload_file_name(name: &str) -> (r: String)
    ensures
        r@ == name@ + ".ruso"@,
{
    let mut s = String::new();
    s.append(name);
    s.append(".ruso");
    s
}

// ───────────────────────────── wire records ─────────────────────────────

/// `GET /v1/me`.
#[derive(Debug)]
pub struct MeResponse {
    pub id: String,
    pub username: String,
    pub email: String,
    pub github_login: String,
    pub avatar_url: Option<String>,
    pub is_admin: bool,
}

/// `POST /v1/scripts/<ns>/<name>`.
#[derive(Debug)]
pub struct PublishResponse {
    pub namespace: String,
    pub name: String,
    pub version: String,
    pub tags: Vec<String>,
    pub visibility: String,
    pub size_bytes: i64,
    pub published_at: String,
}

/// `GET /v1/scripts/<ns>/<name>`.
#[derive(Debug)]
pub struct ScriptResponse {
    pub namespace: String,
    pub name: String,
    pub description: Option<String>,
    pub visibility: String,
    pub tags: Vec<String>,
    pub family: Option<String>,
    pub versions: Vec<VersionSummary>,
}

/// One published version of a script.
#[derive(Debug)]
pub struct VersionSummary {
    pub version: String,
    pub size_bytes: i64,
    pub tags: Vec<String>,
    pub published_at: String,
    pub yanked_at: Option<String>,
    pub download_count: i64,
}

/// Filters of `GET /v1/scripts/search`.
#[derive(Debug)]
pub struct SearchParams {
    pub q: Option<String>,
    pub severity: Option<String>,
    pub cve: Option<String>,
    pub namespace: Option<String>,
    pub family: Option<String>,
    pub tags: Vec<String>,
    pub page: Option<u32>,
    pub per_page: Option<u32>,
}

impl Default for SearchParams {
    fn default() -> (r: SearchParams)
        ensures
            r.q is None && r.severity is None && r.cve is None && r.namespace is None,
            r.family is None && r.tags@.len() == 0 && r.page is None && r.per_page is None,
    {
        SearchParams {
            q: None,
            severity: None,
            cve: None,
            namespace: None,
            family: None,
            tags: Vec::new(),
            page: None,
            per_page: None,
        }
    }
}

/// One page of search results.
#[derive(Debug)]
pub struct SearchResponse {
    pub page: u32,
    pub per_page: u32,
    pub total: i64,
    pub results: Vec<SearchHit>,
}

/// `PATCH /v1/scripts/<ns>/<name>`: the fields to change.
#[derive(Debug)]
pub struct PatchScriptRequest {
    pub description: Option<String>,
    pub visibility: Option<String>,
}

/// What `PATCH /v1/scripts/<ns>/<name>` returns.
#[derive(Debug)]
pub struct PatchScriptResponse {
    pub namespace: String,
    pub name: String,
    pub description: Option<String>,
    pub visibility: String,
    pub tags: Vec<String>,
}

/// Body of a yank request.
#[derive(Debug)]
pub struct YankRequest {
    pub reason: Option<String>,
}

/// The body sent when yanking with an optional reason: none without one.
pub fn yank_request(reason: Option<&str>) -> (r: Option<YankRequest>)
    ensures
        match reason {
            Some(t) => r matches Some(y) && opt_view(y.reason) == Some(t@),
            None => r is None,
        },
{
    match reason {
        Some(t) => Some(YankRequest { reason: Some(t.to_string()) }),
        None => None,
    }
}

/// One personal access token, as listed.
#[derive(Debug)]
pub struct TokenSummary {
    pub id: String,
    pub name: String,
    pub scopes: Vec<String>,
    pub expires_at: Option<String>,
    pub created_at: String,
    pub last_used_at: Option<String>,
    pub revoked_at: Option<String>,
}

/// `POST /v1/tokens`.
#[derive(Debug)]
pub struct CreateTokenRequest {
    pub name: String,
    pub scopes: Vec<String>,
    pub expires_at: Option<String>,
}

/// What `POST /v1/tokens` returns; `token` is shown once.
#[derive(Debug)]
pub struct TokenCreatedResponse {
    pub id: String,
    pub name: String,
    pub scopes: Vec<String>,
    pub expires_at: Option<String>,
    pub token: String,
}

/// One search result.
#[derive(Debug)]
pub struct SearchHit {
    pub namespace: String,
    pub name: String,
    pub description: Option<String>,
    pub visibility: String,
    pub severity: Option<String>,
    pub tags: Vec<String>,
    pub family: Option<String>,
    pub cves: Vec<String>,
    pub updated_at: String,
}

// ───────────────────────────── search query ─────────────────────────────

/// A query pair as plain character sequences.
pub open spec fn pair_view(p: (String, String)) -> (Seq<char>, Seq<char>) {
    (p.0@, p.1@)
}

/// The pair `(key, v)` when `v` is present.
pub open spec fn opt_pair(key: Seq<char>, v: Option<String>) -> Seq<(Seq<char>, Seq<char>)> {
    match v {
        Some(s) => seq![(key, s@)],
        None => Seq::empty(),
    }
}

/// The pair `(key, n)` with `n` in decimal when `n` is present.
pub open spec fn opt_num_pair(key: Seq<char>, v: Option<u32>) -> Seq<(Seq<char>, Seq<char>)> {
    match v {
        Some(n) => seq![(key, decimal(n as nat))],
        None => Seq::empty(),
    }
}

/// The query string of a search, in the order the backend receives it:
/// `q`, `severity`, `cve`, `namespace`, `family` (each when set), one `tag`
/// per tag, then `page` and `per_page` (when set).
pub open spec fn search_query_spec(p: SearchParams) -> Seq<(Seq<char>, Seq<char>)> {
    opt_pair("q"@, p.q) + opt_pair("severity"@, p.severity) + opt_pair("cve"@, p.cve)
        + opt_pair("namespace"@, p.namespace) + opt_pair("family"@, p.family)
        + p.tags@.map_values(|t: String| ("tag"@, t@))
        + opt_num_pair("page"@, p.page) + opt_num_pair("per_page"@, p.per_page)
}

fn push_opt(out: &mut Vec<(String, String)>, key: &str, v: &Option<String>)
    ensures
        final(out)@.map_values(|p: (String, String)| pair_view(p))
            == old(out)@.map_values(|p: (String, String)| pair_view(p)) + opt_pair(key@, *v),
{
    let ghost before = out@;
    match v {
        Some(s) => {
            out.push((key.to_string(), s.clone()));
        },
        None => {},
    }
    assert(out@.map_values(|p: (String, String)| pair_view(p))
        =~= before.map_values(|p: (String, String)| pair_view(p)) + opt_pair(key@, *v));
}

fn push_num(out: &mut Vec<(String, String)>, key: &str, v: Option<u32>)
    ensures
        final(out)@.map_values(|p: (String, String)| pair_view(p))
            == old(out)@.map_values(|p: (String, String)| pair_view(p)) + opt_num_pair(key@, v),
{
    let ghost before = out@;
    match v {
        Some(n) => {
            out.push((key.to_string(), decimal_string(n as u64)));
        },
        None => {},
    }
    assert(out@.map_values(|p: (String, String)| pair_view(p))
        =~= before.map_values(|p: (String, String)| pair_view(p)) + opt_num_pair(key@, v));
}

/// The `(key, value)` pairs of a search request.
pub fn search_query(params: &SearchParams) -> (r: Vec<(String, String)>)
    ensures
        r@.map_values(|p: (String, String)| pair_view(p)) == search_query_spec(*params),
{
    let mut out: Vec<(String, String)> = Vec::new();
    push_opt(&mut out, "q", &params.q);
    push_opt(&mut out, "severity", &params.severity);
    push_opt(&mut out, "cve", &params.cve);
    push_opt(&mut out, "namespace", &params.namespace);
    push_opt(&mut out, "family", &params.family);
    let ghost mid = out@.map_values(|p: (String, String)| pair_view(p));
    let mut i: usize = 0;
    while i < params.tags.len()
        invariant
            i <= params.tags.len(),
            out@.map_values(|p: (String, String)| pair_view(p))
                == mid + params.tags@.take(i as int).map_values(|t: String| ("tag"@, t@)),
        decreases params.tags.len() - i,
    {
        let ghost before = out@;
        out.push(("tag".to_string(), params.tags[i].clone()));
        assert(params.tags@.take(i + 1).map_values(|t: String| ("tag"@, t@))
            =~= params.tags@.take(i as int).map_values(|t: String| ("tag"@, t@)).push(("tag"@, params.tags@[i as int]@)));
        assert(out@.map_values(|p: (String, String)| pair_view(p))
            =~= before.map_values(|p: (String, String)| pair_view(p)).push(("tag"@, params.tags@[i as int]@)));
        i = i + 1;
    }
    assert(params.tags@.take(params.tags.len() as int) =~= params.tags@);
    push_num(&mut out, "page", params.page);
    push_num(&mut out, "per_page", params.per_page);
    proof {
        let p = *params;
        assert(search_query_spec(p) =~= mid + params.tags@.map_values(|t: String| ("tag"@, t@))
            + opt_num_pair("page"@, p.page) + opt_num_pair("per_page"@, p.per_page));
    }
    out
}


/// Whether the query holds the pair `(k, v)`.
pub open spec fn has_pair(q: Seq<(Seq<char>, Seq<char>)>, k: Seq<char>, v: Seq<char>) -> bool {
    exists|i: int| 0 <= i < q.len() && q[i] == (k, v)
}

/// Whether no pair of the query has the key `k`.
pub open spec fn lacks_key(q: Seq<(Seq<char>, Seq<char>)>, k: Seq<char>) -> bool {
    forall|i: int| 0 <= i < q.len() ==> (#[trigger] q[i]).0 != k
}

proof fn lemma_pairs_add(a: Seq<(Seq<char>, Seq<char>)>, b: Seq<(Seq<char>, Seq<char>)>)
    ensures
        forall|k: Seq<char>, v: Seq<char>| #[trigger] has_pair(a, k, v) ==> has_pair(a + b, k, v),
        forall|k: Seq<char>, v: Seq<char>| #[trigger] has_pair(b, k, v) ==> has_pair(a + b, k, v),
        forall|k: Seq<char>| lacks_key(a, k) && lacks_key(b, k) ==> #[trigger] lacks_key(a + b, k),
{
    assert forall|k: Seq<char>, v: Seq<char>| #[trigger] has_pair(a, k, v) implies has_pair(a + b, k, v) by {
        let i = choose|i: int| 0 <= i < a.len() && a[i] == (k, v);
        assert((a + b)[i] == a[i]);
    }
    assert forall|k: Seq<char>, v: Seq<char>| #[trigger] has_pair(b, k, v) implies has_pair(a + b, k, v) by {
        let i = choose|i: int| 0 <= i < b.len() && b[i] == (k, v);
        assert((a + b)[a.len() + i] == b[i]);
    }
    assert forall|k: Seq<char>| lacks_key(a, k) && lacks_key(b, k) implies #[trigger] lacks_key(a + b, k) by {
        assert forall|i: int| 0 <= i < (a + b).len() implies (#[trigger] (a + b)[i]).0 != k by {
            if i < a.len() {
                assert((a + b)[i] == a[i]);
            } else {
                assert((a + b)[i] == b[i - a.len()]);
            }
        }
    }
}

proof fn lemma_opt_pair(key: Seq<char>, v: Option<String>)
    ensures
        v matches Some(s) ==> has_pair(opt_pair(key, v), key, s@),
        forall|k: Seq<char>| k != key || v is None ==> #[trigger] lacks_key(opt_pair(key, v), k),
{
    if let Some(s) = v {
        assert(opt_pair(key, v)[0] == (key, s@));
    }
}

proof fn lemma_opt_num_pair(key: Seq<char>, v: Option<u32>)
    ensures
        v matches Some(n) ==> has_pair(opt_num_pair(key, v), key, decimal(n as nat)),
        forall|k: Seq<char>| k != key || v is None ==> #[trigger] lacks_key(opt_num_pair(key, v), k),
{
    if let Some(n) = v {
        assert(opt_num_pair(key, v)[0] == (key, decimal(n as nat)));
    }
}

/// Law: every filter the user sets reaches the search request. For each of
/// `q`, `severity`, `cve`, `namespace` and `family`, a set value `v` is sent
/// as the pair `(key, v)` and an unset one sends no pair with that key; every
/// tag is sent as a `tag` pair, and a set `page` / `per_page` as its number.
pub proof fn law_search_filters_reach_query(p: SearchParams)
    ensures
        p.q matches Some(v) ==> has_pair(search_query_spec(p), "q"@, v@),
        p.q is None ==> lacks_key(search_query_spec(p), "q"@),
        p.severity matches Some(v) ==> has_pair(search_query_spec(p), "severity"@, v@),
        p.severity is None ==> lacks_key(search_query_spec(p), "severity"@),
        p.cve matches Some(v) ==> has_pair(search_query_spec(p), "cve"@, v@),
        p.cve is None ==> lacks_key(search_query_spec(p), "cve"@),
        p.namespace matches Some(v) ==> has_pair(search_query_spec(p), "namespace"@, v@),
        p.namespace is None ==> lacks_key(search_query_spec(p), "namespace"@),
        p.family matches Some(v) ==> has_pair(search_query_spec(p), "family"@, v@),
        p.family is None ==> lacks_key(search_query_spec(p), "family"@),
        forall|i: int| 0 <= i < p.tags@.len() ==> has_pair(search_query_spec(p), "tag"@, (#[trigger] p.tags@[i])@),
        p.page matches Some(n) ==> has_pair(search_query_spec(p), "page"@, decimal(n as nat)),
        p.per_page matches Some(n) ==> has_pair(search_query_spec(p), "per_page"@, decimal(n as nat)),
{
    reveal_strlit("q");
    reveal_strlit("severity");
    reveal_strlit("cve");
    reveal_strlit("namespace");
    reveal_strlit("family");
    reveal_strlit("tag");
    reveal_strlit("page");
    reveal_strlit("per_page");
    assert("q"@.len() != "severity"@.len());
    assert("q"@.len() != "cve"@.len());
    assert("q"@.len() != "namespace"@.len());
    assert("q"@.len() != "family"@.len());
    assert("q"@.len() != "tag"@.len());
    assert("q"@.len() != "page"@.len());
    assert("q"@.len() != "per_page"@.len());
    assert("severity"@.len() != "cve"@.len());
    assert("severity"@.len() != "namespace"@.len());
    assert("severity"@.len() != "family"@.len());
    assert("severity"@.len() != "tag"@.len());
    assert("severity"@.len() != "page"@.len());
    assert("severity"@[0] != "per_page"@[0]);
    assert("cve"@.len() != "namespace"@.len());
    assert("cve"@.len() != "family"@.len());
    assert("cve"@[0] != "tag"@[0]);
    assert("cve"@.len() != "page"@.len());
    assert("cve"@.len() != "per_page"@.len());
    assert("namespace"@.len() != "family"@.len());
    assert("namespace"@.len() != "tag"@.len());
    assert("namespace"@.len() != "page"@.len());
    assert("namespace"@.len() != "per_page"@.len());
    assert("family"@.len() != "tag"@.len());
    assert("family"@.len() != "page"@.len());
    assert("family"@.len() != "per_page"@.len());
    assert("tag"@.len() != "page"@.len());
    assert("tag"@.len() != "per_page"@.len());
    assert("page"@.len() != "per_page"@.len());
    let s1 = opt_pair("q"@, p.q);
    let s2 = opt_pair("severity"@, p.severity);
    let s3 = opt_pair("cve"@, p.cve);
    let s4 = opt_pair("namespace"@, p.namespace);
    let s5 = opt_pair("family"@, p.family);
    let s6 = p.tags@.map_values(|t: String| ("tag"@, t@));
    let s7 = opt_num_pair("page"@, p.page);
    let s8 = opt_num_pair("per_page"@, p.per_page);
    lemma_opt_pair("q"@, p.q);
    lemma_opt_pair("severity"@, p.severity);
    lemma_opt_pair("cve"@, p.cve);
    lemma_opt_pair("namespace"@, p.namespace);
    lemma_opt_pair("family"@, p.family);
    lemma_opt_num_pair("page"@, p.page);
    lemma_opt_num_pair("per_page"@, p.per_page);
    assert forall|k: Seq<char>| k != "tag"@ implies #[trigger] lacks_key(s6, k) by {
        assert forall|i: int| 0 <= i < s6.len() implies (#[trigger] s6[i]).0 != k by {
            assert(s6[i] == ("tag"@, p.tags@[i]@));
        }
    }
    assert forall|i: int| 0 <= i < p.tags@.len() implies has_pair(s6, "tag"@, (#[trigger] p.tags@[i])@) by {
        assert(s6[i] == ("tag"@, p.tags@[i]@));
    }
    let a2 = s1 + s2;
    let a3 = a2 + s3;
    let a4 = a3 + s4;
    let a5 = a4 + s5;
    let a6 = a5 + s6;
    let a7 = a6 + s7;
    let a8 = a7 + s8;
    assert(a8 == search_query_spec(p));
    lemma_pairs_add(s1, s2);
    lemma_pairs_add(a2, s3);
    lemma_pairs_add(a3, s4);
    lemma_pairs_add(a4, s5);
    lemma_pairs_add(a5, s6);
    lemma_pairs_add(a6, s7);
    lemma_pairs_add(a7, s8);
}

} // verus!

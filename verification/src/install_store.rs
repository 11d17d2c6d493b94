//! Registry references (`<ns>/<name>[@<range>]`), the layout of the local
//! install cache (`<root>/scripts/<ns>/<name>/<version>.bc`), and the choice
//! of which published or installed version of a script to use.
//!
//! Versions are carried as the text `semver` prints for them; parsing,
//! ordering and range matching are `semver`'s.

use vstd::prelude::*;
use vstd::multiset::Multiset;

use crate::paths::{extension, extension_spec, file_stem, file_stem_spec, join, join_spec, slice_of};
use crate::registry::{RegistryError, VersionSummary};
use crate::text::{chars_of, first_index_of, lemma_first_index_of, find_char, opt_view, str_eq, string_of, views};

verus! {

broadcast use vstd::string::group_string_axioms;

// ───────────────────────────── semver ─────────────────────────────

/// What `semver::Version::parse` makes of `text`, printed back with its
/// `Display`; `None` where the text is not a SemVer version.
pub uninterp spec fn semver_version(text: Seq<char>) -> Option<Seq<char>>;

/// What `semver::VersionReq::parse` makes of `text`: `Ok` for a valid range,
/// else the error's text.
pub uninterp spec fn semver_req(text: Seq<char>) -> Result<(), Seq<char>>;

/// Whether the version `version` satisfies the range `req` (`VersionReq::matches`).
pub uninterp spec fn semver_matches(req: Seq<char>, version: Seq<char>) -> bool;

/// Whether version `a` orders strictly before version `b` (`Ord for Version`).
pub uninterp spec fn semver_less(a: Seq<char>, b: Seq<char>) -> bool;

/// `v` is SemVer version text.
pub open spec fn is_version(v: Seq<char>) -> bool {
    semver_version(v) is Some
}

/// `r` is a valid SemVer range.
pub open spec fn is_range(r: Seq<char>) -> bool {
    semver_req(r) is Ok
}

/// Every entry of `vs` is version text.
pub open spec fn all_versions(vs: Seq<Seq<char>>) -> bool {
    forall|i: int| 0 <= i < vs.len() ==> is_version(#[trigger] vs[i])
}

/// `semver::Version::parse`. Trusted: the result is the parsed version's
/// `Display` text (named `semver_version`), and that text parses back to itself,
/// as `Display` and `FromStr` of `semver::Version` round-trip.
#[verifier::external_body]
fn parse_version(text: &str) -> (r: Option<String>)
    ensures
        opt_view(r) == semver_version(text@),
        r matches Some(v) ==> semver_version(v@) == Some(v@),
{
    match semver::Version::parse(text) {
        Ok(v) => Some(v.to_string()),
        Err(_) => None,
    }
}

/// `semver::VersionReq::parse`. Trusted: success exactly when `semver_req`
/// says so, and the error's `Display` text otherwise.
#[verifier::external_body]
fn check_range(text: &str) -> (r: Result<(), String>)
    ensures
        match r {
            Ok(()) => semver_req(text@) == Ok::<(), Seq<char>>(()),
            Err(m) => semver_req(text@) == Err::<(), Seq<char>>(m@),
        },
{
    match semver::VersionReq::parse(text) {
        Ok(_) => Ok(()),
        Err(e) => Err(e.to_string()),
    }
}

/// `VersionReq::matches` on a parsed range and version. Trusted: the result
/// is named `semver_matches`.
#[verifier::external_body]
fn version_matches(req: &str, version: &str) -> (r: bool)
    requires
        is_range(req@),
        is_version(version@),
    ensures
        r == semver_matches(req@, version@),
{
    match (semver::VersionReq::parse(req), semver::Version::parse(version)) {
        (Ok(q), Ok(v)) => q.matches(&v),
        _ => false,
    }
}

/// `<` on two parsed versions. Trusted: the result is named `semver_less`;
/// as `Version`'s order is a total order (derived `Ord`, field by field), it
/// is asymmetric and transitive.
#[verifier::external_body]
fn version_less(a: &str, b: &str) -> (r: bool)
    requires
        is_version(a@),
        is_version(b@),
    ensures
        r == semver_less(a@, b@),
        r ==> !semver_less(b@, a@),
        forall|c: Seq<char>| #![trigger semver_less(b@, c)]
            r && is_version(c) && semver_less(b@, c) ==> semver_less(a@, c),
{
    match (semver::Version::parse(a), semver::Version::parse(b)) {
        (Ok(x), Ok(y)) => x < y,
        _ => false,
    }
}

// ───────────────────────────── references ─────────────────────────────

/// A parsed `<ns>/<name>[@<range>]`. A missing range means "any non-yanked
/// version, newest wins".
#[derive(Debug, Clone)]
pub struct RegistryRef {
    pub namespace: String,
    pub name: String,
    pub range: Option<String>,
}

/// How a reference is written back.
pub open spec fn ref_text(ns: Seq<char>, name: Seq<char>, range: Option<Seq<char>>) -> Seq<char> {
    match range {
        Some(r) => ns + "/"@ + name + "@"@ + r,
        None => ns + "/"@ + name,
    }
}

/// The content of a reference as plain text.
pub open spec fn ref_view(r: RegistryRef) -> (Seq<char>, Seq<char>, Option<Seq<char>>) {
    (r.namespace@, r.name@, opt_view(r.range))
}

impl RegistryRef {
    /// `<ns>/<name>` or `<ns>/<name>@<range>`.
    pub fn display(&self) -> (s: String)
        ensures
            s@ == ref_text(self.namespace@, self.name@, opt_view(self.range)),
    {
        let mut s = String::new();
        s.append(self.namespace.as_str());
        s.append("/");
        s.append(self.name.as_str());
        match &self.range {
            Some(r) => {
                s.append("@");
                s.append(r.as_str());
            },
            None => {},
        }
        s
    }
}

/// A character allowed in a slug: lowercase ASCII letter, digit or `-`.
pub open spec fn is_slug_char(c: char) -> bool {
    ('a' <= c && c <= 'z') || ('0' <= c && c <= '9') || c == '-'
}

/// The registry's slug rule: 1 to 39 characters, lowercase alphanumerics and
/// `-`, not starting with `-`.
pub open spec fn is_slug_spec(s: Seq<char>) -> bool {
    &&& 1 <= s.len() <= 39
    &&& s[0] != '-'
    &&& forall|i: int| 0 <= i < s.len() ==> is_slug_char(#[trigger] s[i])
}

/// Law: a slug is one plain path component. It holds no path separator and
/// no dot, so it is neither `.` nor `..`, and a path joined from slugs under a
/// directory stays inside that directory.
pub proof fn law_slug_is_plain_component(s: Seq<char>)
    requires
        is_slug_spec(s),
    ensures
        forall|i: int| 0 <= i < s.len() ==> #[trigger] s[i] != '/' && s[i] != '\\' && s[i] != '.',
        s != "."@,
        s != ".."@,
{
    reveal_strlit(".");
    reveal_strlit("..");
    assert(is_slug_char(s[0]));
}

fn is_slug_chars(cs: &Vec<char>) -> (b: bool)
    ensures
        b == is_slug_spec(cs@),
{
    if cs.len() == 0 || cs.len() > 39 {
        return false;
    }
    if cs[0] == '-' {
        return false;
    }
    let mut i: usize = 0;
    while i < cs.len()
        invariant
            i <= cs.len(),
            forall|j: int| 0 <= j < i ==> is_slug_char(#[trigger] cs@[j]),
        decreases cs.len() - i,
    {
        let c = cs[i];
        if !(('a' <= c && c <= 'z') || ('0' <= c && c <= '9') || c == '-') {
            assert(!is_slug_char(cs@[i as int]));
            return false;
        }
        i = i + 1;
    }
    true
}

/// Whether `s` satisfies the registry's slug rule.
pub fn is_slug(s: &str) -> (b: bool)
    ensures
        b == is_slug_spec(s@),
{
    let cs = chars_of(s);
    is_slug_chars(&cs)
}

/// What `parse_ref` makes of `s`: `(namespace, name, range)`, or `None` for
/// anything shaped like a filesystem path (leading `.`, `/` or `~`, a `\` or a
/// space), an empty range after `@`, a missing `/`, or a part that is not a
/// slug. The range runs from the first `@`; the name from the first `/`.
pub open spec fn parse_ref_spec(s: Seq<char>) -> Option<(Seq<char>, Seq<char>, Option<Seq<char>>)> {
    if s.len() > 0 && (s[0] == '.' || s[0] == '/' || s[0] == '~') {
        None
    } else if s.contains('\\') || s.contains(' ') {
        None
    } else {
        let head = match first_index_of(s, '@') {
            Some(i) => s.subrange(0, i),
            None => s,
        };
        let range = match first_index_of(s, '@') {
            Some(i) => Some(s.subrange(i + 1, s.len() as int)),
            None => None,
        };
        if range matches Some(r) && r.len() == 0 {
            None
        } else {
            match first_index_of(head, '/') {
                Some(j) => {
                    let ns = head.subrange(0, j);
                    let name = head.subrange(j + 1, head.len() as int);
                    if is_slug_spec(ns) && is_slug_spec(name) {
                        Some((ns, name, range))
                    } else {
                        None
                    }
                },
                None => None,
            }
        }
    }
}

/// Parse `<ns>/<name>[@<range>]`; `None` when `input` does not have that
/// shape (the caller then treats it as a filesystem path).
pub fn parse_ref(input: &str) -> (r: Option<RegistryRef>)
    ensures
        match r {
            Some(rf) => parse_ref_spec(input@) == Some(ref_view(rf)),
            None => parse_ref_spec(input@) is None,
        },
{
    let cs = chars_of(input);
    if cs.len() > 0 && (cs[0] == '.' || cs[0] == '/' || cs[0] == '~') {
        return None;
    }
    if find_char(&cs, '\\').is_some() {
        return None;
    }
    if find_char(&cs, ' ').is_some() {
        return None;
    }
    proof {
        assert(!input@.contains('\\'));
        assert(!input@.contains(' '));
    }
    let (head, range) = match find_char(&cs, '@') {
        Some(i) => {
            if i + 1 == cs.len() {
                return None;
            }
            let r = slice_of(&cs, i + 1, cs.len());
            (slice_of(&cs, 0, i), Some(string_of(r.as_slice())))
        },
        None => (slice_of(&cs, 0, cs.len()), None),
    };
    proof {
        assert(cs@.subrange(0, cs.len() as int) =~= cs@);
    }
    match find_char(&head, '/') {
        Some(j) => {
            let ns = slice_of(&head, 0, j);
            let name = slice_of(&head, j + 1, head.len());
            if is_slug_chars(&ns) && is_slug_chars(&name) {
                Some(RegistryRef {
                    namespace: string_of(ns.as_slice()),
                    name: string_of(name.as_slice()),
                    range,
                })
            } else {
                None
            }
        },
        None => None,
    }
}

proof fn lemma_split_around(s: Seq<char>, i: int, c: char)
    requires
        0 <= i < s.len(),
        s[i] == c,
    ensures
        s == s.subrange(0, i) + seq![c] + s.subrange(i + 1, s.len() as int),
{
    assert(s =~= s.subrange(0, i) + seq![c] + s.subrange(i + 1, s.len() as int));
}

/// A reference that parses prints back exactly as it was typed.
pub proof fn law_ref_round_trip(s: Seq<char>)
    ensures
        parse_ref_spec(s) matches Some(v) ==> ref_text(v.0, v.1, v.2) == s,
{
    reveal_strlit("/");
    reveal_strlit("@");
    assert("/"@ == seq!['/']);
    assert("@"@ == seq!['@']);
    if let Some(v) = parse_ref_spec(s) {
        let head = match first_index_of(s, '@') {
            Some(i) => s.subrange(0, i),
            None => s,
        };
        lemma_first_index_of(s, '@');
        lemma_first_index_of(head, '/');
        let j = first_index_of(head, '/').unwrap();
        lemma_split_around(head, j, '/');
        match first_index_of(s, '@') {
            Some(i) => {
                lemma_split_around(s, i, '@');
            },
            None => {},
        }
    }
}

proof fn lemma_first_at(s: Seq<char>, c: char, k: int)
    requires
        0 <= k < s.len(),
        s[k] == c,
        forall|j: int| 0 <= j < k ==> s[j] != c,
    ensures
        first_index_of(s, c) == Some(k),
{
    lemma_first_index_of(s, c);
    let i = first_index_of(s, c).unwrap();
    if i < k {
        assert(s[i] == c);
    } else if k < i {
        assert(s[k] != c);
    }
}

/// Law: every well-formed reference is recognised. For slugs `ns` and
/// `name`, `ns/name` parses to `(ns, name)` with no range, and `ns/name@r`
/// parses to `(ns, name, r)` for any non-empty range `r` without a space or a
/// backslash (so `~1.2`, `^1`, `>=1, <2` all pass through to semver).
pub proof fn law_ref_parse_complete(ns: Seq<char>, name: Seq<char>, range: Option<Seq<char>>)
    requires
        is_slug_spec(ns),
        is_slug_spec(name),
        range matches Some(r) ==> r.len() > 0 && !r.contains(' ') && !r.contains('\\'),
    ensures
        parse_ref_spec(ref_text(ns, name, range)) == Some((ns, name, range)),
{
    reveal_strlit("/");
    reveal_strlit("@");
    assert("/"@ == seq!['/']);
    assert("@"@ == seq!['@']);
    let head = ns + "/"@ + name;
    let s = ref_text(ns, name, range);
    let n = ns.len() as int;
    assert(head.len() == n + 1 + name.len());
    assert forall|i: int| 0 <= i < head.len() implies {
        &&& (#[trigger] head[i]) != '@'
        &&& head[i] != ' '
        &&& head[i] != '\\'
        &&& (i != n ==> head[i] != '/')
    } by {
        if i < n {
            assert(head[i] == ns[i]);
            assert(is_slug_char(ns[i]));
        } else if i > n {
            assert(head[i] == name[i - n - 1]);
            assert(is_slug_char(name[i - n - 1]));
        }
    }
    assert(head[n] == '/');
    lemma_first_at(head, '/', n);
    assert(head.subrange(0, n) =~= ns);
    assert(head.subrange(n + 1, head.len() as int) =~= name);
    assert(is_slug_char(ns[0]));
    match range {
        Some(r) => {
            assert(s == head + seq!['@'] + r);
            let k = head.len() as int;
            assert(s[k] == '@');
            assert forall|j: int| 0 <= j < k implies s[j] != '@' by {
                assert(s[j] == head[j]);
            }
            lemma_first_at(s, '@', k);
            assert(s.subrange(0, k) =~= head);
            assert(s.subrange(k + 1, s.len() as int) =~= r);
            assert(s[0] == ns[0]);
            assert(!s.contains(' ') && !s.contains('\\')) by {
                assert forall|i: int| 0 <= i < s.len() implies #[trigger] s[i] != ' ' && s[i] != '\\' by {
                    if i < k {
                        assert(s[i] == head[i]);
                    } else if i > k {
                        assert(s[i] == r[i - k - 1]);
                    }
                }
            }
        },
        None => {
            assert(s == head);
            assert(s[0] == ns[0]);
            assert(!(exists|i: int| 0 <= i < s.len() && s[i] == '@'));
            assert(!s.contains(' ') && !s.contains('\\')) by {
                assert forall|i: int| 0 <= i < s.len() implies #[trigger] s[i] != ' ' && s[i] != '\\' by {
                    assert(s[i] == head[i]);
                }
            }
        },
    }
}

// ───────────────────────────── errors ─────────────────────────────

/// Failure of an install-cache operation.
#[derive(Debug)]
pub enum InstallError {
    /// Neither `RUSO_HOME` nor a home directory is known.
    NoHomeDir,
    /// The range does not parse; `reason` is `semver`'s message.
    BadRange { range: String, reason: String },
    /// No non-yanked published version satisfies the range.
    NoMatchingVersion { namespace: String, name: String, range: String },
    /// Reading the cache failed.
    Read { path: String, reason: String },
    /// Writing the cache failed.
    Write { path: String, reason: String },
    /// The registry call failed.
    Registry(RegistryError),
}

impl InstallError {
    /// The error's text, as shown to the user.
    pub fn message(&self) -> (r: String)
        ensures
            match *self {
                InstallError::NoHomeDir => r@ == "could not determine home directory"@,
                InstallError::BadRange { range, reason } => r@ == "invalid SemVer range `"@ + range@ + "`: "@ + reason@,
                InstallError::NoMatchingVersion { namespace, name, range } => r@ == "no versions of "@ + namespace@ + "/"@ + name@
                    + " match "@ + range@,
                InstallError::Read { path, reason } => r@ == "failed to read "@ + path@ + ": "@ + reason@,
                InstallError::Write { path, reason } => r@ == "failed to write "@ + path@ + ": "@ + reason@,
                InstallError::Registry(e) => true,
            },
    {
        let mut s = String::new();
        match self {
            InstallError::NoHomeDir => {
                s.append("could not determine home directory");
            },
            InstallError::BadRange { range, reason } => {
                s.append("invalid SemVer range `");
                s.append(range.as_str());
                s.append("`: ");
                s.append(reason.as_str());
            },
            InstallError::NoMatchingVersion { namespace, name, range } => {
                s.append("no versions of ");
                s.append(namespace.as_str());
                s.append("/");
                s.append(name.as_str());
                s.append(" match ");
                s.append(range.as_str());
            },
            InstallError::Read { path, reason } => {
                s.append("failed to read ");
                s.append(path.as_str());
                s.append(": ");
                s.append(reason.as_str());
            },
            InstallError::Write { path, reason } => {
                s.append("failed to write ");
                s.append(path.as_str());
                s.append(": ");
                s.append(reason.as_str());
            },
            InstallError::Registry(e) => {
                return e.message();
            },
        }
        s
    }
}

// ───────────────────────────── the cache ─────────────────────────────

/// Where the cache under `root` keeps version `version` of `<ns>/<name>`.
pub open spec fn bytecode_path_spec(root: Seq<char>, ns: Seq<char>, name: Seq<char>, version: Seq<char>) -> Seq<char> {
    join_spec(join_spec(join_spec(join_spec(root, "scripts"@), ns), name), version + ".bc"@)
}

/// The local install cache, rooted at a directory.
#[derive(Debug, Clone)]
pub struct InstallStore {
    root: String,
}

impl InstallStore {
    /// The cache's root directory.
    pub closed spec fn root_spec(&self) -> Seq<char> {
        self.root@
    }

    /// The cache's root directory.
    pub fn root(&self) -> (r: String)
        ensures
            r@ == self.root_spec(),
    {
        self.root.clone()
    }

    /// The cache location: a non-empty `RUSO_HOME`, else `<home>/.ruso`;
    /// `NoHomeDir` when neither is known.
    pub fn default_for_user(ruso_home: Option<&str>, home_dir: Option<&str>) -> (r: Result<InstallStore, InstallError>)
        ensures
            match ruso_home {
                Some(c) if c@.len() > 0 => r matches Ok(s) && s.root_spec() == c@,
                _ => match home_dir {
                    Some(h) => r matches Ok(s) && s.root_spec() == join_spec(h@, ".ruso"@),
                    None => r matches Err(InstallError::NoHomeDir),
                },
            },
    {
        match ruso_home {
            Some(c) => {
                if c.unicode_len() > 0 {
                    return Ok(InstallStore { root: c.to_string() });
                }
            },
            None => {},
        }
        match home_dir {
            Some(h) => Ok(InstallStore { root: join(h, ".ruso") }),
            None => Err(InstallError::NoHomeDir),
        }
    }

    /// `<root>/scripts/<ns>/<name>`.
    pub fn script_dir(&self, namespace: &str, name: &str) -> (r: String)
        ensures
            r@ == join_spec(join_spec(join_spec(self.root_spec(), "scripts"@), namespace@), name@),
    {
        let a = join(self.root.as_str(), "scripts");
        let b = join(a.as_str(), namespace);
        join(b.as_str(), name)
    }

    /// `<root>/scripts/<ns>/<name>/<version>.bc`.
    pub fn bytecode_path(&self, namespace: &str, name: &str, version: &str) -> (r: String)
        ensures
            r@ == bytecode_path_spec(self.root_spec(), namespace@, name@, version@),
    {
        let dir = self.script_dir(namespace, name);
        let mut file = String::new();
        file.append(version);
        file.append(".bc");
        join(dir.as_str(), file.as_str())
    }
}

/// The version a cache entry holds: its stem, when its extension is `bc`
/// and the stem is version text.
#[verifier::opaque]
pub open spec fn entry_version(p: Seq<char>) -> Option<Seq<char>> {
    match file_stem_spec(p) {
        Some(stem) => if extension_spec(p) == Some("bc"@) { semver_version(stem) } else { None },
        None => None,
    }
}

/// The versions held by the cache entries `ps`, in their order.
pub open spec fn entry_versions(ps: Seq<Seq<char>>) -> Seq<Seq<char>>
    decreases ps.len(),
{
    if ps.len() == 0 {
        Seq::empty()
    } else {
        match entry_version(ps.last()) {
            Some(v) => entry_versions(ps.drop_last()).push(v),
            None => entry_versions(ps.drop_last()),
        }
    }
}

fn entry_version_of(p: &str) -> (r: Option<String>)
    ensures
        opt_view(r) == entry_version(p@),
        r matches Some(v) ==> is_version(v@),
{
    reveal(entry_version);
    match file_stem(p) {
        Some(stem) => {
            match extension(p) {
                Some(ext) => {
                    if str_eq(ext.as_str(), "bc") {
                        parse_version(stem.as_str())
                    } else {
                        None
                    }
                },
                None => None,
            }
        },
        None => None,
    }
}

/// Whether `vs` is ordered newest first.
pub open spec fn newest_first(vs: Seq<Seq<char>>) -> bool {
    forall|i: int, j: int| 0 <= i < j < vs.len() ==> !semver_less(#[trigger] vs[i], #[trigger] vs[j])
}

/// Position of a newest entry of `vs`: none of the others orders after it.
fn newest_index(vs: &Vec<String>) -> (k: usize)
    requires
        vs.len() > 0,
        all_versions(views(vs@)),
    ensures
        k < vs.len(),
        forall|j: int| 0 <= j < vs.len() && j != k ==> !semver_less(vs@[k as int]@, #[trigger] vs@[j]@),
{
    let mut k: usize = 0;
    let mut i: usize = 1;
    while i < vs.len()
        invariant
            1 <= i <= vs.len(),
            k < i,
            all_versions(views(vs@)),
            forall|j: int| 0 <= j < i && j != k ==> !semver_less(vs@[k as int]@, #[trigger] vs@[j]@),
        decreases vs.len() - i,
    {
        assert(is_version(views(vs@)[k as int]));
        assert(is_version(views(vs@)[i as int]));
        if version_less(vs[k].as_str(), vs[i].as_str()) {
            proof {
                assert forall|j: int| 0 <= j < i + 1 && j != i implies !semver_less(vs@[i as int]@, #[trigger] vs@[j]@) by {
                    if j != k {
                        assert(is_version(views(vs@)[j]));
                        if semver_less(vs@[i as int]@, vs@[j]@) {
                            assert(semver_less(vs@[k as int]@, vs@[j]@));
                        }
                    }
                }
            }
            k = i;
        }
        i = i + 1;
    }
    k
}

/// `vs` reordered newest first (`sort_by(|a, b| b.cmp(a))`).
pub fn sort_newest_first(vs: Vec<String>) -> (r: Vec<String>)
    requires
        all_versions(views(vs@)),
    ensures
        newest_first(views(r@)),
        views(r@).to_multiset() == views(vs@).to_multiset(),
        all_versions(views(r@)),
{
    let ghost orig = views(vs@);
    let mut rest = vs;
    let mut out: Vec<String> = Vec::new();
    proof {
        broadcast use vstd::seq_lib::group_to_multiset_ensures;
        assert(views(out@) =~= Seq::<Seq<char>>::empty());
        assert(views(out@).to_multiset() =~= Multiset::empty());
        assert(views(out@).to_multiset().add(views(rest@).to_multiset()) =~= orig.to_multiset());
    }
    while rest.len() > 0
        invariant
            all_versions(views(rest@)),
            all_versions(views(out@)),
            views(out@).to_multiset().add(views(rest@).to_multiset()) == orig.to_multiset(),
            newest_first(views(out@)),
            forall|i: int, j: int| 0 <= i < out.len() && 0 <= j < rest.len()
                ==> !semver_less(#[trigger] out@[i]@, #[trigger] rest@[j]@),
        decreases rest.len(),
    {
        let k = newest_index(&rest);
        let ghost old_rest = rest@;
        let ghost old_out = out@;
        let v = rest.remove(k);
        out.push(v);
        proof {
            broadcast use vstd::seq_lib::group_to_multiset_ensures;
            assert(views(rest@) =~= views(old_rest).remove(k as int));
            assert(views(out@) =~= views(old_out).push(old_rest[k as int]@));
            assert(views(old_rest)[k as int] == old_rest[k as int]@);
            assert forall|i: int| 0 <= i < rest@.len() implies is_version(#[trigger] views(rest@)[i]) by {
                if i < k {
                    assert(views(rest@)[i] == views(old_rest)[i]);
                } else {
                    assert(views(rest@)[i] == views(old_rest)[i + 1]);
                }
            }
            assert forall|i: int| 0 <= i < out@.len() implies is_version(#[trigger] views(out@)[i]) by {
                if i < old_out.len() {
                    assert(views(out@)[i] == views(old_out)[i]);
                } else {
                    assert(views(out@)[i] == views(old_rest)[k as int]);
                }
            }
            assert forall|i: int, j: int| 0 <= i < j < views(out@).len()
                implies !semver_less(#[trigger] views(out@)[i], #[trigger] views(out@)[j]) by {
                if j < old_out.len() {
                    assert(views(out@)[i] == views(old_out)[i]);
                    assert(views(out@)[j] == views(old_out)[j]);
                } else {
                    assert(out@[i] == old_out[i]);
                    assert(!semver_less(old_out[i]@, old_rest[k as int]@));
                }
            }
            assert forall|i: int, j: int| 0 <= i < out.len() && 0 <= j < rest.len()
                implies !semver_less(#[trigger] out@[i]@, #[trigger] rest@[j]@) by {
                let jj = if j < k { j } else { j + 1 };
                assert(rest@[j] == old_rest[jj]);
                if i < old_out.len() {
                    assert(out@[i] == old_out[i]);
                } else {
                    assert(jj != k);
                }
            }
            let m = views(old_rest)[k as int];
            assert(views(old_rest).to_multiset().count(m) > 0);
            assert(views(out@).to_multiset().add(views(rest@).to_multiset())
                =~= views(old_out).to_multiset().add(views(old_rest).to_multiset()));
        }
    }
    proof {
        broadcast use vstd::seq_lib::group_to_multiset_ensures;
        assert(views(rest@).to_multiset() =~= Multiset::empty());
        assert(views(out@).to_multiset() =~= views(out@).to_multiset().add(Multiset::empty()));
    }
    out
}

proof fn lemma_entry_versions_step(ps: Seq<Seq<char>>, i: int)
    requires
        0 <= i < ps.len(),
    ensures
        entry_versions(ps.take(i + 1)) == match entry_version(ps[i]) {
            Some(v) => entry_versions(ps.take(i)).push(v),
            None => entry_versions(ps.take(i)),
        },
{
    assert(ps.take(i + 1).drop_last() =~= ps.take(i));
    assert(ps.take(i + 1).last() == ps[i]);
}

/// The versions installed among the cache entries `entries` (file paths of
/// one script's directory), newest first; entries that are not
/// `<version>.bc` are skipped.
#[verifier::spinoff_prover]
pub fn installed_versions(entries: &Vec<String>) -> (r: Vec<String>)
    ensures
        newest_first(views(r@)),
        views(r@).to_multiset() == entry_versions(views(entries@)).to_multiset(),
        all_versions(views(r@)),
{
    let mut found: Vec<String> = Vec::new();
    let mut i: usize = 0;
    while i < entries.len()
        invariant
            i <= entries.len(),
            views(found@) == entry_versions(views(entries@).take(i as int)),
            all_versions(views(found@)),
        decreases entries.len() - i,
    {
        let ghost before = found@;
        let p = entries[i].as_str();
        proof {
            lemma_entry_versions_step(views(entries@), i as int);
            assert(views(entries@)[i as int] == p@);
        }
        match entry_version_of(p) {
            Some(v) => {
                found.push(v);
                assert(views(found@) =~= views(before).push(found@.last()@));
            },
            None => {},
        }
        proof {
            assert forall|j: int| 0 <= j < found@.len() implies is_version(#[trigger] views(found@)[j]) by {
                if j < before.len() {
                    assert(views(found@)[j] == views(before)[j]);
                }
            }
        }
        i = i + 1;
    }
    assert(views(entries@).take(entries.len() as int) =~= views(entries@));
    sort_newest_first(found)
}

// ───────────────────────────── choosing a version ─────────────────────────────

/// The plain text of an optional string slice.
pub open spec fn opt_str(o: Option<&str>) -> Option<Seq<char>> {
    match o {
        Some(s) => Some(s@),
        None => None,
    }
}

/// Whether `v` satisfies the optional range (any version without one).
pub open spec fn matches_opt(req: Option<Seq<char>>, v: Seq<char>) -> bool {
    match req {
        Some(r) => semver_matches(r, v),
        None => true,
    }
}

/// The first entry of `vs` that satisfies `req`.
pub open spec fn first_match(vs: Seq<Seq<char>>, req: Option<Seq<char>>) -> Option<Seq<char>>
    decreases vs.len(),
{
    if vs.len() == 0 {
        None
    } else if matches_opt(req, vs[0]) {
        Some(vs[0])
    } else {
        first_match(vs.drop_first(), req)
    }
}

/// `v` is an entry of `cands` that satisfies `req`, and no other satisfying
/// entry orders after it.
pub open spec fn is_newest_match(cands: Seq<Seq<char>>, req: Option<Seq<char>>, v: Seq<char>) -> bool {
    &&& cands.contains(v)
    &&& matches_opt(req, v)
    &&& forall|i: int| 0 <= i < cands.len() && matches_opt(req, #[trigger] cands[i]) && cands[i] != v
        ==> !semver_less(v, cands[i])
}

/// Some entry of `cands` satisfies `req`.
pub open spec fn has_match(cands: Seq<Seq<char>>, req: Option<Seq<char>>) -> bool {
    exists|i: int| 0 <= i < cands.len() && matches_opt(req, #[trigger] cands[i])
}

/// The first version of `installed` (newest first) that satisfies `req`.
pub fn pick_match(installed: &Vec<String>, req: Option<&str>) -> (r: Option<String>)
    requires
        all_versions(views(installed@)),
        req matches Some(q) ==> is_range(q@),
    ensures
        opt_view(r) == first_match(views(installed@), opt_str(req)),
{
    let ghost vs = views(installed@);
    assert(vs.subrange(0, vs.len() as int) =~= vs);
    let mut i: usize = 0;
    while i < installed.len()
        invariant
            i <= installed.len(),
            vs == views(installed@),
            all_versions(vs),
            first_match(vs.subrange(i as int, vs.len() as int), opt_str(req)) == first_match(vs, opt_str(req)),
        decreases installed.len() - i,
    {
        let v = installed[i].as_str();
        let ok = match req {
            Some(q) => {
                assert(is_version(vs[i as int]));
                version_matches(q, v)
            },
            None => true,
        };
        let ghost tail = vs.subrange(i as int, vs.len() as int);
        assert(tail[0] == v@);
        if ok {
            return Some(installed[i].clone());
        }
        assert(tail.drop_first() =~= vs.subrange(i + 1, vs.len() as int));
        i = i + 1;
    }
    None
}

/// The newest-first ordering makes the first satisfying entry the newest
/// satisfying one.
pub proof fn law_first_match_is_newest(vs: Seq<Seq<char>>, req: Option<Seq<char>>)
    requires
        newest_first(vs),
    ensures
        first_match(vs, req) matches Some(v) ==> is_newest_match(vs, req, v),
        first_match(vs, req) is None <==> !has_match(vs, req),
    decreases vs.len(),
{
    if vs.len() > 0 {
        let tail = vs.drop_first();
        assert forall|i: int, j: int| 0 <= i < j < tail.len() implies !semver_less(#[trigger] tail[i], #[trigger] tail[j]) by {
            assert(tail[i] == vs[i + 1] && tail[j] == vs[j + 1]);
        }
        law_first_match_is_newest(tail, req);
        if matches_opt(req, vs[0]) {
            let v = vs[0];
            assert(vs.contains(v));
            assert forall|i: int| 0 <= i < vs.len() && matches_opt(req, #[trigger] vs[i]) && vs[i] != v
                implies !semver_less(v, vs[i]) by {
                assert(i != 0);
            }
        } else {
            if let Some(v) = first_match(tail, req) {
                let w = choose|k: int| 0 <= k < tail.len() && tail[k] == v;
                assert(vs[w + 1] == v);
                assert(vs.contains(v));
                assert forall|i: int| 0 <= i < vs.len() && matches_opt(req, #[trigger] vs[i]) && vs[i] != v
                    implies !semver_less(v, vs[i]) by {
                    assert(i != 0);
                    assert(vs[i] == tail[i - 1]);
                }
            }
            if has_match(vs, req) {
                let i = choose|i: int| 0 <= i < vs.len() && matches_opt(req, #[trigger] vs[i]);
                assert(i != 0);
                assert(tail[i - 1] == vs[i]);
            }
            if has_match(tail, req) {
                let i = choose|i: int| 0 <= i < tail.len() && matches_opt(req, #[trigger] tail[i]);
                assert(vs[i + 1] == tail[i]);
            }
        }
    }
}

/// The optional range, checked: `Ok(None)` without one, `BadRange` with
/// `semver`'s message when it does not parse.
pub fn parse_range(range: Option<&str>) -> (r: Result<Option<String>, InstallError>)
    ensures
        match range {
            None => r matches Ok(None),
            Some(t) => match semver_req(t@) {
                Ok(()) => r matches Ok(Some(s)) && s@ == t@,
                Err(m) => r matches Err(InstallError::BadRange { range: rr, reason }) && rr@ == t@ && reason@ == m,
            },
        },
{
    match range {
        None => Ok(None),
        Some(t) => match check_range(t) {
            Ok(()) => Ok(Some(t.to_string())),
            Err(m) => Err(InstallError::BadRange { range: t.to_string(), reason: m }),
        },
    }
}

/// The best installed version for a range: the first of `installed` (the
/// cache's versions, newest first) that satisfies it; `BadRange` when the
/// range does not parse.
pub fn best_local_match(installed: &Vec<String>, range: Option<&str>) -> (r: Result<Option<String>, InstallError>)
    requires
        all_versions(views(installed@)),
    ensures
        match range {
            Some(t) if !is_range(t@) => r matches Err(InstallError::BadRange { range: rr, reason }) && rr@ == t@
                && semver_req(t@) == Err::<(), Seq<char>>(reason@),
            _ => r matches Ok(v) && opt_view(v) == first_match(views(installed@), opt_str(range)),
        },
{
    match parse_range(range) {
        Ok(_) => Ok(pick_match(installed, range)),
        Err(e) => Err(e),
    }
}

/// The versions of `published` that are not yanked and parse, in order.
pub open spec fn live_versions(published: Seq<VersionSummary>) -> Seq<Seq<char>>
    decreases published.len(),
{
    if published.len() == 0 {
        Seq::empty()
    } else {
        let v = published.last();
        match semver_version(v.version@) {
            Some(t) => if v.yanked_at is None {
                live_versions(published.drop_last()).push(t)
            } else {
                live_versions(published.drop_last())
            },
            None => live_versions(published.drop_last()),
        }
    }
}

/// The non-yanked, parseable versions of `published`, in their order.
pub fn live_candidates(published: &Vec<VersionSummary>) -> (r: Vec<String>)
    ensures
        views(r@) == live_versions(published@),
        all_versions(views(r@)),
{
    let mut out: Vec<String> = Vec::new();
    let mut i: usize = 0;
    while i < published.len()
        invariant
            i <= published.len(),
            views(out@) == live_versions(published@.take(i as int)),
            all_versions(views(out@)),
        decreases published.len() - i,
    {
        let ghost before = out@;
        proof {
            assert(published@.take(i + 1).drop_last() =~= published@.take(i as int));
            assert(published@.take(i + 1).last() == published@[i as int]);
        }
        let v = &published[i];
        match parse_version(v.version.as_str()) {
            Some(t) => {
                if v.yanked_at.is_none() {
                    out.push(t);
                    assert(views(out@) =~= views(before).push(out@.last()@));
                }
            },
            None => {},
        }
        proof {
            assert forall|j: int| 0 <= j < out@.len() implies is_version(#[trigger] views(out@)[j]) by {
                if j < before.len() {
                    assert(views(out@)[j] == views(before)[j]);
                }
            }
        }
        i = i + 1;
    }
    assert(published@.take(published.len() as int) =~= published@);
    out
}

/// Every candidate an install may pick is the version of a published entry
/// that is not yanked.
pub proof fn law_never_yanked(published: Seq<VersionSummary>, v: Seq<char>)
    ensures
        live_versions(published).contains(v) ==> exists|i: int| 0 <= i < published.len()
            && (#[trigger] published[i]).yanked_at is None && semver_version(published[i].version@) == Some(v),
    decreases published.len(),
{
    if published.len() > 0 {
        let rest = published.drop_last();
        law_never_yanked(rest, v);
        if live_versions(published).contains(v) {
            let last = published.last();
            if live_versions(rest).contains(v) {
                let i = choose|i: int| 0 <= i < rest.len() && (#[trigger] rest[i]).yanked_at is None
                    && semver_version(rest[i].version@) == Some(v);
                assert(published[i] == rest[i]);
            } else {
                let k = published.len() - 1;
                assert(published[k] == last);
                let lv = live_versions(rest);
                if semver_version(last.version@) is Some && last.yanked_at is None {
                    let t = semver_version(last.version@).unwrap();
                    assert(live_versions(published) == lv.push(t));
                    let w = choose|w: int| 0 <= w < lv.push(t).len() && lv.push(t)[w] == v;
                    if w < lv.len() {
                        assert(lv.contains(v));
                    }
                }
            }
        }
    }
}

proof fn lemma_same_multiset_contains(a: Seq<Seq<char>>, b: Seq<Seq<char>>, x: Seq<char>)
    requires
        a.to_multiset() == b.to_multiset(),
    ensures
        a.contains(x) <==> b.contains(x),
{
    broadcast use vstd::seq_lib::group_to_multiset_ensures;
    assert(a.contains(x) <==> a.to_multiset().count(x) > 0);
    assert(b.contains(x) <==> b.to_multiset().count(x) > 0);
}

/// The first match of a newest-first reordering of `lv` is a newest match of
/// `lv` itself, and exists exactly when `lv` has a match.
pub proof fn lemma_newest_transfer(lv: Seq<Seq<char>>, sv: Seq<Seq<char>>, req: Option<Seq<char>>)
    requires
        newest_first(sv),
        lv.to_multiset() == sv.to_multiset(),
    ensures
        first_match(sv, req) is None <==> !has_match(lv, req),
        first_match(sv, req) matches Some(v) ==> is_newest_match(lv, req, v),
{
    law_first_match_is_newest(sv, req);
    if has_match(lv, req) {
        let i = choose|i: int| 0 <= i < lv.len() && matches_opt(req, #[trigger] lv[i]);
        assert(lv.contains(lv[i]));
        lemma_same_multiset_contains(lv, sv, lv[i]);
        let j = choose|j: int| 0 <= j < sv.len() && sv[j] == lv[i];
        assert(matches_opt(req, sv[j]));
        assert(has_match(sv, req));
    }
    if has_match(sv, req) {
        let j = choose|j: int| 0 <= j < sv.len() && matches_opt(req, #[trigger] sv[j]);
        assert(sv.contains(sv[j]));
        lemma_same_multiset_contains(lv, sv, sv[j]);
        let i = choose|i: int| 0 <= i < lv.len() && lv[i] == sv[j];
        assert(matches_opt(req, lv[i]));
    }
    if let Some(v) = first_match(sv, req) {
        lemma_same_multiset_contains(lv, sv, v);
        assert forall|i: int| 0 <= i < lv.len() && matches_opt(req, #[trigger] lv[i]) && lv[i] != v
            implies !semver_less(v, lv[i]) by {
            assert(lv.contains(lv[i]));
            lemma_same_multiset_contains(lv, sv, lv[i]);
            let j = choose|j: int| 0 <= j < sv.len() && sv[j] == lv[i];
            assert(matches_opt(req, sv[j]));
        }
    }
}

/// Which published version an install of `<ns>/<name>[@range]` fetches: the
/// newest non-yanked version that satisfies the range (any, without one).
/// `BadRange` when the range does not parse; `NoMatchingVersion` (with the
/// range, or `*`) when no live version satisfies it.
pub fn pick_remote(
    published: &Vec<VersionSummary>,
    namespace: &str,
    name: &str,
    range: Option<&str>,
) -> (r: Result<String, InstallError>)
    ensures
        match range {
            Some(t) if !is_range(t@) => r matches Err(InstallError::BadRange { range: rr, reason }) && rr@ == t@
                && semver_req(t@) == Err::<(), Seq<char>>(reason@),
            _ => if has_match(live_versions(published@), opt_str(range)) {
                r matches Ok(v) && is_newest_match(live_versions(published@), opt_str(range), v@)
            } else {
                r matches Err(InstallError::NoMatchingVersion { namespace: ns, name: nm, range: rg })
                    && ns@ == namespace@ && nm@ == name@
                    && rg@ == match range { Some(t) => t@, None => "*"@ }
            },
        },
{
    match parse_range(range) {
        Err(e) => return Err(e),
        Ok(_) => {},
    }
    let live = live_candidates(published);
    let ghost lv = views(live@);
    let sorted = sort_newest_first(live);
    let ghost sv = views(sorted@);
    let pick = pick_match(&sorted, range);
    proof {
        lemma_newest_transfer(lv, sv, opt_str(range));
    }
    match pick {
        Some(v) => Ok(v),
        None => Err(InstallError::NoMatchingVersion {
            namespace: namespace.to_string(),
            name: name.to_string(),
            range: match range {
                Some(t) => t.to_string(),
                None => "*".to_string(),
            },
        }),
    }
}

/// The versions `install --all-versions` materialises: every non-yanked
/// published version that satisfies the range, newest first; the error text
/// when the range does not parse.
pub fn all_matching_versions(published: &Vec<VersionSummary>, range: Option<&str>) -> (r: Result<Vec<String>, String>)
    ensures
        match range {
            Some(t) if !is_range(t@) => r matches Err(m)
                && semver_req(t@) matches Err(e) && m@ == "invalid SemVer range `"@ + t@ + "`: "@ + e,
            _ => r matches Ok(vs) && newest_first(views(vs@))
                && views(vs@).to_multiset() == live_versions(published@).filter(|v: Seq<char>| matches_opt(opt_str(range), v)).to_multiset(),
        },
{
    match range {
        Some(t) => match check_range(t) {
            Ok(()) => {},
            Err(e) => {
                let mut m = String::new();
                m.append("invalid SemVer range `");
                m.append(t);
                m.append("`: ");
                m.append(e.as_str());
                return Err(m);
            },
        },
        None => {},
    }
    let live = live_candidates(published);
    let ghost lv = views(live@);
    let ghost pred = |v: Seq<char>| matches_opt(opt_str(range), v);
    let mut kept: Vec<String> = Vec::new();
    let mut i: usize = 0;
    while i < live.len()
        invariant
            i <= live.len(),
            lv == views(live@),
            all_versions(lv),
            views(kept@) == lv.take(i as int).filter(pred),
            all_versions(views(kept@)),
            range matches Some(t) ==> is_range(t@),
        decreases live.len() - i,
    {
        let ghost before = kept@;
        let v = live[i].as_str();
        assert(is_version(lv[i as int]));
        let ok = match range {
            Some(q) => version_matches(q, v),
            None => true,
        };
        proof {
            assert(lv.take(i + 1).drop_last() =~= lv.take(i as int));
            assert(lv.take(i + 1).last() == v@);
            lv.take(i as int).lemma_filter_push(v@, pred);
            assert(lv.take(i as int).push(v@) =~= lv.take(i + 1));
        }
        if ok {
            kept.push(live[i].clone());
            assert(views(kept@) =~= views(before).push(v@));
        }
        proof {
            assert forall|j: int| 0 <= j < kept@.len() implies is_version(#[trigger] views(kept@)[j]) by {
                if j < before.len() {
                    assert(views(kept@)[j] == views(before)[j]);
                }
            }
        }
        i = i + 1;
    }
    assert(lv.take(live.len() as int) =~= lv);
    Ok(sort_newest_first(kept))
}

/// Whether an install re-uses a cached file or downloads again.
#[derive(Debug)]
pub enum CacheMode {
    /// Download even when the version is cached.
    Force,
    /// Use the cached file when present.
    UseCache,
}

/// A cached file is used exactly when the mode allows it and it exists.
pub fn use_cached(mode: &CacheMode, exists: bool) -> (r: bool)
    ensures
        r == (*mode is UseCache && exists),
{
    match mode {
        CacheMode::UseCache => exists,
        CacheMode::Force => false,
    }
}

} // verus!

//! Stored registry credentials: one entry per registry base URL, so the same
//! machine can be logged into several registries at once. The file itself
//! (`<config dir>/ruso/credentials.json`) is read and written by the caller;
//! this module holds its content and the rules for looking up, adding and
//! removing a login.

use vstd::prelude::*;

use crate::paths::{join, join_spec, with_extension, with_extension_spec};
use crate::text::{clone_opt, opt_view, str_eq};

verus! {

broadcast use vstd::string::group_string_axioms;

/// A stored login.
#[derive(Debug)]
pub struct Credentials {
    pub token: String,
    /// The user the token belonged to at login time; display only.
    pub username: Option<String>,
}

/// The content of a login: its token and the user name, if known.
pub open spec fn cred_view(c: Credentials) -> (Seq<char>, Option<Seq<char>>) {
    (c.token@, opt_view(c.username))
}

impl Credentials {
    /// A copy of this login.
    pub fn duplicate(&self) -> (r: Credentials)
        ensures
            cred_view(r) == cred_view(*self),
    {
        Credentials { token: self.token.clone(), username: clone_opt(&self.username) }
    }
}

/// Failure to read, write or find stored credentials.
#[derive(Debug)]
pub enum CredentialError {
    /// The platform has no configuration directory.
    NoConfigDir,
    /// Reading the credentials file failed.
    Read { path: String, reason: String },
    /// Writing the credentials file failed.
    Write { path: String, reason: String },
    /// The credentials file is not valid JSON of the expected shape.
    Parse { path: String, reason: String },
    /// No login is stored for the registry.
    NotLoggedIn { registry: String },
}

impl CredentialError {
    /// The error's text, as shown to the user.
    pub fn message(&self) -> (r: String)
        ensures
            r@ == match *self {
                CredentialError::NoConfigDir => "could not determine config directory"@,
                CredentialError::Read { path, reason } => "failed to read "@ + path@ + ": "@ + reason@,
                CredentialError::Write { path, reason } => "failed to write "@ + path@ + ": "@ + reason@,
                CredentialError::Parse { path, reason } => "failed to parse "@ + path@ + ": "@ + reason@,
                CredentialError::NotLoggedIn { registry } => "not logged in to "@ + registry@
                    + " (run `ruso login --token …`)"@,
            },
    {
        let mut s = String::new();
        match self {
            CredentialError::NoConfigDir => {
                s.append("could not determine config directory");
            },
            CredentialError::Read { path, reason } => {
                s.append("failed to read ");
                s.append(path.as_str());
                s.append(": ");
                s.append(reason.as_str());
            },
            CredentialError::Write { path, reason } => {
                s.append("failed to write ");
                s.append(path.as_str());
                s.append(": ");
                s.append(reason.as_str());
            },
            CredentialError::Parse { path, reason } => {
                s.append("failed to parse ");
                s.append(path.as_str());
                s.append(": ");
                s.append(reason.as_str());
            },
            CredentialError::NotLoggedIn { registry } => {
                s.append("not logged in to ");
                s.append(registry.as_str());
                s.append(" (run `ruso login --token …`)");
            },
        }
        s
    }
}

/// `<config dir>/ruso/credentials.json`; `NoConfigDir` without a config directory.
pub fn credentials_path(config_dir: Option<&str>) -> (r: Result<String, CredentialError>)
    ensures
        match config_dir {
            Some(d) => r matches Ok(p) && p@ == join_spec(join_spec(d@, "ruso"@), "credentials.json"@),
            None => r matches Err(CredentialError::NoConfigDir),
        },
{
    match config_dir {
        Some(d) => {
            let a = join(d, "ruso");
            Ok(join(a.as_str(), "credentials.json"))
        },
        None => Err(CredentialError::NoConfigDir),
    }
}

/// The file a new credentials file is first written to before it replaces
/// the old one: the path with extension `json.tmp`.
pub fn temp_path(path: &str) -> (r: String)
    ensures
        r@ == with_extension_spec(path@, "json.tmp"@),
{
    with_extension(path, "json.tmp")
}

/// The logins of one credentials file, keyed by registry base URL.
#[derive(Debug)]
pub struct CredentialsFile {
    entries: Vec<(String, Credentials)>,
}

/// Some entry of `es` is keyed `k`.
pub open spec fn has_key(es: Seq<(String, Credentials)>, k: Seq<char>) -> bool {
    exists|i: int| 0 <= i < es.len() && (#[trigger] es[i]).0@ == k
}

/// The logins of `es` as a map from registry to login.
pub open spec fn entries_map(es: Seq<(String, Credentials)>) -> Map<Seq<char>, (Seq<char>, Option<Seq<char>>)> {
    Map::new(
        |k: Seq<char>| has_key(es, k),
        |k: Seq<char>| cred_view(es[choose|i: int| 0 <= i < es.len() && (#[trigger] es[i]).0@ == k].1),
    )
}

/// No two entries of `es` share a key.
pub open spec fn keys_distinct(es: Seq<(String, Credentials)>) -> bool {
    forall|i: int, j: int| 0 <= i < j < es.len() ==> (#[trigger] es[i]).0@ != (#[trigger] es[j]).0@
}

proof fn lemma_lookup(es: Seq<(String, Credentials)>, i: int)
    requires
        keys_distinct(es),
        0 <= i < es.len(),
    ensures
        entries_map(es).contains_key(es[i].0@),
        entries_map(es)[es[i].0@] == cred_view(es[i].1),
{
    let k = es[i].0@;
    assert(has_key(es, k));
    let c = choose|j: int| 0 <= j < es.len() && (#[trigger] es[j]).0@ == k;
    if c != i {
        if c < i {
            assert(es[c].0@ != es[i].0@);
        } else {
            assert(es[i].0@ != es[c].0@);
        }
    }
}

impl View for CredentialsFile {
    type V = Map<Seq<char>, (Seq<char>, Option<Seq<char>>)>;

    closed spec fn view(&self) -> Self::V {
        entries_map(self.entries@)
    }
}

impl CredentialsFile {
    #[verifier::type_invariant]
    spec fn distinct(self) -> bool {
        keys_distinct(self.entries@)
    }

    /// A file with no logins.
    pub fn new() -> (f: CredentialsFile)
        ensures
            f@ == Map::<Seq<char>, (Seq<char>, Option<Seq<char>>)>::empty(),
    {
        let f = CredentialsFile { entries: Vec::new() };
        assert(f@ =~= Map::<Seq<char>, (Seq<char>, Option<Seq<char>>)>::empty());
        f
    }

    /// Position of the entry keyed `registry`.
    fn position(&self, registry: &str) -> (r: Option<usize>)
        ensures
            match r {
                Some(i) => i < self.entries.len() && self.entries@[i as int].0@ == registry@,
                None => !has_key(self.entries@, registry@),
            },
    {
        let mut i: usize = 0;
        while i < self.entries.len()
            invariant
                i <= self.entries.len(),
                forall|j: int| 0 <= j < i ==> (#[trigger] self.entries@[j]).0@ != registry@,
            decreases self.entries.len() - i,
        {
            if str_eq(self.entries[i].0.as_str(), registry) {
                return Some(i);
            }
            i = i + 1;
        }
        None
    }

    /// Every login, each once, as `(registry, login)` pairs.
    pub fn entries(&self) -> (r: Vec<(String, Credentials)>)
        ensures
            keys_distinct(r@),
            entries_map(r@) == self@,
    {
        proof {
            use_type_invariant(self);
        }
        let mut out: Vec<(String, Credentials)> = Vec::new();
        let mut i: usize = 0;
        while i < self.entries.len()
            invariant
                i <= self.entries.len(),
                keys_distinct(self.entries@),
                out.len() == i,
                forall|j: int| 0 <= j < i ==> (#[trigger] out@[j]).0@ == self.entries@[j].0@
                    && cred_view(out@[j].1) == cred_view(self.entries@[j].1),
            decreases self.entries.len() - i,
        {
            let (k, c) = (&self.entries[i].0, &self.entries[i].1);
            out.push((k.clone(), c.duplicate()));
            i = i + 1;
        }
        proof {
            assert forall|a: int, b: int| 0 <= a < b < out@.len() implies (#[trigger] out@[a]).0@ != (#[trigger] out@[b]).0@ by {
                assert(self.entries@[a].0@ != self.entries@[b].0@);
            }
            assert forall|k: Seq<char>| has_key(out@, k) <==> has_key(self.entries@, k) by {
                if has_key(out@, k) {
                    let j = choose|j: int| 0 <= j < out@.len() && (#[trigger] out@[j]).0@ == k;
                    assert(self.entries@[j].0@ == k);
                }
                if has_key(self.entries@, k) {
                    let j = choose|j: int| 0 <= j < self.entries@.len() && (#[trigger] self.entries@[j]).0@ == k;
                    assert(out@[j].0@ == k);
                }
            }
            assert forall|k: Seq<char>| has_key(out@, k) implies entries_map(out@)[k] == entries_map(self.entries@)[k] by {
                let j = choose|j: int| 0 <= j < out@.len() && (#[trigger] out@[j]).0@ == k;
                lemma_lookup(out@, j);
                lemma_lookup(self.entries@, j);
            }
            assert(entries_map(out@) =~= entries_map(self.entries@));
        }
        out
    }
}

/// The login stored for `registry`, if any.
pub fn load(file: &CredentialsFile, registry: &str) -> (r: Option<Credentials>)
    ensures
        match r {
            Some(c) => file@.contains_key(registry@) && file@[registry@] == cred_view(c),
            None => !file@.contains_key(registry@),
        },
{
    proof {
        use_type_invariant(file);
    }
    match file.position(registry) {
        Some(i) => {
            proof {
                lemma_lookup(file.entries@, i as int);
            }
            Some(file.entries[i].1.duplicate())
        },
        None => None,
    }
}

/// The login stored for `registry`; `NotLoggedIn` when there is none.
pub fn require(file: &CredentialsFile, registry: &str) -> (r: Result<Credentials, CredentialError>)
    ensures
        match r {
            Ok(c) => file@.contains_key(registry@) && file@[registry@] == cred_view(c),
            Err(e) => !file@.contains_key(registry@) && (e matches CredentialError::NotLoggedIn { registry: g }
                && g@ == registry@),
        },
{
    match load(file, registry) {
        Some(c) => Ok(c),
        None => Err(CredentialError::NotLoggedIn { registry: registry.to_string() }),
    }
}

/// Store `creds` as the login for `registry`, replacing any earlier one.
pub fn save(file: &mut CredentialsFile, registry: &str, creds: Credentials)
    ensures
        final(file)@ == old(file)@.insert(registry@, cred_view(creds)),
{
    proof {
        use_type_invariant(&*file);
    }
    let ghost old_es = file.entries@;
    let ghost cv = cred_view(creds);
    let pos = file.position(registry);
    let mut es: Vec<(String, Credentials)> = Vec::new();
    std::mem::swap(&mut es, &mut file.entries);
    proof {
        assert(es@ == old_es);
    }
    match pos {
        Some(i) => {
            es.set(i, (registry.to_string(), creds));
            proof {
                assert forall|a: int, b: int| 0 <= a < b < es@.len() implies (#[trigger] es@[a]).0@ != (#[trigger] es@[b]).0@ by {
                    assert(old_es[a].0@ != old_es[b].0@);
                }
                assert forall|k: Seq<char>| #![auto] entries_map(es@).contains_key(k) == entries_map(old_es).insert(registry@, cv).contains_key(k) by {
                    if has_key(old_es, k) {
                        let j = choose|j: int| 0 <= j < old_es.len() && (#[trigger] old_es[j]).0@ == k;
                        assert(es@[j].0@ == k);
                    }
                    if has_key(es@, k) {
                        let j = choose|j: int| 0 <= j < es@.len() && (#[trigger] es@[j]).0@ == k;
                        if j != i {
                            assert(old_es[j].0@ == k);
                        }
                    }
                    assert(es@[i as int].0@ == registry@);
                }
                assert forall|k: Seq<char>| entries_map(es@).contains_key(k) implies entries_map(es@)[k] == entries_map(old_es).insert(registry@, cv)[k] by {
                    let j = choose|j: int| 0 <= j < es@.len() && (#[trigger] es@[j]).0@ == k;
                    lemma_lookup(es@, j);
                    if j != i {
                        lemma_lookup(old_es, j);
                    }
                }
                assert(entries_map(es@) =~= entries_map(old_es).insert(registry@, cv));
            }
        },
        None => {
            es.push((registry.to_string(), creds));
            proof {
                let n = old_es.len() as int;
                assert forall|a: int, b: int| 0 <= a < b < es@.len() implies (#[trigger] es@[a]).0@ != (#[trigger] es@[b]).0@ by {
                    if b < n {
                        assert(old_es[a].0@ != old_es[b].0@);
                    } else {
                        assert(old_es[a] == es@[a]);
                    }
                }
                assert forall|k: Seq<char>| #![auto] entries_map(es@).contains_key(k) == entries_map(old_es).insert(registry@, cv).contains_key(k) by {
                    if has_key(old_es, k) {
                        let j = choose|j: int| 0 <= j < old_es.len() && (#[trigger] old_es[j]).0@ == k;
                        assert(es@[j].0@ == k);
                    }
                    if has_key(es@, k) {
                        let j = choose|j: int| 0 <= j < es@.len() && (#[trigger] es@[j]).0@ == k;
                        if j < n {
                            assert(old_es[j].0@ == k);
                        }
                    }
                    assert(es@[n].0@ == registry@);
                }
                assert forall|k: Seq<char>| entries_map(es@).contains_key(k) implies entries_map(es@)[k] == entries_map(old_es).insert(registry@, cv)[k] by {
                    let j = choose|j: int| 0 <= j < es@.len() && (#[trigger] es@[j]).0@ == k;
                    lemma_lookup(es@, j);
                    if j < n {
                        assert(old_es[j] == es@[j]);
                        lemma_lookup(old_es, j);
                    }
                }
                assert(entries_map(es@) =~= entries_map(old_es).insert(registry@, cv));
            }
        },
    }
    file.entries = es;
}

/// Forget the login for `registry`; whether there was one.
pub fn delete(file: &mut CredentialsFile, registry: &str) -> (removed: bool)
    ensures
        removed == old(file)@.contains_key(registry@),
        final(file)@ == old(file)@.remove(registry@),
{
    proof {
        use_type_invariant(&*file);
    }
    let ghost old_es = file.entries@;
    match file.position(registry) {
        Some(i) => {
            let mut es: Vec<(String, Credentials)> = Vec::new();
    std::mem::swap(&mut es, &mut file.entries);
            proof {
                assert(es@ == old_es);
                lemma_lookup(old_es, i as int);
            }
            let _gone = es.remove(i);
            proof {
                let n = old_es.len() as int;
                assert forall|a: int| 0 <= a < es@.len() implies #[trigger] es@[a] == old_es[if a < i { a } else { a + 1 }] by {}
                assert forall|a: int, b: int| 0 <= a < b < es@.len() implies (#[trigger] es@[a]).0@ != (#[trigger] es@[b]).0@ by {
                    let aa = if a < i { a } else { a + 1 };
                    let bb = if b < i { b } else { b + 1 };
                    assert(es@[a] == old_es[aa]);
                    assert(es@[b] == old_es[bb]);
                    assert(old_es[aa].0@ != old_es[bb].0@);
                }
                assert forall|k: Seq<char>| #![auto] entries_map(es@).contains_key(k) == entries_map(old_es).remove(registry@).contains_key(k) by {
                    if has_key(es@, k) {
                        let j = choose|j: int| 0 <= j < es@.len() && (#[trigger] es@[j]).0@ == k;
                        let jj = if j < i { j } else { j + 1 };
                        assert(es@[j] == old_es[jj]);
                        assert(jj != i);
                        if k == registry@ {
                            if jj < i {
                                assert(old_es[jj].0@ != old_es[i as int].0@);
                            } else {
                                assert(old_es[i as int].0@ != old_es[jj].0@);
                            }
                        }
                    }
                    if has_key(old_es, k) && k != registry@ {
                        let j = choose|j: int| 0 <= j < old_es.len() && (#[trigger] old_es[j]).0@ == k;
                        assert(j != i);
                        let jj = if j < i { j } else { j - 1 };
                        assert(es@[jj] == old_es[j]);
                    }
                }
                assert forall|k: Seq<char>| entries_map(es@).contains_key(k) implies entries_map(es@)[k] == entries_map(old_es).remove(registry@)[k] by {
                    let j = choose|j: int| 0 <= j < es@.len() && (#[trigger] es@[j]).0@ == k;
                    let jj = if j < i { j } else { j + 1 };
                    assert(es@[j] == old_es[jj]);
                    lemma_lookup(es@, j);
                    lemma_lookup(old_es, jj);
                }
                assert(entries_map(es@) =~= entries_map(old_es).remove(registry@));
            }
            file.entries = es;
            true
        },
        None => {
            proof {
                assert(file@ =~= file@.remove(registry@));
            }
            false
        },
    }
}

/// What a lookup finds in a login map.
pub open spec fn lookup(m: Map<Seq<char>, (Seq<char>, Option<Seq<char>>)>, registry: Seq<char>) -> Option<(Seq<char>, Option<Seq<char>>)> {
    if m.contains_key(registry) { Some(m[registry]) } else { None }
}

/// A login saved for a registry is what a later load of that registry
/// finds; loads of other registries are unaffected; after a delete the
/// registry has no login.
pub proof fn law_load_after_save(
    m: Map<Seq<char>, (Seq<char>, Option<Seq<char>>)>,
    registry: Seq<char>,
    other: Seq<char>,
    creds: (Seq<char>, Option<Seq<char>>),
)
    ensures
        lookup(m.insert(registry, creds), registry) == Some(creds),
        other != registry ==> lookup(m.insert(registry, creds), other) == lookup(m, other),
        lookup(m.remove(registry), registry) is None,
        other != registry ==> lookup(m.remove(registry), other) == lookup(m, other),
        m.insert(registry, creds).remove(registry).contains_key(registry) == false,
{
}

} // verus!

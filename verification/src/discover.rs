//! Which `.rsl` scripts or `.rbc` bytecode files a path names: a file with
//! the right extension, or every such file found under a directory, in path
//! order. Walking the directory tree is the caller's; `DirWalk` keeps it from
//! entering a directory twice (symlink loops).

use vstd::prelude::*;

use crate::order::{lemma_lex_asymmetric, lemma_lex_transitive, path_less, path_lt, path_ranks};
use crate::paths::{extension, extension_spec, with_extension, with_extension_spec};
use crate::text::{str_eq, views};

verus! {

broadcast use vstd::string::group_string_axioms;

/// Why a path yields no scripts or bytecode.
#[derive(Debug)]
pub enum DiscoverError {
    NotFound(String),
    NotScript(String),
    NotBytecode(String),
    EmptyScripts(String),
    EmptyBytecode(String),
    Io { path: String, reason: String },
}

impl DiscoverError {
    /// The error's text, as shown to the user.
    pub fn message(&self) -> (r: String)
        ensures
            r@ == match *self {
                DiscoverError::NotFound(p) => "path not found: "@ + p@,
                DiscoverError::NotScript(p) => "not a .rsl script file: "@ + p@,
                DiscoverError::NotBytecode(p) => "not a .rbc bytecode file: "@ + p@,
                DiscoverError::EmptyScripts(p) => "no .rsl scripts found under "@ + p@,
                DiscoverError::EmptyBytecode(p) => "no .rbc bytecode files found under "@ + p@,
                DiscoverError::Io { path, reason } => "failed to read "@ + path@ + ": "@ + reason@,
            },
    {
        let mut s = String::new();
        match self {
            DiscoverError::NotFound(p) => {
                s.append("path not found: ");
                s.append(p.as_str());
            },
            DiscoverError::NotScript(p) => {
                s.append("not a .rsl script file: ");
                s.append(p.as_str());
            },
            DiscoverError::NotBytecode(p) => {
                s.append("not a .rbc bytecode file: ");
                s.append(p.as_str());
            },
            DiscoverError::EmptyScripts(p) => {
                s.append("no .rsl scripts found under ");
                s.append(p.as_str());
            },
            DiscoverError::EmptyBytecode(p) => {
                s.append("no .rbc bytecode files found under ");
                s.append(p.as_str());
            },
            DiscoverError::Io { path, reason } => {
                s.append("failed to read ");
                s.append(path.as_str());
                s.append(": ");
                s.append(reason.as_str());
            },
        }
        s
    }
}

/// What the filesystem says about a path.
#[derive(Debug)]
pub enum PathProbe {
    /// Nothing exists there.
    Missing,
    /// A regular file.
    File,
    /// A directory, with every non-directory entry found under it
    /// (recursively, each directory once), or the failing path and its error.
    Dir(Result<Vec<String>, (String, String)>),
    /// Something else (neither file nor directory).
    Other,
}

/// Whether `p`'s extension is exactly `ext`.
pub open spec fn has_extension(p: Seq<char>, ext: Seq<char>) -> bool {
    extension_spec(p) == Some(ext)
}

/// Whether the path `p` has extension `ext`.
pub fn path_has_extension(p: &str, ext: &str) -> (r: bool)
    ensures
        r == has_extension(p@, ext@),
{
    match extension(p) {
        Some(x) => str_eq(x.as_str(), ext),
        None => false,
    }
}

/// `checks/foo.rsl` → `checks/foo.rbc`.
pub fn bytecode_path_for_script(script: &str) -> (r: String)
    ensures
        r@ == with_extension_spec(script@, "rbc"@),
{
    with_extension(script, "rbc")
}

/// Whether `ps` is in path order.
pub open spec fn paths_sorted(ps: Seq<Seq<char>>) -> bool {
    forall|i: int, j: int| 0 <= i < j < ps.len() ==> !path_lt(#[trigger] ps[j], #[trigger] ps[i])
}

/// `ps` in path order (`sort()` on paths).
pub fn sort_paths(ps: Vec<String>) -> (r: Vec<String>)
    ensures
        paths_sorted(views(r@)),
        views(r@).to_multiset() == views(ps@).to_multiset(),
{
    broadcast use vstd::seq_lib::group_to_multiset_ensures;

    let mut out: Vec<String> = Vec::new();
    let mut i: usize = 0;
    assert(views(out@) =~= Seq::<Seq<char>>::empty());
    assert(views(ps@).take(0) =~= Seq::<Seq<char>>::empty());
    while i < ps.len()
        invariant
            i <= ps.len(),
            paths_sorted(views(out@)),
            views(out@).to_multiset() == views(ps@).take(i as int).to_multiset(),
        decreases ps.len() - i,
    {
        let x = ps[i].clone();
        let mut p: usize = 0;
        while p < out.len() && !path_less(x.as_str(), out[p].as_str())
            invariant
                p <= out.len(),
                forall|q: int| 0 <= q < p ==> !path_lt(x@, #[trigger] out@[q]@),
            decreases out.len() - p,
        {
            p = p + 1;
        }
        let ghost before = out@;
        out.insert(p, x);
        proof {
            let vb = views(before);
            assert(views(out@) =~= vb.insert(p as int, x@));
            assert forall|a: int, b: int| 0 <= a < b < views(out@).len()
                implies !path_lt(#[trigger] views(out@)[b], #[trigger] views(out@)[a]) by {
                let vo = views(out@);
                if b < p {
                    assert(vo[a] == vb[a] && vo[b] == vb[b]);
                } else if b == p {
                    assert(vo[a] == vb[a]);
                    assert(!path_lt(x@, before[a]@));
                } else if a < p {
                    assert(vo[a] == vb[a] && vo[b] == vb[b - 1]);
                } else if a == p {
                    assert(vo[b] == vb[b - 1]);
                    assert(p < before.len());
                    assert(path_lt(x@, before[p as int]@));
                    if path_lt(vb[b - 1], x@) {
                        lemma_lex_transitive(path_ranks(vb[b - 1]), path_ranks(x@), path_ranks(vb[p as int]));
                        if b - 1 > p {
                            assert(!path_lt(vb[b - 1], vb[p as int]));
                        } else {
                            lemma_lex_asymmetric(path_ranks(x@), path_ranks(vb[p as int]));
                        }
                    }
                } else {
                    assert(vo[a] == vb[a - 1] && vo[b] == vb[b - 1]);
                }
            }
            assert(views(ps@).take(i + 1) =~= views(ps@).take(i as int).push(x@));
        }
        i = i + 1;
    }
    assert(views(ps@).take(ps.len() as int) =~= views(ps@));
    out
}

/// The entries of `ps` with extension `ext`, in order.
pub open spec fn with_ext(ps: Seq<Seq<char>>, ext: Seq<char>) -> Seq<Seq<char>> {
    ps.filter(|p: Seq<char>| has_extension(p, ext))
}

fn keep_extension(ps: &Vec<String>, ext: &str) -> (r: Vec<String>)
    ensures
        views(r@) == with_ext(views(ps@), ext@),
{
    let ghost pred = |p: Seq<char>| has_extension(p, ext@);
    let mut out: Vec<String> = Vec::new();
    let mut i: usize = 0;
    while i < ps.len()
        invariant
            i <= ps.len(),
            views(out@) == views(ps@).take(i as int).filter(pred),
        decreases ps.len() - i,
    {
        let ghost before = out@;
        proof {
            views(ps@).take(i as int).lemma_filter_push(ps@[i as int]@, pred);
            assert(views(ps@).take(i as int).push(ps@[i as int]@) =~= views(ps@).take(i + 1));
        }
        if path_has_extension(ps[i].as_str(), ext) {
            out.push(ps[i].clone());
            assert(views(out@) =~= views(before).push(ps@[i as int]@));
        }
        i = i + 1;
    }
    assert(views(ps@).take(ps.len() as int) =~= views(ps@));
    out
}

/// What a path yields, for files with extension `ext`: a matching file → it
/// alone (else `wrong`); a directory → its matching files in path order (else
/// `empty`, or the walk's error); otherwise `NotFound`.
pub open spec fn discover_spec(
    path: Seq<char>,
    probe: PathProbe,
    ext: Seq<char>,
) -> Result<Seq<Seq<char>>, (int, Seq<char>, Seq<char>)> {
    match probe {
        PathProbe::Missing => Err((0, path, Seq::empty())),
        PathProbe::Other => Err((0, path, Seq::empty())),
        PathProbe::File => if has_extension(path, ext) { Ok(seq![path]) } else { Err((1, path, Seq::empty())) },
        PathProbe::Dir(Err((p, m))) => Err((3, p@, m@)),
        PathProbe::Dir(Ok(files)) => if with_ext(views(files@), ext).len() == 0 {
            Err((2, path, Seq::empty()))
        } else {
            Ok(with_ext(views(files@), ext))
        },
    }
}

/// The kind of a discovery error (`0` not found, `1` wrong extension, `2`
/// nothing found, `3` walk failed) with its path and reason.
pub open spec fn discover_error_view(e: DiscoverError) -> (int, Seq<char>, Seq<char>) {
    match e {
        DiscoverError::NotFound(p) => (0, p@, Seq::empty()),
        DiscoverError::NotScript(p) => (1, p@, Seq::empty()),
        DiscoverError::NotBytecode(p) => (1, p@, Seq::empty()),
        DiscoverError::EmptyScripts(p) => (2, p@, Seq::empty()),
        DiscoverError::EmptyBytecode(p) => (2, p@, Seq::empty()),
        DiscoverError::Io { path, reason } => (3, path@, reason@),
    }
}

/// How a result agrees with `discover_spec`: the same error, or the same
/// files in path order.
pub open spec fn discover_agrees(
    r: Result<Vec<String>, DiscoverError>,
    spec: Result<Seq<Seq<char>>, (int, Seq<char>, Seq<char>)>,
) -> bool {
    match r {
        Ok(v) => spec matches Ok(fs) && paths_sorted(views(v@)) && views(v@).to_multiset() == fs.to_multiset(),
        Err(e) => spec == Err::<Seq<Seq<char>>, (int, Seq<char>, Seq<char>)>(discover_error_view(e)),
    }
}

fn discover(path: &str, probe: &PathProbe, ext: &str, scripts: bool) -> (r: Result<Vec<String>, DiscoverError>)
    ensures
        discover_agrees(r, discover_spec(path@, *probe, ext@)),
        r matches Err(e) ==> scripts ==> !(e is NotBytecode || e is EmptyBytecode),
        r matches Err(e) ==> !scripts ==> !(e is NotScript || e is EmptyScripts),
{
    match probe {
        PathProbe::Missing => Err(DiscoverError::NotFound(path.to_string())),
        PathProbe::Other => Err(DiscoverError::NotFound(path.to_string())),
        PathProbe::File => {
            if path_has_extension(path, ext) {
                let mut v: Vec<String> = Vec::new();
                v.push(path.to_string());
                assert(views(v@) =~= seq![path@]);
                assert(paths_sorted(views(v@)));
                Ok(v)
            } else if scripts {
                Err(DiscoverError::NotScript(path.to_string()))
            } else {
                Err(DiscoverError::NotBytecode(path.to_string()))
            }
        },
        PathProbe::Dir(Err((p, m))) => Err(DiscoverError::Io { path: p.clone(), reason: m.clone() }),
        PathProbe::Dir(Ok(files)) => {
            let kept = keep_extension(files, ext);
            if kept.len() == 0 {
                if scripts {
                    Err(DiscoverError::EmptyScripts(path.to_string()))
                } else {
                    Err(DiscoverError::EmptyBytecode(path.to_string()))
                }
            } else {
                Ok(sort_paths(kept))
            }
        },
    }
}

/// The `.rsl` scripts `path` names: the file itself (which must end in
/// `.rsl`) or every `.rsl` file under the directory, in path order.
/// `probe` is what the filesystem says about `path`.
pub fn discover_scripts(path: &str, probe: &PathProbe) -> (r: Result<Vec<String>, DiscoverError>)
    ensures
        discover_agrees(r, discover_spec(path@, *probe, "rsl"@)),
        r matches Err(e) ==> !(e is NotBytecode || e is EmptyBytecode),
{
    discover(path, probe, "rsl", true)
}

/// The `.rbc` bytecode files `path` names, as `discover_scripts` does for
/// scripts.
pub fn discover_bytecode(path: &str, probe: &PathProbe) -> (r: Result<Vec<String>, DiscoverError>)
    ensures
        discover_agrees(r, discover_spec(path@, *probe, "rbc"@)),
        r matches Err(e) ==> !(e is NotScript || e is EmptyScripts),
{
    discover(path, probe, "rbc", false)
}

/// The directories a walk has entered, by canonical path.
#[derive(Debug)]
pub struct DirWalk {
    visited: Vec<String>,
}

impl View for DirWalk {
    type V = Set<Seq<char>>;

    closed spec fn view(&self) -> Set<Seq<char>> {
        views(self.visited@).to_set()
    }
}

impl DirWalk {
    /// A walk that has entered nothing yet.
    pub fn new() -> (w: DirWalk)
        ensures
            w@ == Set::<Seq<char>>::empty(),
    {
        let w = DirWalk { visited: Vec::new() };
        assert(views(w.visited@) =~= Seq::<Seq<char>>::empty());
        assert(w@ =~= Set::<Seq<char>>::empty());
        w
    }

    /// Enter the directory with canonical path `canonical`: true the first
    /// time, false when it was entered before (the walk then skips it).
    pub fn enter(&mut self, canonical: &str) -> (first: bool)
        ensures
            first == !old(self)@.contains(canonical@),
            final(self)@ == old(self)@.insert(canonical@),
    {
        let ghost before = views(self.visited@);
        let mut i: usize = 0;
        while i < self.visited.len()
            invariant
                i <= self.visited.len(),
                before == views(self.visited@),
                forall|j: int| 0 <= j < i ==> before[j] != canonical@,
            decreases self.visited.len() - i,
        {
            if str_eq(self.visited[i].as_str(), canonical) {
                proof {
                    assert(before[i as int] == canonical@);
                    assert(before.to_set().contains(canonical@));
                    assert(before.to_set().insert(canonical@) =~= before.to_set());
                }
                return false;
            }
            i = i + 1;
        }
        self.visited.push(canonical.to_string());
        proof {
            assert(!before.contains(canonical@));
            assert(views(self.visited@) =~= before.push(canonical@));
            before.lemma_push_to_set_commute(canonical@);
        }
        true
    }
}

} // verus!

//! Resolve `--target` to one or more scan origins (a URL or a targets file).

use vstd::prelude::*;

use crate::text::{copy_str, has_prefix, starts_with, strip_prefix, trim, trim_spec, views};

verus! {

/// Why `--target` could not be resolved.
#[derive(Debug)]
pub enum TargetError {
    /// The path exists but is not a regular file.
    NotFound(String),
    /// The targets file is empty.
    EmptyFile(String),
    /// The targets file holds no valid target.
    NoValidTargets(String),
    /// Neither a URL nor a path.
    Invalid(String),
    /// Reading the targets file failed.
    Io { path: String, message: String },
}

/// What the filesystem says about the (trimmed) `--target` path.
#[derive(Debug)]
pub enum TargetPath {
    /// A regular file; its lines and byte length, or the read error.
    File(Result<(Vec<String>, u64), String>),
    /// Something other than a regular file exists there.
    Other,
    /// Nothing exists there.
    Missing,
}

/// The content of a [`TargetError`]: kind (0..5) and its text fields.
pub open spec fn target_error_view(e: TargetError) -> (int, Seq<char>, Seq<char>) {
    match e {
        TargetError::NotFound(p) => (0, p@, Seq::empty()),
        TargetError::EmptyFile(p) => (1, p@, Seq::empty()),
        TargetError::NoValidTargets(p) => (2, p@, Seq::empty()),
        TargetError::Invalid(t) => (3, t@, Seq::empty()),
        TargetError::Io { path, message } => (4, path@, message@),
    }
}

impl TargetError {
    /// The human-readable message (what `Display` shows).
    pub fn message(&self) -> (r: String)
        ensures
            r@ == match *self {
                TargetError::NotFound(p) => "target path not found: "@ + p@,
                TargetError::EmptyFile(p) => "targets file is empty: "@ + p@,
                TargetError::NoValidTargets(p) => "no valid targets in file: "@ + p@,
                TargetError::Invalid(t) => "invalid target (expected URL or path to targets file): "@ + t@,
                TargetError::Io { path, message } => "failed to read "@ + path@ + ": "@ + message@,
            },
    {
        let mut s = String::new();
        match self {
            TargetError::NotFound(p) => {
                s.append("target path not found: ");
                s.append(p.as_str());
            },
            TargetError::EmptyFile(p) => {
                s.append("targets file is empty: ");
                s.append(p.as_str());
            },
            TargetError::NoValidTargets(p) => {
                s.append("no valid targets in file: ");
                s.append(p.as_str());
            },
            TargetError::Invalid(t) => {
                s.append("invalid target (expected URL or path to targets file): ");
                s.append(t.as_str());
            },
            TargetError::Io { path, message } => {
                s.append("failed to read ");
                s.append(path.as_str());
                s.append(": ");
                s.append(message.as_str());
            },
        }
        s
    }
}

/// `value` (trimmed) is an `http://` or `https://` URL with an authority:
/// something follows the scheme and it does not start with `/`.
pub open spec fn is_url_spec(value: Seq<char>) -> bool {
    let v = trim_spec(value);
    let rest = if has_prefix(v, "http://"@) {
        Some(v.subrange(("http://"@).len() as int, v.len() as int))
    } else if has_prefix(v, "https://"@) {
        Some(v.subrange(("https://"@).len() as int, v.len() as int))
    } else {
        None
    };
    match rest {
        Some(r) => r.len() > 0 && r[0] != '/',
        None => false,
    }
}

/// Whether `value` is a usable URL target.
pub fn is_url(value: &str) -> (b: bool)
    ensures
        b == is_url_spec(value@),
{
    let v = trim(value);
    let rest = match strip_prefix(v.as_str(), "http://") {
        Some(r) => r,
        None => match strip_prefix(v.as_str(), "https://") {
            Some(r) => r,
            None => return false,
        },
    };
    let n = rest.as_str().unicode_len();
    n > 0 && rest.as_str().get_char(0) != '/'
}

/// The target a targets-file line names: the trimmed line, when it is a URL;
/// blank lines and lines whose first non-blank character is `#` name none.
/// A `#` later in the line is kept (URL fragments).
pub open spec fn target_line_spec(line: Seq<char>) -> Option<Seq<char>> {
    let t = trim_spec(line);
    if t.len() == 0 || t[0] == '#' {
        None
    } else if is_url_spec(t) {
        Some(t)
    } else {
        None
    }
}

/// Parse one line of a targets file.
pub fn parse_target_line(line: &str) -> (r: Option<String>)
    ensures
        match r {
            Some(u) => target_line_spec(line@) == Some(u@),
            None => target_line_spec(line@) is None,
        },
{
    let t = trim(line);
    if t.as_str().unicode_len() == 0 || t.as_str().get_char(0) == '#' {
        return None;
    }
    if is_url(t.as_str()) {
        Some(t)
    } else {
        None
    }
}

/// The targets named by the lines of a file, in order.
pub open spec fn targets_of_lines(lines: Seq<Seq<char>>) -> Seq<Seq<char>>
    decreases lines.len(),
{
    if lines.len() == 0 {
        Seq::empty()
    } else {
        match target_line_spec(lines.last()) {
            Some(t) => targets_of_lines(lines.drop_last()).push(t),
            None => targets_of_lines(lines.drop_last()),
        }
    }
}

/// The outcome of reading a targets file at `path`: its targets, or
/// `EmptyFile` (nothing valid and zero bytes), `NoValidTargets`, or `Io`.
pub open spec fn from_file_spec(
    path: Seq<char>,
    read: Result<(Seq<Seq<char>>, nat), Seq<char>>,
) -> Result<Seq<Seq<char>>, (int, Seq<char>, Seq<char>)> {
    match read {
        Err(m) => Err((4, path, m)),
        Ok((lines, bytes)) => {
            let ts = targets_of_lines(lines);
            if ts.len() == 0 {
                if bytes == 0 {
                    Err((1, path, Seq::empty()))
                } else {
                    Err((2, path, Seq::empty()))
                }
            } else {
                Ok(ts)
            }
        },
    }
}

proof fn lemma_targets_prefix(lines: Seq<Seq<char>>, k: int)
    requires
        0 <= k <= lines.len(),
    ensures
        targets_of_lines(lines.take(k)).len() <= targets_of_lines(lines).len(),
        targets_of_lines(lines).take(targets_of_lines(lines.take(k)).len() as int) == targets_of_lines(lines.take(k)),
    decreases lines.len(),
{
    let all = targets_of_lines(lines);
    if k == lines.len() {
        assert(lines.take(k) =~= lines);
        assert(all.take(all.len() as int) =~= all);
    } else {
        let d = lines.drop_last();
        assert(lines.take(k) =~= d.take(k));
        lemma_targets_prefix(d, k);
        let pre = targets_of_lines(d);
        let m = targets_of_lines(d.take(k)).len() as int;
        match target_line_spec(lines.last()) {
            Some(t) => {
                assert(all == pre.push(t));
                assert(all.take(m) =~= pre.take(m));
            },
            None => {},
        }
    }
}

proof fn lemma_target_at(lines: Seq<Seq<char>>, k: int)
    requires
        0 <= k < lines.len(),
        target_line_spec(lines[k]) is Some,
    ensures
        targets_of_lines(lines.take(k + 1)) == targets_of_lines(lines.take(k)).push(target_line_spec(lines[k])->0),
{
    assert(lines.take(k + 1).drop_last() =~= lines.take(k));
    assert(lines.take(k + 1).last() == lines[k]);
}

proof fn lemma_targets_from_lines(lines: Seq<Seq<char>>)
    ensures
        forall|i: int| #![trigger targets_of_lines(lines)[i]] 0 <= i < targets_of_lines(lines).len() ==> exists|k: int|
            0 <= k < lines.len() && target_line_spec(#[trigger] lines[k]) == Some(targets_of_lines(lines)[i]),
    decreases lines.len(),
{
    if lines.len() > 0 {
        let d = lines.drop_last();
        lemma_targets_from_lines(d);
        let all = targets_of_lines(lines);
        let pre = targets_of_lines(d);
        assert forall|i: int| #![trigger all[i]] 0 <= i < all.len() implies exists|k: int|
            0 <= k < lines.len() && target_line_spec(#[trigger] lines[k]) == Some(all[i]) by {
            if i < pre.len() {
                assert(all[i] == pre[i]);
                let k = choose|k: int| 0 <= k < d.len() && target_line_spec(#[trigger] d[k]) == Some(pre[i]);
                assert(lines[k] == d[k]);
            } else {
                let k = lines.len() - 1;
                assert(lines[k] == lines.last());
            }
        }
    }
}

/// The target of line `k` sits in the result at the number of targets
/// before that line.
proof fn lemma_target_position(lines: Seq<Seq<char>>, k: int)
    requires
        0 <= k < lines.len(),
        target_line_spec(lines[k]) is Some,
    ensures
        targets_of_lines(lines.take(k)).len() < targets_of_lines(lines).len(),
        targets_of_lines(lines)[targets_of_lines(lines.take(k)).len() as int] == target_line_spec(lines[k])->0,
{
    lemma_target_at(lines, k);
    lemma_targets_prefix(lines, k + 1);
    let ts = targets_of_lines(lines);
    let m = targets_of_lines(lines.take(k)).len() as int;
    assert(ts.take(m + 1)[m] == ts[m]);
}

/// Targets of earlier lines come first.
proof fn lemma_target_positions_ordered(lines: Seq<Seq<char>>, k1: int, k2: int)
    requires
        0 <= k1 < k2 < lines.len(),
        target_line_spec(lines[k1]) is Some,
    ensures
        targets_of_lines(lines.take(k1)).len() < targets_of_lines(lines.take(k2)).len(),
{
    lemma_target_at(lines, k1);
    lemma_targets_prefix(lines.take(k2), k1 + 1);
    assert(lines.take(k2).take(k1 + 1) =~= lines.take(k1 + 1));
}

/// Law: a targets file yields exactly its target lines, in line order.
/// Every line that is a target (trimmed, not blank, not a `#` comment, a
/// URL) is in the result, a target line later in the file comes later in the
/// result, and every result comes from some line. When no line is a target
/// the file is refused.
pub proof fn law_file_targets_are_its_url_lines(path: Seq<char>, lines: Seq<Seq<char>>, bytes: nat)
    ensures
        forall|k: int| 0 <= k < lines.len() && (#[trigger] target_line_spec(lines[k])) is Some ==>
            (from_file_spec(path, Ok((lines, bytes))) matches Ok(ts) && ts.contains(target_line_spec(lines[k])->0)),
        forall|k1: int, k2: int| 0 <= k1 < k2 < lines.len() && (#[trigger] target_line_spec(lines[k1])) is Some
            && (#[trigger] target_line_spec(lines[k2])) is Some ==>
            (from_file_spec(path, Ok((lines, bytes))) matches Ok(ts) && exists|i1: int, i2: int|
                0 <= i1 < i2 < ts.len() && ts[i1] == target_line_spec(lines[k1])->0 && ts[i2] == target_line_spec(lines[k2])->0),
        from_file_spec(path, Ok((lines, bytes))) matches Ok(ts) ==> forall|i: int| #![trigger ts[i]] 0 <= i < ts.len() ==>
            exists|k: int| 0 <= k < lines.len() && target_line_spec(#[trigger] lines[k]) == Some(ts[i]),
        (forall|k: int| 0 <= k < lines.len() ==> (#[trigger] target_line_spec(lines[k])) is None) ==>
            from_file_spec(path, Ok((lines, bytes))) is Err,
{
    let ts = targets_of_lines(lines);
    let r = from_file_spec(path, Ok((lines, bytes)));
    assert(ts.len() > 0 ==> r == Ok::<Seq<Seq<char>>, (int, Seq<char>, Seq<char>)>(ts));
    assert(ts.len() == 0 ==> r is Err);
    lemma_targets_from_lines(lines);
    assert forall|k: int| 0 <= k < lines.len() && (#[trigger] target_line_spec(lines[k])) is Some implies
        (r matches Ok(t) && t.contains(target_line_spec(lines[k])->0)) by {
        lemma_target_position(lines, k);
        let m = targets_of_lines(lines.take(k)).len() as int;
        assert(ts[m] == target_line_spec(lines[k])->0);
    }
    assert forall|k1: int, k2: int| 0 <= k1 < k2 < lines.len() && (#[trigger] target_line_spec(lines[k1])) is Some
        && (#[trigger] target_line_spec(lines[k2])) is Some implies
        (r matches Ok(t) && exists|i1: int, i2: int|
            0 <= i1 < i2 < t.len() && t[i1] == target_line_spec(lines[k1])->0 && t[i2] == target_line_spec(lines[k2])->0) by {
        lemma_target_position(lines, k1);
        lemma_target_position(lines, k2);
        lemma_target_positions_ordered(lines, k1, k2);
        let i1 = targets_of_lines(lines.take(k1)).len() as int;
        let i2 = targets_of_lines(lines.take(k2)).len() as int;
        assert(ts[i1] == target_line_spec(lines[k1])->0 && ts[i2] == target_line_spec(lines[k2])->0);
    }
    if forall|k: int| 0 <= k < lines.len() ==> (#[trigger] target_line_spec(lines[k])) is None {
        if ts.len() > 0 {
            let k = choose|k: int| 0 <= k < lines.len() && target_line_spec(#[trigger] lines[k]) == Some(ts[0]);
        }
    }
}

/// The targets of a file whose lines were read (or whose reading failed).
pub fn targets_from_file(path: &str, read: &Result<(Vec<String>, u64), String>) -> (r: Result<Vec<String>, TargetError>)
    ensures
        match r {
            Ok(v) => from_file_spec(path@, read_view(*read)) == Ok::<Seq<Seq<char>>, (int, Seq<char>, Seq<char>)>(views(v@)),
            Err(e) => from_file_spec(path@, read_view(*read)) == Err::<Seq<Seq<char>>, (int, Seq<char>, Seq<char>)>(target_error_view(e)),
        },
{
    match read {
        Err(m) => Err(TargetError::Io { path: copy_str(path), message: m.clone() }),
        Ok((lines, bytes)) => {
            let mut targets: Vec<String> = Vec::new();
            let mut i: usize = 0;
            while i < lines.len()
                invariant
                    i <= lines.len(),
                    views(targets@) == targets_of_lines(views(lines@).take(i as int)),
                decreases lines.len() - i,
            {
                let ghost ls = views(lines@);
                proof {
                    assert(ls.take(i + 1).drop_last() =~= ls.take(i as int));
                    assert(ls.take(i + 1).last() == lines@[i as int]@);
                }
                match parse_target_line(lines[i].as_str()) {
                    Some(u) => {
                        let ghost old_t = targets@;
                        targets.push(u);
                        assert(views(targets@) =~= views(old_t).push(u@));
                    },
                    None => {},
                }
                i = i + 1;
            }
            proof {
                assert(views(lines@).take(lines.len() as int) =~= views(lines@));
            }
            if targets.len() == 0 {
                if *bytes == 0 {
                    return Err(TargetError::EmptyFile(copy_str(path)));
                }
                return Err(TargetError::NoValidTargets(copy_str(path)));
            }
            Ok(targets)
        },
    }
}

/// The content of a file read result.
pub open spec fn read_view(read: Result<(Vec<String>, u64), String>) -> Result<(Seq<Seq<char>>, nat), Seq<char>> {
    match read {
        Ok((lines, bytes)) => Ok((views(lines@), bytes as nat)),
        Err(m) => Err(m@),
    }
}

/// The path `--target` names on disk: the trimmed argument.
pub fn target_path_candidate(target: &str) -> (r: String)
    ensures
        r@ == trim_spec(target@),
{
    trim(target)
}

/// The content of a filesystem probe.
pub open spec fn probe_view(p: TargetPath) -> (int, Result<(Seq<Seq<char>>, nat), Seq<char>>) {
    match p {
        TargetPath::File(read) => (0, read_view(read)),
        TargetPath::Other => (1, Err(Seq::empty())),
        TargetPath::Missing => (2, Err(Seq::empty())),
    }
}

/// Resolution of `--target` (given what the filesystem says about its
/// trimmed path): empty → `Invalid`; an existing file → its targets; a URL →
/// that single target; another existing path → `NotFound`; else `Invalid`.
pub open spec fn discover_spec(
    target: Seq<char>,
    probe: (int, Result<(Seq<Seq<char>>, nat), Seq<char>>),
) -> Result<Seq<Seq<char>>, (int, Seq<char>, Seq<char>)> {
    let t = trim_spec(target);
    if t.len() == 0 {
        Err((3, target, Seq::empty()))
    } else if probe.0 == 0 {
        from_file_spec(t, probe.1)
    } else if is_url_spec(t) {
        Ok(seq![t])
    } else if probe.0 == 1 {
        Err((0, t, Seq::empty()))
    } else {
        Err((3, t, Seq::empty()))
    }
}

/// Resolve `--target` to a list of base URLs.
///
/// - Existing **file**: one URL per line (`#` comments and blank lines ignored)
/// - **URL** (`http://` / `https://`): single target
///
/// `probe` is what the filesystem reports for `target_path_candidate(target)`.
pub fn discover_targets(target: &str, probe: &TargetPath) -> (r: Result<Vec<String>, TargetError>)
    ensures
        match r {
            Ok(v) => discover_spec(target@, probe_view(*probe)) == Ok::<Seq<Seq<char>>, (int, Seq<char>, Seq<char>)>(views(v@)),
            Err(e) => discover_spec(target@, probe_view(*probe)) == Err::<Seq<Seq<char>>, (int, Seq<char>, Seq<char>)>(target_error_view(e)),
        },
{
    let trimmed = trim(target);
    if trimmed.as_str().unicode_len() == 0 {
        return Err(TargetError::Invalid(copy_str(target)));
    }
    if let TargetPath::File(read) = probe {
        return targets_from_file(trimmed.as_str(), read);
    }
    if is_url(trimmed.as_str()) {
        let mut v: Vec<String> = Vec::new();
        v.push(trimmed);
        assert(views(v@) =~= seq![trim_spec(target@)]);
        return Ok(v);
    }
    match probe {
        TargetPath::Other => Err(TargetError::NotFound(trimmed)),
        _ => Err(TargetError::Invalid(trimmed)),
    }
}

} // verus!

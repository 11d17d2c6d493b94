//! Unix path arithmetic on strings: joining, the final component, its
//! extension, and replacing that extension (`Path::join`, `Path::file_name`,
//! `Path::extension`, `Path::with_extension`).

use vstd::prelude::*;

use crate::text::{chars_of, string_of};

verus! {

#[verifier::opaque]
/// Start of the segment that ends at `end`: just after the nearest `/`
/// before `end`, or 0.
pub open spec fn segment_start(p: Seq<char>, end: int) -> int
    decreases end,
{
    if end <= 0 {
        0
    } else if p[end - 1] == '/' {
        end
    } else {
        segment_start(p, end - 1)
    }
}

#[verifier::opaque]
/// Bounds of the last component of `p[..end]`: trailing separators and
/// non-leading `.` segments do not count as components.
pub open spec fn last_segment(p: Seq<char>, end: int) -> Option<(int, int)>
    decreases end, 1int,
{
    if end <= 0 {
        None
    } else if p[end - 1] == '/' {
        last_segment(p, end - 1)
    } else {
        let start = segment_start(p, end);
        if start > 0 && p.subrange(start, end) == seq!['.'] {
            if start < end { last_segment(p, start) } else { None }
        } else {
            Some((start, end))
        }
    }
}

/// The final component of `p` when it is a normal name (`Path::file_name`).
pub open spec fn file_name_spec(p: Seq<char>) -> Option<Seq<char>> {
    match last_segment(p, p.len() as int) {
        Some((s, e)) => {
            let seg = p.subrange(s, e);
            if seg == seq!['.'] || seg == seq!['.', '.'] {
                None
            } else {
                Some(seg)
            }
        },
        None => None,
    }
}

/// Index of the last `.` in `name`, if any.
pub open spec fn last_dot(name: Seq<char>) -> Option<int> {
    if exists|i: int| 0 <= i < name.len() && name[i] == '.' {
        Some(choose|i: int| 0 <= i < name.len() && name[i] == '.' && forall|j: int| i < j < name.len() ==> name[j] != '.')
    } else {
        None
    }
}

/// Length of the stem of a file name: everything before the last `.`,
/// unless that `.` is the first character (then the whole name).
pub open spec fn stem_len(name: Seq<char>) -> int {
    match last_dot(name) {
        Some(i) => if i == 0 { name.len() as int } else { i },
        None => name.len() as int,
    }
}

/// The extension of `p` (`Path::extension`): what follows the last `.` of the
/// file name, when that `.` is not its first character.
pub open spec fn extension_spec(p: Seq<char>) -> Option<Seq<char>> {
    match file_name_spec(p) {
        Some(name) => match last_dot(name) {
            Some(i) => if i == 0 { None } else { Some(name.subrange(i + 1, name.len() as int)) },
            None => None,
        },
        None => None,
    }
}

/// The stem of `p`'s file name (`Path::file_stem`): the name up to its last
/// `.`, or the whole name when it has no `.` past its first character.
pub open spec fn file_stem_spec(p: Seq<char>) -> Option<Seq<char>> {
    match file_name_spec(p) {
        Some(name) => Some(name.subrange(0, stem_len(name))),
        None => None,
    }
}

/// `p` with its extension replaced by `ext` (`Path::with_extension`): the path
/// is cut just after the stem of its file name and `.ext` is appended; a path
/// with no file name is returned unchanged.
pub open spec fn with_extension_spec(p: Seq<char>, ext: Seq<char>) -> Seq<char> {
    match last_segment(p, p.len() as int) {
        Some((s, e)) => {
            let seg = p.subrange(s, e);
            if seg == seq!['.'] || seg == seq!['.', '.'] {
                p
            } else if ext.len() == 0 {
                p.subrange(0, s + stem_len(seg))
            } else {
                p.subrange(0, s + stem_len(seg)) + seq!['.'] + ext
            }
        },
        None => p,
    }
}

/// `base` joined with `comp` (`Path::join` on Unix): an absolute `comp`
/// replaces `base`; otherwise a `/` separates them unless `base` is empty or
/// already ends with one.
pub open spec fn join_spec(base: Seq<char>, comp: Seq<char>) -> Seq<char> {
    if comp.len() > 0 && comp[0] == '/' {
        comp
    } else if base.len() == 0 || base.last() == '/' {
        base + comp
    } else {
        base + seq!['/'] + comp
    }
}

fn segment_start_exec(cs: &Vec<char>, end: usize) -> (s: usize)
    requires
        end <= cs.len(),
    ensures
        s == segment_start(cs@, end as int),
        s <= end,
{
    reveal(segment_start);
    let mut s = end;
    while s > 0 && cs[s - 1] != '/'
        invariant
            s <= end <= cs.len(),
            segment_start(cs@, s as int) == segment_start(cs@, end as int),
        decreases s,
    {
        s = s - 1;
    }
    s
}

fn is_single_dot(cs: &Vec<char>, s: usize, e: usize) -> (b: bool)
    requires
        s <= e <= cs.len(),
    ensures
        b == (cs@.subrange(s as int, e as int) == seq!['.']),
{
    if e - s == 1 && cs[s] == '.' {
        assert(cs@.subrange(s as int, e as int) =~= seq!['.']);
        true
    } else {
        if e - s == 1 {
            assert(cs@.subrange(s as int, e as int)[0] != '.');
        } else {
            assert(cs@.subrange(s as int, e as int).len() != 1);
        }
        false
    }
}

fn is_double_dot(cs: &Vec<char>, s: usize, e: usize) -> (b: bool)
    requires
        s <= e <= cs.len(),
    ensures
        b == (cs@.subrange(s as int, e as int) == seq!['.', '.']),
{
    if e - s == 2 && cs[s] == '.' && cs[s + 1] == '.' {
        assert(cs@.subrange(s as int, e as int) =~= seq!['.', '.']);
        true
    } else {
        if e - s == 2 {
            assert(cs@.subrange(s as int, e as int)[0] != '.' || cs@.subrange(s as int, e as int)[1] != '.');
        } else {
            assert(cs@.subrange(s as int, e as int).len() != 2);
        }
        false
    }
}

fn last_segment_exec(cs: &Vec<char>) -> (r: Option<(usize, usize)>)
    ensures
        match r {
            Some((s, e)) => last_segment(cs@, cs.len() as int) == Some((s as int, e as int)) && s <= e <= cs.len(),
            None => last_segment(cs@, cs.len() as int) is None,
        },
{
    reveal(last_segment);
    let mut end = cs.len();
    loop
        invariant
            end <= cs.len(),
            last_segment(cs@, end as int) == last_segment(cs@, cs.len() as int),
        decreases end,
    {
        if end == 0 {
            return None;
        }
        if cs[end - 1] == '/' {
            end = end - 1;
        } else {
            let s = segment_start_exec(cs, end);
            if s > 0 && is_single_dot(cs, s, end) {
                assert(cs@.subrange(s as int, end as int).len() == 1);
                end = s;
            } else {
                return Some((s, end));
            }
        }
    }
}

fn last_dot_exec(cs: &Vec<char>, s: usize, e: usize) -> (r: Option<usize>)
    requires
        s <= e <= cs.len(),
    ensures
        match r {
            Some(i) => s <= i < e && last_dot(cs@.subrange(s as int, e as int)) == Some(i - s),
            None => last_dot(cs@.subrange(s as int, e as int)) is None,
        },
{
    let ghost name = cs@.subrange(s as int, e as int);
    let mut i = e;
    while i > s
        invariant
            s <= i <= e <= cs.len(),
            name == cs@.subrange(s as int, e as int),
            forall|j: int| i <= j < e ==> cs@[j] != '.',
        decreases i,
    {
        if cs[i - 1] == '.' {
            proof {
                let k = choose|k: int| 0 <= k < name.len() && name[k] == '.' && forall|j: int| k < j < name.len() ==> name[j] != '.';
                assert(name[i - 1 - s] == '.');
                assert(k == i - 1 - s) by {
                    if k < i - 1 - s {
                        assert(name[i - 1 - s] != '.');
                    }
                    if k > i - 1 - s {
                        assert(name[k] == cs@[k + s]);
                    }
                }
            }
            return Some(i - 1);
        }
        i = i - 1;
    }
    proof {
        assert forall|k: int| 0 <= k < name.len() implies name[k] != '.' by {
            assert(name[k] == cs@[k + s]);
        }
    }
    None
}

/// `Path::file_name`: the final component when it is a normal name.
pub fn file_name(p: &str) -> (r: Option<String>)
    ensures
        match r {
            Some(n) => file_name_spec(p@) == Some(n@),
            None => file_name_spec(p@) is None,
        },
{
    let cs = chars_of(p);
    match last_segment_exec(&cs) {
        Some((s, e)) => {
            if is_single_dot(&cs, s, e) || is_double_dot(&cs, s, e) {
                None
            } else {
                Some(string_of(slice_of(&cs, s, e).as_slice()))
            }
        },
        None => None,
    }
}

/// `cs[s..e]` as a new vector.
pub fn slice_of(cs: &Vec<char>, s: usize, e: usize) -> (r: Vec<char>)
    requires
        s <= e <= cs.len(),
    ensures
        r@ == cs@.subrange(s as int, e as int),
{
    let mut r: Vec<char> = Vec::new();
    let mut i = s;
    while i < e
        invariant
            s <= i <= e <= cs.len(),
            r@ == cs@.subrange(s as int, i as int),
        decreases e - i,
    {
        r.push(cs[i]);
        assert(r@ =~= cs@.subrange(s as int, i + 1));
        i = i + 1;
    }
    r
}

/// `Path::extension`.
#[verifier::spinoff_prover]
#[verifier::rlimit(40)]
pub fn extension(p: &str) -> (r: Option<String>)
    ensures
        match r {
            Some(x) => extension_spec(p@) == Some(x@),
            None => extension_spec(p@) is None,
        },
{
    let cs = chars_of(p);
    match last_segment_exec(&cs) {
        Some((s, e)) => {
            if is_single_dot(&cs, s, e) || is_double_dot(&cs, s, e) {
                None
            } else {
                match last_dot_exec(&cs, s, e) {
                    Some(i) => {
                        if i == s {
                            None
                        } else {
                            let r = slice_of(&cs, i + 1, e);
                            assert(r@ =~= cs@.subrange(s as int, e as int).subrange(i - s + 1, e - s));
                            Some(string_of(r.as_slice()))
                        }
                    },
                    None => None,
                }
            }
        },
        None => None,
    }
}

/// `Path::file_stem`.
#[verifier::spinoff_prover]
#[verifier::rlimit(40)]
pub fn file_stem(p: &str) -> (r: Option<String>)
    ensures
        match r {
            Some(x) => file_stem_spec(p@) == Some(x@),
            None => file_stem_spec(p@) is None,
        },
{
    let cs = chars_of(p);
    match last_segment_exec(&cs) {
        Some((s, e)) => {
            if is_single_dot(&cs, s, e) || is_double_dot(&cs, s, e) {
                None
            } else {
                let cut = match last_dot_exec(&cs, s, e) {
                    Some(i) => if i == s { e } else { i },
                    None => e,
                };
                let r = slice_of(&cs, s, cut);
                assert(r@ =~= cs@.subrange(s as int, e as int).subrange(0, cut - s));
                Some(string_of(r.as_slice()))
            }
        },
        None => None,
    }
}

/// `Path::with_extension`.
pub fn with_extension(p: &str, ext: &str) -> (r: String)
    ensures
        r@ == with_extension_spec(p@, ext@),
{
    let cs = chars_of(p);
    let xs = chars_of(ext);
    match last_segment_exec(&cs) {
        Some((s, e)) => {
            if is_single_dot(&cs, s, e) || is_double_dot(&cs, s, e) {
                return string_of(cs.as_slice());
            }
            let cut = match last_dot_exec(&cs, s, e) {
                Some(i) => if i == s { e } else { i },
                None => e,
            };
            let mut out = slice_of(&cs, 0, cut);
            if xs.len() > 0 {
                out.push('.');
                let mut k: usize = 0;
                let ghost base = out@;
                while k < xs.len()
                    invariant
                        k <= xs.len(),
                        out@ == base + xs@.take(k as int),
                    decreases xs.len() - k,
                {
                    out.push(xs[k]);
                    assert(xs@.take(k + 1) =~= xs@.take(k as int).push(xs@[k as int]));
                    assert(out@ =~= base + xs@.take(k + 1));
                    k = k + 1;
                }
                assert(xs@.take(xs.len() as int) =~= xs@);
                assert(out@ =~= cs@.subrange(0, cut as int) + seq!['.'] + xs@);
            }
            string_of(out.as_slice())
        },
        None => string_of(cs.as_slice()),
    }
}

/// `Path::join` on Unix paths.
pub fn join(base: &str, comp: &str) -> (r: String)
    ensures
        r@ == join_spec(base@, comp@),
{
    let bs = chars_of(base);
    let cs = chars_of(comp);
    if cs.len() > 0 && cs[0] == '/' {
        return string_of(cs.as_slice());
    }
    let mut out = String::new();
    out.append(base);
    if !(bs.len() == 0 || bs[bs.len() - 1] == '/') {
        out.push('/');
    }
    out.append(comp);
    out
}

} // verus!

//! Lexicographic order on strings: by code point (`Ord for str`), and by
//! path components (`Ord for Path`, for paths without `.` or empty
//! components, where the separator orders before every other character).

use vstd::prelude::*;

use crate::text::chars_of;

verus! {

/// Lexicographic "strictly before" on sequences of ranks: a proper prefix
/// comes first, otherwise the first differing rank decides.
pub open spec fn lex_lt(a: Seq<int>, b: Seq<int>) -> bool
    decreases a.len(),
{
    if b.len() == 0 {
        false
    } else if a.len() == 0 {
        true
    } else if a[0] != b[0] {
        a[0] < b[0]
    } else {
        lex_lt(a.drop_first(), b.drop_first())
    }
}

/// No sequence is before itself.
pub proof fn lemma_lex_irreflexive(a: Seq<int>)
    ensures
        !lex_lt(a, a),
    decreases a.len(),
{
    if a.len() > 0 {
        lemma_lex_irreflexive(a.drop_first());
    }
}

/// The order is transitive.
pub proof fn lemma_lex_transitive(a: Seq<int>, b: Seq<int>, c: Seq<int>)
    requires
        lex_lt(a, b),
        lex_lt(b, c),
    ensures
        lex_lt(a, c),
    decreases a.len(),
{
    if a.len() > 0 && b.len() > 0 && c.len() > 0 && a[0] == b[0] && b[0] == c[0] {
        lemma_lex_transitive(a.drop_first(), b.drop_first(), c.drop_first());
    }
}

/// Of two different sequences, one is before the other.
pub proof fn lemma_lex_total(a: Seq<int>, b: Seq<int>)
    ensures
        a != b ==> lex_lt(a, b) || lex_lt(b, a),
    decreases a.len(),
{
    if a.len() > 0 && b.len() > 0 && a[0] == b[0] {
        lemma_lex_total(a.drop_first(), b.drop_first());
        if a.drop_first() == b.drop_first() {
            assert(a =~= seq![a[0]] + a.drop_first());
            assert(b =~= seq![b[0]] + b.drop_first());
        }
    } else if a.len() == 0 && b.len() == 0 {
        assert(a =~= b);
    }
}

/// Of two sequences, at most one is before the other.
pub proof fn lemma_lex_asymmetric(a: Seq<int>, b: Seq<int>)
    ensures
        lex_lt(a, b) ==> !lex_lt(b, a),
{
    if lex_lt(a, b) && lex_lt(b, a) {
        lemma_lex_transitive(a, b, a);
        lemma_lex_irreflexive(a);
    }
}

/// Code points of `s`.
pub open spec fn char_ranks(s: Seq<char>) -> Seq<int> {
    s.map_values(|c: char| (c as u32) as int)
}

/// Ranks under which `/` precedes every other character.
pub open spec fn path_ranks(s: Seq<char>) -> Seq<int> {
    s.map_values(|c: char| if c == '/' { -1int } else { (c as u32) as int })
}

/// `a < b` for strings (`Ord for str`: byte order, which for UTF-8 is code
/// point order).
pub open spec fn str_lt(a: Seq<char>, b: Seq<char>) -> bool {
    lex_lt(char_ranks(a), char_ranks(b))
}

/// `a < b` for paths, component by component.
pub open spec fn path_lt(a: Seq<char>, b: Seq<char>) -> bool {
    lex_lt(path_ranks(a), path_ranks(b))
}

fn rank_of(c: char, paths: bool) -> (r: i64)
    ensures
        paths ==> r == (if c == '/' { -1int } else { (c as u32) as int }),
        !paths ==> r == (c as u32) as int,
{
    if paths && c == '/' {
        -1
    } else {
        c as u32 as i64
    }
}

fn lex_less_chars(a: &Vec<char>, b: &Vec<char>, paths: bool) -> (r: bool)
    ensures
        paths ==> r == lex_lt(path_ranks(a@), path_ranks(b@)),
        !paths ==> r == lex_lt(char_ranks(a@), char_ranks(b@)),
{
    let ghost ra = if paths { path_ranks(a@) } else { char_ranks(a@) };
    let ghost rb = if paths { path_ranks(b@) } else { char_ranks(b@) };
    let mut i: usize = 0;
    assert(ra.skip(0) =~= ra);
    assert(rb.skip(0) =~= rb);
    while i < a.len() && i < b.len()
        invariant
            i <= a.len(),
            i <= b.len(),
            ra.len() == a.len(),
            rb.len() == b.len(),
            ra == (if paths { path_ranks(a@) } else { char_ranks(a@) }),
            rb == (if paths { path_ranks(b@) } else { char_ranks(b@) }),
            lex_lt(ra, rb) == lex_lt(ra.skip(i as int), rb.skip(i as int)),
        decreases a.len() - i,
    {
        let x = rank_of(a[i], paths);
        let y = rank_of(b[i], paths);
        assert(ra.skip(i as int)[0] == x);
        assert(rb.skip(i as int)[0] == y);
        if x != y {
            return x < y;
        }
        assert(ra.skip(i as int).drop_first() =~= ra.skip(i + 1));
        assert(rb.skip(i as int).drop_first() =~= rb.skip(i + 1));
        i = i + 1;
    }
    i < b.len()
}

/// `a < b` on strings.
pub fn str_less(a: &str, b: &str) -> (r: bool)
    ensures
        r == str_lt(a@, b@),
{
    let x = chars_of(a);
    let y = chars_of(b);
    lex_less_chars(&x, &y, false)
}

/// `a < b` on paths.
pub fn path_less(a: &str, b: &str) -> (r: bool)
    ensures
        r == path_lt(a@, b@),
{
    let x = chars_of(a);
    let y = chars_of(b);
    lex_less_chars(&x, &y, true)
}

} // verus!

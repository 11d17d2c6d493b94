//! What the registry commands (`login`, `logout`, `whoami`, `publish`,
//! `install`, `search`, `info`, `yank`, `unyank`, `edit`, `pat`, `admin`)
//! decide and print, and how `--script` / `--bytecode` / `--family` inputs
//! resolve to files. The requests themselves are the binary's.

use vstd::prelude::*;

use crate::args::Visibility;
use crate::discover::{discover_agrees, discover_bytecode, discover_scripts, discover_spec, path_has_extension, has_extension, PathProbe, DiscoverError};
use crate::order::{char_ranks, lemma_lex_asymmetric, lemma_lex_total, lemma_lex_transitive, str_less, str_lt};
use crate::install_store::{is_slug, is_slug_spec, parse_ref, parse_ref_spec, ref_text, ref_view, RegistryRef};
use crate::registry::{
    CreateTokenRequest, MeResponse, PatchScriptRequest, PatchScriptResponse, PublishResponse,
    RegistryError, ScriptResponse, SearchHit, SearchParams, SearchResponse, TokenCreatedResponse,
    TokenSummary, VersionSummary,
};
use crate::text::{
    unicode_lower, pad_left, pad_left_spec, pad_right, pad_right_spec, ascii_lower, bool_string, bool_text, chars_of, decimal, decimal_string, has_prefix, join,
    join_spec, opt_view, signed_decimal, signed_decimal_string, starts_with, string_of, trim,
    trim_spec, views,
};

verus! {

broadcast use vstd::string::group_string_axioms;

// ───────────────────────────── login / logout / whoami ─────────────────────────────

/// The token `login` stores for `raw` (trimmed), or why it refuses it: empty,
/// or not a `ruso_pat_` / `ruso_sess_` token.
pub open spec fn login_token_spec(raw: Seq<char>) -> Result<Seq<char>, Seq<char>> {
    let t = trim_spec(raw);
    if t.len() == 0 {
        Err("empty token"@)
    } else if !(has_prefix(t, "ruso_pat_"@) || has_prefix(t, "ruso_sess_"@)) {
        Err("token must start with `ruso_pat_` or `ruso_sess_`"@)
    } else {
        Ok(t)
    }
}

/// Check a token given to `login` (flag or stdin line).
pub fn validate_login_token(raw: &str) -> (r: Result<String, String>)
    ensures
        match r {
            Ok(t) => login_token_spec(raw@) == Ok::<Seq<char>, Seq<char>>(t@),
            Err(m) => login_token_spec(raw@) == Err::<Seq<char>, Seq<char>>(m@),
        },
{
    let t = trim(raw);
    if t.as_str().unicode_len() == 0 {
        return Err(String::from_str("empty token"));
    }
    if !(starts_with(t.as_str(), "ruso_pat_") || starts_with(t.as_str(), "ruso_sess_")) {
        return Err(String::from_str("token must start with `ruso_pat_` or `ruso_sess_`"));
    }
    Ok(t)
}

/// `logged in to <url> as <user> (stored at <path>)`.
pub fn login_message(base_url: &str, username: &str, stored_at: &str) -> (r: String)
    ensures
        r@ == "logged in to "@ + base_url@ + " as "@ + username@ + " (stored at "@ + stored_at@ + ")"@,
{
    let mut s = String::new();
    s.append("logged in to ");
    s.append(base_url);
    s.append(" as ");
    s.append(username);
    s.append(" (stored at ");
    s.append(stored_at);
    s.append(")");
    s
}

/// What `logout` prints, depending on whether a login was removed.
pub fn logout_message(base_url: &str, removed: bool) -> (r: String)
    ensures
        removed ==> r@ == "logged out of "@ + base_url@,
        !removed ==> r@ == "no credential stored for "@ + base_url@,
{
    let mut s = String::new();
    if removed {
        s.append("logged out of ");
    } else {
        s.append("no credential stored for ");
    }
    s.append(base_url);
    s
}

/// The lines `whoami` prints.
pub fn whoami_lines(me: &MeResponse, base_url: &str) -> (r: Vec<String>)
    ensures
        views(r@) == seq![
            "user:     "@ + me.username@,
            "email:    "@ + me.email@,
            "github:   "@ + me.github_login@,
            "admin:    "@ + bool_text(me.is_admin),
            "registry: "@ + base_url@,
        ],
{
    let mut out: Vec<String> = Vec::new();
    let mut a = String::from_str("user:     ");
    a.append(me.username.as_str());
    out.push(a);
    let mut b = String::from_str("email:    ");
    b.append(me.email.as_str());
    out.push(b);
    let mut c = String::from_str("github:   ");
    c.append(me.github_login.as_str());
    out.push(c);
    let mut d = String::from_str("admin:    ");
    let flag = bool_string(me.is_admin);
    d.append(flag.as_str());
    out.push(d);
    let mut e = String::from_str("registry: ");
    e.append(base_url);
    out.push(e);
    assert(views(out@) =~= seq![
        "user:     "@ + me.username@,
        "email:    "@ + me.email@,
        "github:   "@ + me.github_login@,
        "admin:    "@ + bool_text(me.is_admin),
        "registry: "@ + base_url@,
    ]);
    out
}

// ───────────────────────────── publish ─────────────────────────────

/// An ASCII letter or digit.
pub open spec fn is_ascii_alnum(c: char) -> bool {
    ('a' <= c && c <= 'z') || ('A' <= c && c <= 'Z') || ('0' <= c && c <= '9')
}

/// Each character of a human name as it enters a slug: ASCII letters and
/// digits lower-cased, everything else `-`.
pub open spec fn slug_char(c: char) -> char {
    if is_ascii_alnum(c) { ascii_lower(c) } else { '-' }
}

/// The slug built so far from `s` and whether the last character seen was
/// `-`: runs of `-` collapse to one, and none leads.
pub open spec fn collapse(s: Seq<char>) -> (Seq<char>, bool)
    decreases s.len(),
{
    if s.len() == 0 {
        (Seq::empty(), false)
    } else {
        let prev = collapse(s.drop_last());
        let c = s.last();
        if c == '-' {
            (if !prev.1 && prev.0.len() > 0 { prev.0.push('-') } else { prev.0 }, true)
        } else {
            (prev.0.push(c), false)
        }
    }
}

/// Number of trailing `-` of `s`.
pub open spec fn trailing_dashes(s: Seq<char>) -> nat
    decreases s.len(),
{
    if s.len() > 0 && s.last() == '-' {
        1 + trailing_dashes(s.drop_last())
    } else {
        0
    }
}

/// `s` without its trailing `-`.
pub open spec fn trim_dashes(s: Seq<char>) -> Seq<char> {
    s.subrange(0, s.len() - trailing_dashes(s))
}

/// The registry slug derived from a human script name, or `None` when
/// nothing is left: slug characters, collapsed, trailing `-` removed, and
/// cut to 39 characters (then trailing `-` removed again).
pub open spec fn slugify_spec(raw: Seq<char>) -> Option<Seq<char>> {
    let slug = trim_dashes(collapse(raw.map_values(|c: char| slug_char(c))).0);
    if slug.len() == 0 {
        None
    } else if slug.len() > 39 {
        Some(trim_dashes(slug.take(39)))
    } else {
        Some(slug)
    }
}

proof fn lemma_trailing_dashes_bound(s: Seq<char>)
    ensures
        trailing_dashes(s) <= s.len(),
        trailing_dashes(s) < s.len() ==> s[s.len() - trailing_dashes(s) - 1] != '-',
    decreases s.len(),
{
    if s.len() > 0 && s.last() == '-' {
        lemma_trailing_dashes_bound(s.drop_last());
    }
}

fn pop_dashes(v: &mut Vec<char>)
    ensures
        final(v)@ == trim_dashes(old(v)@),
{
    proof {
        lemma_trailing_dashes_bound(v@);
        assert(v@.subrange(0, v@.len() as int) =~= v@);
    }
    let ghost orig = v@;
    while v.len() > 0 && v[v.len() - 1] == '-'
        invariant
            v@.len() <= orig.len(),
            v@ == orig.subrange(0, v@.len() as int),
            trailing_dashes(orig) == (orig.len() - v@.len()) + trailing_dashes(v@),
        decreases v.len(),
    {
        let ghost before = v@;
        v.pop();
        assert(before.drop_last() =~= v@);
        assert(v@ =~= orig.subrange(0, v@.len() as int));
    }
    assert(trailing_dashes(v@) == 0);
}

/// Convert a human script name (`"Log4Shell CVE-2021-44228"`) into a
/// registry slug (`log4shell-cve-2021-44228`); an error when nothing of the
/// name survives.
pub fn slugify_or_err(raw: &str) -> (r: Result<String, String>)
    ensures
        match r {
            Ok(s) => slugify_spec(raw@) == Some(s@),
            Err(m) => slugify_spec(raw@) is None && m@ == "cannot derive registry slug from `"@ + raw@ + "`"@,
        },
{
    let cs = chars_of(raw);
    let ghost lowered = raw@.map_values(|c: char| slug_char(c));
    let mut slug: Vec<char> = Vec::new();
    let mut prev_dash = false;
    let mut i: usize = 0;
    while i < cs.len()
        invariant
            i <= cs.len(),
            cs@ == raw@,
            lowered == raw@.map_values(|c: char| slug_char(c)),
            (slug@, prev_dash) == collapse(lowered.take(i as int)),
        decreases cs.len() - i,
    {
        let c = cs[i];
        let lc = if ('a' <= c && c <= 'z') || ('A' <= c && c <= 'Z') || ('0' <= c && c <= '9') {
            crate::text::to_ascii_lower_char(c)
        } else {
            '-'
        };
        proof {
            assert(lowered.take(i + 1).drop_last() =~= lowered.take(i as int));
            assert(lowered.take(i + 1).last() == lc);
        }
        if lc == '-' {
            if !prev_dash && slug.len() > 0 {
                slug.push('-');
            }
            prev_dash = true;
        } else {
            slug.push(lc);
            prev_dash = false;
        }
        i = i + 1;
    }
    assert(lowered.take(cs.len() as int) =~= lowered);
    pop_dashes(&mut slug);
    if slug.len() == 0 {
        let mut m = String::from_str("cannot derive registry slug from `");
        m.append(raw);
        m.append("`");
        return Err(m);
    }
    if slug.len() > 39 {
        slug.truncate(39);
        pop_dashes(&mut slug);
    }
    Ok(string_of(slug.as_slice()))
}

/// Every character is a slug character, the first is not `-`, and no two
/// `-` are adjacent.
pub open spec fn clean_slug(s: Seq<char>) -> bool {
    &&& forall|i: int| 0 <= i < s.len() ==> crate::install_store::is_slug_char(#[trigger] s[i])
    &&& s.len() > 0 ==> s[0] != '-'
    &&& forall|i: int| 0 <= i < s.len() - 1 ==> !(#[trigger] s[i] == '-' && s[i + 1] == '-')
}

proof fn lemma_collapse_clean(s: Seq<char>)
    requires
        forall|i: int| 0 <= i < s.len() ==> crate::install_store::is_slug_char(#[trigger] s[i]),
    ensures
        clean_slug(collapse(s).0),
        collapse(s).0.len() > 0 && collapse(s).0.last() == '-' ==> collapse(s).1,
    decreases s.len(),
{
    if s.len() > 0 {
        let t = s.drop_last();
        assert forall|i: int| 0 <= i < t.len() implies crate::install_store::is_slug_char(#[trigger] t[i]) by {
            assert(t[i] == s[i]);
        }
        lemma_collapse_clean(t);
        let prev = collapse(t);
        let c = s.last();
        assert(crate::install_store::is_slug_char(s[s.len() - 1]));
        let out = collapse(s).0;
        if c == '-' {
            if !prev.1 && prev.0.len() > 0 {
                assert(prev.0.last() != '-');
                assert forall|i: int| 0 <= i < out.len() - 1 implies !(#[trigger] out[i] == '-' && out[i + 1] == '-') by {
                    if i < prev.0.len() - 1 {
                        assert(out[i] == prev.0[i] && out[i + 1] == prev.0[i + 1]);
                    }
                }
            }
        } else {
            assert forall|i: int| 0 <= i < out.len() - 1 implies !(#[trigger] out[i] == '-' && out[i + 1] == '-') by {
                if i < prev.0.len() - 1 {
                    assert(out[i] == prev.0[i] && out[i + 1] == prev.0[i + 1]);
                }
            }
        }
    }
}

proof fn lemma_prefix_clean(s: Seq<char>, n: int)
    requires
        clean_slug(s),
        0 <= n <= s.len(),
    ensures
        clean_slug(s.take(n)),
{
    let t = s.take(n);
    assert forall|i: int| 0 <= i < t.len() - 1 implies !(#[trigger] t[i] == '-' && t[i + 1] == '-') by {
        assert(t[i] == s[i] && t[i + 1] == s[i + 1]);
    }
}

/// A derived slug always satisfies the registry's slug rule (so the publish
/// is never refused for its name), ends in a letter or digit, and has no
/// adjacent `-`.
pub proof fn law_slug_is_publishable(raw: Seq<char>)
    ensures
        slugify_spec(raw) matches Some(s) ==> crate::install_store::is_slug_spec(s) && s.last() != '-' && clean_slug(s),
{
    let m = raw.map_values(|c: char| slug_char(c));
    assert forall|i: int| 0 <= i < m.len() implies crate::install_store::is_slug_char(#[trigger] m[i]) by {
        let c = raw[i];
        if 'A' <= c && c <= 'Z' {
            assert('a' <= ascii_lower(c) && ascii_lower(c) <= 'z');
        }
    }
    lemma_collapse_clean(m);
    let full = collapse(m).0;
    let slug = trim_dashes(full);
    lemma_trailing_dashes_bound(full);
    assert(slug =~= full.take(slug.len() as int));
    lemma_prefix_clean(full, slug.len() as int);
    if slug.len() > 39 {
        let cut = slug.take(39);
        lemma_prefix_clean(slug, 39);
        let out = trim_dashes(cut);
        lemma_trailing_dashes_bound(cut);
        assert(out =~= cut.take(out.len() as int));
        lemma_prefix_clean(cut, out.len() as int);
        assert(cut[0] != '-');
        if out.len() == 0 {
            assert(trailing_dashes(cut) == 39);
            assert(cut[0] == '-') by {
                lemma_all_dashes(cut);
            }
        }
    }
}

proof fn lemma_all_dashes(s: Seq<char>)
    requires
        trailing_dashes(s) == s.len(),
    ensures
        forall|i: int| 0 <= i < s.len() ==> s[i] == '-',
    decreases s.len(),
{
    if s.len() > 0 {
        lemma_trailing_dashes_bound(s.drop_last());
        lemma_all_dashes(s.drop_last());
        assert forall|i: int| 0 <= i < s.len() implies s[i] == '-' by {
            if i < s.len() - 1 {
                assert(s.drop_last()[i] == s[i]);
            }
        }
    }
}

/// The wire name of a visibility.
pub open spec fn visibility_text(v: Visibility) -> Seq<char> {
    match v {
        Visibility::Public => "public"@,
        Visibility::Private => "private"@,
    }
}

/// `public` or `private`.
pub fn visibility_str(v: Visibility) -> (r: &'static str)
    ensures
        r@ == visibility_text(v),
{
    match v {
        Visibility::Public => "public",
        Visibility::Private => "private",
    }
}

/// What `publish` prints after a successful upload.
pub fn publish_lines(resp: &PublishResponse) -> (r: Vec<String>)
    ensures
        views(r@) == if resp.tags@.len() == 0 {
            seq![publish_head(*resp)]
        } else {
            seq![publish_head(*resp), "tags:     "@ + join_spec(views(resp.tags@), ", "@)]
        },
{
    let mut out: Vec<String> = Vec::new();
    let mut s = String::from_str("published ");
    s.append(resp.namespace.as_str());
    s.append("/");
    s.append(resp.name.as_str());
    s.append("@");
    s.append(resp.version.as_str());
    s.append(" (");
    let n = signed_decimal_string(resp.size_bytes);
    s.append(n.as_str());
    s.append(" bytes, ");
    s.append(resp.visibility.as_str());
    s.append(")");
    out.push(s);
    if resp.tags.len() > 0 {
        let mut t = String::from_str("tags:     ");
        let j = join(&resp.tags, ", ");
        t.append(j.as_str());
        out.push(t);
    }
    proof {
        if resp.tags@.len() == 0 {
            assert(views(out@) =~= seq![publish_head(*resp)]);
        } else {
            assert(views(out@) =~= seq![publish_head(*resp), "tags:     "@ + join_spec(views(resp.tags@), ", "@)]);
        }
    }
    out
}

/// `published <ns>/<name>@<version> (<size> bytes, <visibility>)`.
pub open spec fn publish_head(resp: PublishResponse) -> Seq<char> {
    "published "@ + resp.namespace@ + "/"@ + resp.name@ + "@"@ + resp.version@ + " ("@
        + signed_decimal(resp.size_bytes as int) + " bytes, "@ + resp.visibility@ + ")"@
}

// ───────────────────────────── refs of info / yank / edit / admin ─────────────────────────────

/// `<ns>/<name>[@<range>]` for read-side commands.
pub fn parse_ns_name_optional_range(s: &str) -> (r: Result<(String, String, Option<String>), String>)
    ensures
        match r {
            Ok((ns, name, range)) => parse_ref_spec(s@) == Some((ns@, name@, opt_view(range))),
            Err(m) => parse_ref_spec(s@) is None
                && m@ == "`"@ + s@ + "` is not a registry ref (expected `<ns>/<name>[@<range>]`)"@,
        },
{
    match parse_ref(s) {
        Some(rf) => Ok((rf.namespace, rf.name, rf.range)),
        None => {
            let mut m = String::from_str("`");
            m.append(s);
            m.append("` is not a registry ref (expected `<ns>/<name>[@<range>]`)");
            Err(m)
        },
    }
}

/// `<ns>/<name>@<version>` for commands on one version.
pub fn parse_ns_name_version(s: &str) -> (r: Result<(String, String, String), String>)
    ensures
        match r {
            Ok((ns, name, version)) => parse_ref_spec(s@) == Some((ns@, name@, Some(version@))),
            Err(m) => match parse_ref_spec(s@) {
                None => m@ == "`"@ + s@ + "` is not a registry ref (expected `<ns>/<name>@<version>`)"@,
                Some((_, _, range)) => range is None
                    && m@ == "`"@ + s@ + "` is missing `@<version>` — yank/unyank operate on a single version"@,
            },
        },
{
    match parse_ref(s) {
        Some(rf) => match rf.range {
            Some(v) => Ok((rf.namespace, rf.name, v)),
            None => {
                let mut m = String::from_str("`");
                m.append(s);
                m.append("` is missing `@<version>` — yank/unyank operate on a single version");
                Err(m)
            },
        },
        None => {
            let mut m = String::from_str("`");
            m.append(s);
            m.append("` is not a registry ref (expected `<ns>/<name>@<version>`)");
            Err(m)
        },
    }
}

/// `yanked <ns>/<name>@<version>` or `unyanked …`.
pub fn yank_message(yanked: bool, ns: &str, name: &str, version: &str) -> (r: String)
    ensures
        r@ == (if yanked { "yanked "@ } else { "unyanked "@ }) + ns@ + "/"@ + name@ + "@"@ + version@,
{
    let mut s = if yanked { String::from_str("yanked ") } else { String::from_str("unyanked ") };
    s.append(ns);
    s.append("/");
    s.append(name);
    s.append("@");
    s.append(version);
    s
}

/// What `admin delete` deletes: one version, or the script with all its versions.
pub fn admin_delete_target(ns: &str, name: &str, version: Option<&str>) -> (r: String)
    ensures
        match version {
            Some(v) => r@ == ns@ + "/"@ + name@ + "@"@ + v@,
            None => r@ == ns@ + "/"@ + name@ + " (and ALL its versions)"@,
        },
{
    let mut s = String::new();
    s.append(ns);
    s.append("/");
    s.append(name);
    match version {
        Some(v) => {
            s.append("@");
            s.append(v);
        },
        None => {
            s.append(" (and ALL its versions)");
        },
    }
    s
}

/// `admin delete` refuses without `--yes`; the refusal's text.
pub fn admin_delete_gate(target: &str, yes: bool) -> (r: Result<(), String>)
    ensures
        yes ==> r is Ok,
        !yes ==> (r matches Err(m) && m@ == "refusing to hard-delete "@ + target@ + " without --yes (this is irreversible)"@),
{
    if yes {
        Ok(())
    } else {
        let mut m = String::from_str("refusing to hard-delete ");
        m.append(target);
        m.append(" without --yes (this is irreversible)");
        Err(m)
    }
}

/// The body of `edit`: the trimmed description and the visibility name;
/// an error when neither is given.
pub fn edit_request(description: Option<&str>, visibility: Option<Visibility>) -> (r: Result<PatchScriptRequest, String>)
    ensures
        description is None && visibility is None ==> (r matches Err(m)
            && m@ == "nothing to change — pass --description and/or --visibility"@),
        !(description is None && visibility is None) ==> (r matches Ok(b)
            && opt_view(b.description) == (match description { Some(d) => Some(trim_spec(d@)), None => None })
            && opt_view(b.visibility) == (match visibility { Some(v) => Some(visibility_text(v)), None => None })),
{
    if description.is_none() && visibility.is_none() {
        return Err(String::from_str("nothing to change — pass --description and/or --visibility"));
    }
    let d = match description {
        Some(t) => Some(trim(t)),
        None => None,
    };
    let v = match visibility {
        Some(x) => Some(String::from_str(visibility_str(x))),
        None => None,
    };
    Ok(PatchScriptRequest { description: d, visibility: v })
}

/// The description line of `edit`'s output.
pub open spec fn description_lines(d: Option<Seq<char>>) -> Seq<Seq<char>> {
    match d {
        Some(t) => if t.len() == 0 { seq!["  description: (cleared)"@] } else { seq!["  description: "@ + t] },
        None => Seq::empty(),
    }
}

/// The visibility line of `edit`'s output.
pub open spec fn visibility_lines(v: Option<Seq<char>>) -> Seq<Seq<char>> {
    match v {
        Some(t) => seq!["  visibility:  "@ + t],
        None => Seq::empty(),
    }
}

/// What `edit` prints after the update.
pub fn edit_lines(resp: &PatchScriptResponse, body: &PatchScriptRequest) -> (r: Vec<String>)
    ensures
        views(r@) == seq!["updated "@ + resp.namespace@ + "/"@ + resp.name@]
            + description_lines(opt_view(body.description)) + visibility_lines(opt_view(body.visibility)),
{
    let mut out: Vec<String> = Vec::new();
    let mut h = String::from_str("updated ");
    h.append(resp.namespace.as_str());
    h.append("/");
    h.append(resp.name.as_str());
    out.push(h);
    let ghost a = views(out@);
    match &body.description {
        Some(d) => {
            if d.as_str().unicode_len() == 0 {
                out.push(String::from_str("  description: (cleared)"));
            } else {
                let mut l = String::from_str("  description: ");
                l.append(d.as_str());
                out.push(l);
            }
        },
        None => {},
    }
    let ghost b = views(out@);
    match &body.visibility {
        Some(v) => {
            let mut l = String::from_str("  visibility:  ");
            l.append(v.as_str());
            out.push(l);
        },
        None => {},
    }
    proof {
        assert(b =~= a + description_lines(opt_view(body.description)));
        assert(views(out@) =~= b + visibility_lines(opt_view(body.visibility)));
    }
    out
}

// ───────────────────────────── install ─────────────────────────────

/// The error for an argument of `install` that is not a registry ref.
pub fn invalid_ref_message(raw: &str) -> (r: String)
    ensures
        r@ == "`"@ + raw@ + "` is not a valid registry ref (expected `<ns>/<name>[@<range>]`)"@,
{
    let mut m = String::from_str("`");
    m.append(raw);
    m.append("` is not a valid registry ref (expected `<ns>/<name>[@<range>]`)");
    m
}

/// `installed <ns>/<name> @ <version> -> <path>`.
pub fn installed_line(ns: &str, name: &str, version: &str, path: &str) -> (r: String)
    ensures
        r@ == "installed "@ + ns@ + "/"@ + name@ + " @ "@ + version@ + " -> "@ + path@,
{
    let mut s = String::from_str("installed ");
    s.append(ns);
    s.append("/");
    s.append(name);
    s.append(" @ ");
    s.append(version);
    s.append(" -> ");
    s.append(path);
    s
}

/// The error when `install --all-versions` finds nothing to install.
pub fn no_versions_message(reference: &RegistryRef) -> (r: String)
    ensures
        r@ == "no non-yanked versions of "@ + ref_text(reference.namespace@, reference.name@, opt_view(reference.range))
            + " match "@ + match reference.range { Some(t) => t@, None => "*"@ },
{
    let mut m = String::from_str("no non-yanked versions of ");
    let d = reference.display();
    m.append(d.as_str());
    m.append(" match ");
    match &reference.range {
        Some(t) => m.append(t.as_str()),
        None => m.append("*"),
    }
    m
}

/// The error for one failed install.
pub fn install_failed_message(reference: &RegistryRef, err: &str) -> (r: String)
    ensures
        r@ == "install "@ + ref_text(reference.namespace@, reference.name@, opt_view(reference.range)) + ": "@ + err@,
{
    let mut m = String::from_str("install ");
    let d = reference.display();
    m.append(d.as_str());
    m.append(": ");
    m.append(err);
    m
}

/// Exit status of a command that carries on past failures: 1 when any
/// failed.
pub fn exit_status(had_error: bool) -> (r: u8)
    ensures
        r == (if had_error { 1u8 } else { 0u8 }),
{
    if had_error { 1 } else { 0 }
}

// ───────────────────────────── search ─────────────────────────────

/// The search request of `search`.
pub fn search_params(
    query: Option<&str>,
    severity: Option<&str>,
    cve: Option<&str>,
    namespace: Option<&str>,
    family: Option<&str>,
    tags: &Vec<String>,
    page: u32,
    per_page: u32,
) -> (r: SearchParams)
    ensures
        opt_view(r.q) == crate::install_store::opt_str(query),
        opt_view(r.severity) == crate::install_store::opt_str(severity),
        opt_view(r.cve) == crate::install_store::opt_str(cve),
        opt_view(r.namespace) == crate::install_store::opt_str(namespace),
        opt_view(r.family) == crate::install_store::opt_str(family),
        views(r.tags@) == views(tags@),
        r.page == Some(page),
        r.per_page == Some(per_page),
{
    SearchParams {
        q: own(query),
        severity: own(severity),
        cve: own(cve),
        namespace: own(namespace),
        family: own(family),
        tags: crate::text::clone_strings(tags),
        page: Some(page),
        per_page: Some(per_page),
    }
}

fn own(o: Option<&str>) -> (r: Option<String>)
    ensures
        opt_view(r) == crate::install_store::opt_str(o),
{
    match o {
        Some(t) => Some(t.to_string()),
        None => None,
    }
}

/// `text`, or `-` when absent.
pub open spec fn or_dash(o: Option<Seq<char>>) -> Seq<char> {
    match o {
        Some(t) => t,
        None => "-"@,
    }
}

fn or_dash_string(o: &Option<String>) -> (r: String)
    ensures
        r@ == or_dash(opt_view(*o)),
{
    match o {
        Some(t) => t.clone(),
        None => String::from_str("-"),
    }
}

/// The header row of the search table.
pub open spec fn search_header() -> Seq<char> {
    pad_right_spec("SCRIPT"@, 40) + " "@ + pad_right_spec("VIS"@, 10) + " "@ + pad_right_spec("SEVERITY"@, 10) + " "@
        + pad_right_spec("FAMILY"@, 10) + " TAGS"@
}

/// The tags cell: comma-joined, or `-`.
pub open spec fn tags_cell(tags: Seq<Seq<char>>) -> Seq<char> {
    if tags.len() == 0 { "-"@ } else { join_spec(tags, ","@) }
}

/// One row of the search table.
pub open spec fn hit_line(h: SearchHit) -> Seq<char> {
    pad_right_spec(h.namespace@ + "/"@ + h.name@, 40) + " "@ + pad_right_spec(h.visibility@, 10) + " "@
        + pad_right_spec(or_dash(opt_view(h.severity)), 10) + " "@ + pad_right_spec(or_dash(opt_view(h.family)), 10)
        + " "@ + tags_cell(views(h.tags@))
}

/// `ceil(a / b)` for `b > 0`.
pub open spec fn ceil_div(a: int, b: int) -> int {
    (a + b - 1) / b
}

/// The last page number: `max(total as u32, 1)` results over
/// `max(per_page, 1)` per page, rounded up.
pub open spec fn last_page(total: i64, per_page: u32) -> int {
    let t = total as u32;
    ceil_div(if t < 1 { 1 } else { t as int }, if per_page < 1 { 1 } else { per_page as int })
}

/// The search results as printed: a note when there are none; otherwise
/// the header, one row per hit, and the page footer.
pub open spec fn search_table_spec(resp: SearchResponse) -> Seq<Seq<char>> {
    if resp.results@.len() == 0 {
        seq!["no matches (page "@ + decimal(resp.page as nat) + " of total "@ + signed_decimal(resp.total as int) + ")"@]
    } else {
        seq![search_header()] + resp.results@.map_values(|h: SearchHit| hit_line(h))
            + seq!["\npage "@ + decimal(resp.page as nat) + " of "@ + decimal(last_page(resp.total, resp.per_page) as nat)
            + " ("@ + signed_decimal(resp.total as int) + " results)"@]
    }
}

fn tags_cell_string(tags: &Vec<String>) -> (r: String)
    ensures
        r@ == tags_cell(views(tags@)),
{
    if tags.len() == 0 {
        String::from_str("-")
    } else {
        join(tags, ",")
    }
}

fn hit_line_string(h: &SearchHit) -> (r: String)
    ensures
        r@ == hit_line(*h),
{
    let mut id = String::new();
    id.append(h.namespace.as_str());
    id.append("/");
    id.append(h.name.as_str());
    let mut s = pad_right(id.as_str(), 40);
    s.append(" ");
    let v = pad_right(h.visibility.as_str(), 10);
    s.append(v.as_str());
    s.append(" ");
    let sev = or_dash_string(&h.severity);
    let sevp = pad_right(sev.as_str(), 10);
    s.append(sevp.as_str());
    s.append(" ");
    let fam = or_dash_string(&h.family);
    let famp = pad_right(fam.as_str(), 10);
    s.append(famp.as_str());
    s.append(" ");
    let t = tags_cell_string(&h.tags);
    s.append(t.as_str());
    s
}

/// The lines `search` prints for a page of results.
pub fn search_table_lines(resp: &SearchResponse) -> (r: Vec<String>)
    ensures
        views(r@) == search_table_spec(*resp),
{
    let mut out: Vec<String> = Vec::new();
    if resp.results.len() == 0 {
        let mut s = String::from_str("no matches (page ");
        let p = decimal_string(resp.page as u64);
        s.append(p.as_str());
        s.append(" of total ");
        let t = signed_decimal_string(resp.total);
        s.append(t.as_str());
        s.append(")");
        out.push(s);
        assert(views(out@) =~= search_table_spec(*resp));
        return out;
    }
    let mut h = pad_right("SCRIPT", 40);
    h.append(" ");
    let c2 = pad_right("VIS", 10);
    h.append(c2.as_str());
    h.append(" ");
    let c3 = pad_right("SEVERITY", 10);
    h.append(c3.as_str());
    h.append(" ");
    let c4 = pad_right("FAMILY", 10);
    h.append(c4.as_str());
    h.append(" TAGS");
    out.push(h);
    let mut i: usize = 0;
    while i < resp.results.len()
        invariant
            i <= resp.results.len(),
            views(out@) == seq![search_header()] + resp.results@.take(i as int).map_values(|x: SearchHit| hit_line(x)),
        decreases resp.results.len() - i,
    {
        let l = hit_line_string(&resp.results[i]);
        let ghost before = views(out@);
        out.push(l);
        assert(resp.results@.take(i + 1).map_values(|x: SearchHit| hit_line(x))
            =~= resp.results@.take(i as int).map_values(|x: SearchHit| hit_line(x)).push(hit_line(resp.results@[i as int])));
        assert(views(out@) =~= before.push(hit_line(resp.results@[i as int])));
        i = i + 1;
    }
    assert(resp.results@.take(resp.results.len() as int) =~= resp.results@);
    let t: u32 = resp.total as u32;
    let a: u64 = if t < 1 { 1 } else { t as u64 };
    let b: u64 = if resp.per_page < 1 { 1 } else { resp.per_page as u64 };
    let last: u64 = (a + b - 1) / b;
    let mut f = String::from_str("\npage ");
    let p = decimal_string(resp.page as u64);
    f.append(p.as_str());
    f.append(" of ");
    let l = decimal_string(last);
    f.append(l.as_str());
    f.append(" (");
    let tt = signed_decimal_string(resp.total);
    f.append(tt.as_str());
    f.append(" results)");
    let ghost before = views(out@);
    out.push(f);
    assert(views(out@) =~= before.push(f@));
    out
}

// ───────────────────────────── info ─────────────────────────────

/// The first non-yanked version, the one `info` calls latest.
pub open spec fn latest_version(vs: Seq<VersionSummary>) -> Option<VersionSummary>
    decreases vs.len(),
{
    if vs.len() == 0 {
        None
    } else if vs[0].yanked_at is None {
        Some(vs[0])
    } else {
        latest_version(vs.drop_first())
    }
}

/// Law: the version `info` shows as latest is the first one in the
/// registry's newest-first list that is not yanked: every version listed
/// before it is yanked. There is none exactly when every version is yanked.
pub proof fn law_latest_is_first_live(vs: Seq<VersionSummary>)
    ensures
        latest_version(vs) matches Some(v) ==> exists|k: int|
            0 <= k < vs.len() && #[trigger] vs[k] == v && v.yanked_at is None
                && forall|j: int| 0 <= j < k ==> (#[trigger] vs[j]).yanked_at is Some,
        latest_version(vs) is None <==> forall|k: int| 0 <= k < vs.len() ==> (#[trigger] vs[k]).yanked_at is Some,
    decreases vs.len(),
{
    if vs.len() > 0 {
        let t = vs.drop_first();
        law_latest_is_first_live(t);
        if vs[0].yanked_at is None {
            assert(vs[0] == vs[0]);
        } else {
            if let Some(v) = latest_version(t) {
                let k = choose|k: int| 0 <= k < t.len() && #[trigger] t[k] == v && v.yanked_at is None
                    && forall|j: int| 0 <= j < k ==> (#[trigger] t[j]).yanked_at is Some;
                assert(vs[k + 1] == v);
                assert forall|j: int| 0 <= j < k + 1 implies (#[trigger] vs[j]).yanked_at is Some by {
                    if j > 0 {
                        assert(vs[j] == t[j - 1]);
                    }
                }
            } else {
                assert forall|k: int| 0 <= k < vs.len() implies (#[trigger] vs[k]).yanked_at is Some by {
                    if k > 0 {
                        assert(vs[k] == t[k - 1]);
                    }
                }
            }
            if forall|k: int| 0 <= k < vs.len() ==> (#[trigger] vs[k]).yanked_at is Some {
                assert forall|k: int| 0 <= k < t.len() implies (#[trigger] t[k]).yanked_at is Some by {
                    assert(t[k] == vs[k + 1]);
                }
            }
        }
    }
}

/// One row of `info`'s version list.
pub open spec fn version_line(v: VersionSummary) -> Seq<char> {
    "    "@ + pad_right_spec(v.version@, 14) + " "@ + pad_left_spec(signed_decimal(v.download_count as int), 10)
        + " downloads  "@ + signed_decimal(v.size_bytes as int) + " bytes"@
        + (if v.yanked_at is Some { " yanked"@ } else { ""@ })
}

/// `info`'s human-readable description of a script: name, visibility,
/// family, description and tags (when present and non-empty), the latest
/// non-yanked version with how to install and scan it, and every version.
pub open spec fn info_spec(s: ScriptResponse) -> Seq<Seq<char>> {
    seq![s.namespace@ + "/"@ + s.name@, "  visibility: "@ + s.visibility@]
        + labelled_line("  family: "@, opt_view(s.family))
        + labelled_line("  description: "@, opt_view(s.description))
        + (if s.tags@.len() > 0 { seq!["  tags: "@ + join_spec(views(s.tags@), ", "@)] } else { Seq::empty() })
        + latest_lines(s.namespace@, s.name@, latest_version(s.versions@))
        + seq![""@, "  versions ("@ + decimal(s.versions@.len()) + "):"@]
        + s.versions@.map_values(|v: VersionSummary| version_line(v))
}

/// `label` followed by the value, when it is present and non-empty.
pub open spec fn labelled_line(label: Seq<char>, v: Option<Seq<char>>) -> Seq<Seq<char>> {
    match v {
        Some(t) => if t.len() > 0 { seq![label + t] } else { Seq::empty() },
        None => Seq::empty(),
    }
}

/// The latest version and how to install and scan it.
pub open spec fn latest_lines(ns: Seq<char>, name: Seq<char>, latest: Option<VersionSummary>) -> Seq<Seq<char>> {
    match latest {
        Some(v) => seq![
            "  latest: "@ + v.version@ + " ("@ + signed_decimal(v.download_count as int) + " downloads)"@,
            ""@,
            "  install:"@,
            "    ruso install "@ + ns + "/"@ + name,
            "    ruso scan --script "@ + ns + "/"@ + name + " --target https://example.com"@,
        ],
        None => Seq::empty(),
    }
}

fn version_line_string(v: &VersionSummary) -> (r: String)
    ensures
        r@ == version_line(*v),
{
    let mut s = String::from_str("    ");
    let a = pad_right(v.version.as_str(), 14);
    s.append(a.as_str());
    s.append(" ");
    let d = signed_decimal_string(v.download_count);
    let b = pad_left(d.as_str(), 10);
    s.append(b.as_str());
    s.append(" downloads  ");
    let z = signed_decimal_string(v.size_bytes);
    s.append(z.as_str());
    s.append(" bytes");
    if v.yanked_at.is_some() {
        s.append(" yanked");
    } else {
        s.append("");
    }
    s
}

fn push_all(out: &mut Vec<String>, more: Vec<String>)
    ensures
        views(final(out)@) == views(old(out)@) + views(more@),
{
    let mut i: usize = 0;
    let ghost start = views(out@);
    while i < more.len()
        invariant
            i <= more.len(),
            views(out@) == start + views(more@).take(i as int),
        decreases more.len() - i,
    {
        let ghost before = out@;
        out.push(more[i].clone());
        assert(views(out@) =~= views(before).push(more@[i as int]@));
        assert(views(more@).take(i + 1) =~= views(more@).take(i as int).push(more@[i as int]@));
        assert(views(out@) =~= start + views(more@).take(i + 1));
        i = i + 1;
    }
    assert(views(more@).take(more.len() as int) =~= views(more@));
}

fn latest_of(vs: &Vec<VersionSummary>) -> (r: Option<usize>)
    ensures
        match r {
            Some(i) => i < vs.len() && latest_version(vs@) == Some(vs@[i as int]),
            None => latest_version(vs@) is None,
        },
{
    let mut i: usize = 0;
    assert(vs@.subrange(0, vs@.len() as int) =~= vs@);
    while i < vs.len()
        invariant
            i <= vs.len(),
            latest_version(vs@.subrange(i as int, vs@.len() as int)) == latest_version(vs@),
        decreases vs.len() - i,
    {
        let ghost tail = vs@.subrange(i as int, vs@.len() as int);
        assert(tail[0] == vs@[i as int]);
        if vs[i].yanked_at.is_none() {
            return Some(i);
        }
        assert(tail.drop_first() =~= vs@.subrange(i + 1, vs@.len() as int));
        i = i + 1;
    }
    None
}

/// The lines `info` prints for a script.
pub fn info_lines(s: &ScriptResponse) -> (r: Vec<String>)
    ensures
        views(r@) == info_spec(*s),
{
    let mut out: Vec<String> = Vec::new();
    let mut id = String::new();
    id.append(s.namespace.as_str());
    id.append("/");
    id.append(s.name.as_str());
    out.push(id);
    let mut vis = String::from_str("  visibility: ");
    vis.append(s.visibility.as_str());
    out.push(vis);
    let ghost p0 = views(out@);
    match &s.family {
        Some(f) => {
            if f.as_str().unicode_len() > 0 {
                let mut l = String::from_str("  family: ");
                l.append(f.as_str());
                out.push(l);
            }
        },
        None => {},
    }
    let ghost p1 = views(out@);
    match &s.description {
        Some(d) => {
            if d.as_str().unicode_len() > 0 {
                let mut l = String::from_str("  description: ");
                l.append(d.as_str());
                out.push(l);
            }
        },
        None => {},
    }
    let ghost p2 = views(out@);
    if s.tags.len() > 0 {
        let mut l = String::from_str("  tags: ");
        let j = join(&s.tags, ", ");
        l.append(j.as_str());
        out.push(l);
    }
    let ghost p3 = views(out@);
    match latest_of(&s.versions) {
        Some(k) => {
            let v = &s.versions[k];
            let mut a = String::from_str("  latest: ");
            a.append(v.version.as_str());
            a.append(" (");
            let dc = signed_decimal_string(v.download_count);
            a.append(dc.as_str());
            a.append(" downloads)");
            out.push(a);
            out.push(String::from_str(""));
            out.push(String::from_str("  install:"));
            let mut b = String::from_str("    ruso install ");
            b.append(s.namespace.as_str());
            b.append("/");
            b.append(s.name.as_str());
            out.push(b);
            let mut c = String::from_str("    ruso scan --script ");
            c.append(s.namespace.as_str());
            c.append("/");
            c.append(s.name.as_str());
            c.append(" --target https://example.com");
            out.push(c);
        },
        None => {},
    }
    let ghost p4 = views(out@);
    out.push(String::from_str(""));
    let mut h = String::from_str("  versions (");
    let n = decimal_string(s.versions.len() as u64);
    h.append(n.as_str());
    h.append("):");
    out.push(h);
    let ghost p5 = views(out@);
    let mut rows: Vec<String> = Vec::new();
    let mut i: usize = 0;
    while i < s.versions.len()
        invariant
            i <= s.versions.len(),
            views(rows@) == s.versions@.take(i as int).map_values(|v: VersionSummary| version_line(v)),
        decreases s.versions.len() - i,
    {
        let l = version_line_string(&s.versions[i]);
        let ghost before = views(rows@);
        rows.push(l);
        assert(s.versions@.take(i + 1).map_values(|v: VersionSummary| version_line(v))
            =~= s.versions@.take(i as int).map_values(|v: VersionSummary| version_line(v)).push(version_line(s.versions@[i as int])));
        assert(views(rows@) =~= before.push(version_line(s.versions@[i as int])));
        i = i + 1;
    }
    assert(s.versions@.take(s.versions.len() as int) =~= s.versions@);
    push_all(&mut out, rows);
    proof {
        let tags = if s.tags@.len() > 0 { seq!["  tags: "@ + join_spec(views(s.tags@), ", "@)] } else { Seq::<Seq<char>>::empty() };
        assert(p0 =~= seq![s.namespace@ + "/"@ + s.name@, "  visibility: "@ + s.visibility@]);
        assert(p1 =~= p0 + labelled_line("  family: "@, opt_view(s.family)));
        assert(p2 =~= p1 + labelled_line("  description: "@, opt_view(s.description)));
        assert(p3 =~= p2 + tags);
        assert(p4 =~= p3 + latest_lines(s.namespace@, s.name@, latest_version(s.versions@)));
        assert(p5 =~= p4 + seq![""@, "  versions ("@ + decimal(s.versions@.len()) + "):"@]);
        assert(views(out@) =~= info_spec(*s));
    }
    out
}

// ───────────────────────────── pat ─────────────────────────────

/// The name of a new token (trimmed), or the refusal of an empty one.
pub fn pat_name(raw: &str) -> (r: Result<String, String>)
    ensures
        trim_spec(raw@).len() > 0 ==> (r matches Ok(n) && n@ == trim_spec(raw@)),
        trim_spec(raw@).len() == 0 ==> (r matches Err(m) && m@ == "token name must not be empty"@),
{
    let t = trim(raw);
    if t.as_str().unicode_len() == 0 {
        Err(String::from_str("token name must not be empty"))
    } else {
        Ok(t)
    }
}

/// A scope a token may carry.
pub open spec fn allowed_scope(s: Seq<char>) -> bool {
    s == "read"@ || s == "publish"@ || s == "yank"@
}

/// A requested scope as compared: trimmed and lower-cased.
pub open spec fn scope_key(s: Seq<char>) -> Seq<char> {
    unicode_lower(trim_spec(s))
}

/// The refusal of an unknown scope.
pub open spec fn unknown_scope_message(s: Seq<char>) -> Seq<char> {
    "unknown scope `"@ + s + "` (allowed: read, publish, yank)"@
}

/// The scopes requested by `ss`, normalised and each kept once in first-seen
/// order; the first unknown one refuses the request.
pub open spec fn scopes_spec(ss: Seq<Seq<char>>) -> Result<Seq<Seq<char>>, Seq<char>>
    decreases ss.len(),
{
    if ss.len() == 0 {
        Ok(Seq::empty())
    } else {
        match scopes_spec(ss.drop_last()) {
            Err(m) => Err(m),
            Ok(acc) => {
                let t = scope_key(ss.last());
                if !allowed_scope(t) {
                    Err(unknown_scope_message(t))
                } else if acc.contains(t) {
                    Ok(acc)
                } else {
                    Ok(acc.push(t))
                }
            },
        }
    }
}

/// The scopes of a new token: `read` when none is requested.
pub open spec fn requested_scopes(ss: Seq<Seq<char>>) -> Result<Seq<Seq<char>>, Seq<char>> {
    if ss.len() == 0 { Ok(seq!["read"@]) } else { scopes_spec(ss) }
}

fn is_allowed_scope(s: &str) -> (r: bool)
    ensures
        r == allowed_scope(s@),
{
    crate::text::str_eq(s, "read") || crate::text::str_eq(s, "publish") || crate::text::str_eq(s, "yank")
}

fn contains_string(v: &Vec<String>, s: &str) -> (r: bool)
    ensures
        r == views(v@).contains(s@),
{
    let mut i: usize = 0;
    while i < v.len()
        invariant
            i <= v.len(),
            forall|j: int| 0 <= j < i ==> (#[trigger] v@[j])@ != s@,
        decreases v.len() - i,
    {
        if crate::text::str_eq(v[i].as_str(), s) {
            assert(views(v@)[i as int] == s@);
            return true;
        }
        i = i + 1;
    }
    proof {
        assert forall|j: int| 0 <= j < views(v@).len() implies views(v@)[j] != s@ by {
            assert(views(v@)[j] == v@[j]@);
        }
    }
    false
}

/// The scopes of `pat create --scope …`: each trimmed and lower-cased, kept
/// once in first-seen order, `read` when none is given; an unknown scope is
/// refused.
pub fn normalize_scopes(scopes: &Vec<String>) -> (r: Result<Vec<String>, String>)
    ensures
        match r {
            Ok(v) => requested_scopes(views(scopes@)) == Ok::<Seq<Seq<char>>, Seq<char>>(views(v@)),
            Err(m) => requested_scopes(views(scopes@)) == Err::<Seq<Seq<char>>, Seq<char>>(m@),
        },
{
    if scopes.len() == 0 {
        let mut v: Vec<String> = Vec::new();
        v.push(String::from_str("read"));
        assert(views(v@) =~= seq!["read"@]);
        return Ok(v);
    }
    let ghost ss = views(scopes@);
    let mut out: Vec<String> = Vec::new();
    let mut i: usize = 0;
    assert(ss.take(0) =~= Seq::<Seq<char>>::empty());
    assert(views(out@) =~= Seq::<Seq<char>>::empty());
    while i < scopes.len()
        invariant
            i <= scopes.len(),
            ss == views(scopes@),
            scopes_spec(ss.take(i as int)) == Ok::<Seq<Seq<char>>, Seq<char>>(views(out@)),
        decreases scopes.len() - i,
    {
        proof {
            assert(ss.take(i + 1).drop_last() =~= ss.take(i as int));
            assert(ss.take(i + 1).last() == scopes@[i as int]@);
        }
        let t0 = trim(scopes[i].as_str());
        let t = crate::text::to_lowercase(t0.as_str());
        if !is_allowed_scope(t.as_str()) {
            let mut m = String::from_str("unknown scope `");
            m.append(t.as_str());
            m.append("` (allowed: read, publish, yank)");
            proof {
                lemma_scopes_error_sticks(ss, i as int + 1);
            }
            return Err(m);
        }
        if !contains_string(&out, t.as_str()) {
            let ghost before = views(out@);
            out.push(t);
            assert(views(out@) =~= before.push(scope_key(scopes@[i as int]@)));
        }
        i = i + 1;
    }
    assert(ss.take(scopes.len() as int) =~= ss);
    Ok(out)
}

proof fn lemma_scopes_error_sticks(ss: Seq<Seq<char>>, k: int)
    requires
        0 <= k <= ss.len(),
        scopes_spec(ss.take(k)) is Err,
    ensures
        scopes_spec(ss) == scopes_spec(ss.take(k)),
    decreases ss.len() - k,
{
    if k < ss.len() {
        assert(ss.take(k + 1).drop_last() =~= ss.take(k));
        lemma_scopes_error_sticks(ss, k + 1);
    } else {
        assert(ss.take(k) =~= ss);
    }
}

/// A token's scopes never repeat and are all allowed ones.
pub proof fn law_scopes_distinct_and_allowed(ss: Seq<Seq<char>>)
    ensures
        requested_scopes(ss) matches Ok(v) ==> v.no_duplicates() && forall|i: int| 0 <= i < v.len() ==> allowed_scope(#[trigger] v[i]),
    decreases ss.len(),
{
    if ss.len() == 0 {
        assert(seq!["read"@].no_duplicates());
    } else {
        lemma_scopes_spec_ok(ss);
    }
}

proof fn lemma_scopes_spec_ok(ss: Seq<Seq<char>>)
    ensures
        scopes_spec(ss) matches Ok(v) ==> v.no_duplicates() && forall|i: int| 0 <= i < v.len() ==> allowed_scope(#[trigger] v[i]),
    decreases ss.len(),
{
    if ss.len() > 0 {
        lemma_scopes_spec_ok(ss.drop_last());
        if let Ok(acc) = scopes_spec(ss.drop_last()) {
            let t = scope_key(ss.last());
            if allowed_scope(t) && !acc.contains(t) {
                let v = acc.push(t);
                assert forall|a: int, b: int| 0 <= a < v.len() && 0 <= b < v.len() && a != b implies v[a] != v[b] by {
                    if a == acc.len() as int {
                        assert(acc.contains(v[b]));
                    } else if b == acc.len() as int {
                        assert(acc.contains(v[a]));
                    }
                }
                assert forall|i: int| 0 <= i < v.len() implies allowed_scope(#[trigger] v[i]) by {
                    if i < acc.len() {
                        assert(v[i] == acc[i]);
                    }
                }
            }
        }
    }
}

/// Only the tokens that are not revoked, when `active_only`.
pub fn filter_active(tokens: Vec<TokenSummary>, active_only: bool) -> (r: Vec<TokenSummary>)
    ensures
        !active_only ==> r@ == tokens@,
        active_only ==> r@ == tokens@.filter(|t: TokenSummary| t.revoked_at is None),
{
    if !active_only {
        return tokens;
    }
    let ghost pred = |t: TokenSummary| t.revoked_at is None;
    let ghost orig = tokens@;
    let mut out: Vec<TokenSummary> = Vec::new();
    let mut rest = tokens;
    let ghost mut k: int = 0;
    assert(orig.subrange(0, orig.len() as int) =~= orig);
    assert(orig.take(0) =~= Seq::<TokenSummary>::empty());
    while rest.len() > 0
        invariant
            0 <= k <= orig.len(),
            rest@ == orig.subrange(k, orig.len() as int),
            out@ == orig.take(k).filter(pred),
        decreases rest.len(),
    {
        let t = rest.remove(0);
        proof {
            assert(t == orig[k]);
            orig.take(k).lemma_filter_push(orig[k], pred);
            assert(orig.take(k).push(orig[k]) =~= orig.take(k + 1));
            assert(rest@ =~= orig.subrange(k + 1, orig.len() as int));
        }
        if t.revoked_at.is_none() {
            out.push(t);
        }
        proof {
            k = k + 1;
        }
    }
    assert(orig.take(k) =~= orig);
    out
}

/// Whether `ts` lists newest-created first.
pub open spec fn newest_created_first(ts: Seq<TokenSummary>) -> bool {
    forall|i: int, j: int| 0 <= i < j < ts.len() ==> !str_lt((#[trigger] ts[i]).created_at@, (#[trigger] ts[j]).created_at@)
}

/// Tokens created at the same time: neither `created_at` orders before the other.
pub open spec fn same_time(a: TokenSummary, b: TokenSummary) -> bool {
    !str_lt(a.created_at@, b.created_at@) && !str_lt(b.created_at@, a.created_at@)
}

/// `r` is `orig` reordered by the positions `perm` (`r[a]` is `orig[perm[a]]`,
/// each position used once), with tokens created at the same time in the
/// order they had in `orig`.
pub open spec fn stable_reorder(orig: Seq<TokenSummary>, r: Seq<TokenSummary>, perm: Seq<int>) -> bool {
    &&& perm.len() == r.len()
    &&& r.len() == orig.len()
    &&& forall|a: int| 0 <= a < r.len() ==> 0 <= #[trigger] perm[a] < orig.len() && r[a] == orig[perm[a]]
    &&& forall|a: int, b: int| 0 <= a < b < r.len() ==> #[trigger] perm[a] != #[trigger] perm[b]
    &&& forall|a: int, b: int| 0 <= a < b < r.len() && same_time(r[a], r[b]) ==> #[trigger] perm[a] < #[trigger] perm[b]
}

/// `tokens` newest-created first (`created_at` compared as text, as the
/// backend's RFC 3339 timestamps order); tokens created at the same time
/// keep their order (a stable sort).
pub fn sort_tokens_newest_first(tokens: Vec<TokenSummary>) -> (r: Vec<TokenSummary>)
    ensures
        newest_created_first(r@),
        r@.to_multiset() == tokens@.to_multiset(),
        exists|perm: Seq<int>| stable_reorder(tokens@, r@, perm),
{
    broadcast use vstd::seq_lib::group_to_multiset_ensures;

    let ghost orig = tokens@;
    let mut out: Vec<TokenSummary> = Vec::new();
    let mut rest = tokens;
    let ghost mut k: int = 0;
    let ghost mut perm: Seq<int> = Seq::empty();
    assert(orig.subrange(0, orig.len() as int) =~= orig);
    assert(orig.take(0) =~= Seq::<TokenSummary>::empty());
    while rest.len() > 0
        invariant
            0 <= k <= orig.len(),
            rest@ == orig.subrange(k, orig.len() as int),
            newest_created_first(out@),
            out@.to_multiset() == orig.take(k).to_multiset(),
            perm.len() == out@.len(),
            out@.len() == k,
            forall|a: int| 0 <= a < out@.len() ==> 0 <= #[trigger] perm[a] < k && out@[a] == orig[perm[a]],
            forall|a: int, b: int| 0 <= a < b < out@.len() ==> #[trigger] perm[a] != #[trigger] perm[b],
            forall|a: int, b: int| 0 <= a < b < out@.len() && same_time(out@[a], out@[b]) ==> #[trigger] perm[a] < #[trigger] perm[b],
        decreases rest.len(),
    {
        let x = rest.remove(0);
        proof {
            assert(x == orig[k]);
            assert(rest@ =~= orig.subrange(k + 1, orig.len() as int));
        }
        let mut p: usize = 0;
        while p < out.len() && !str_less(out[p].created_at.as_str(), x.created_at.as_str())
            invariant
                p <= out.len(),
                forall|q: int| 0 <= q < p ==> !str_lt((#[trigger] out@[q]).created_at@, x.created_at@),
            decreases out.len() - p,
        {
            p = p + 1;
        }
        let ghost before = out@;
        let ghost old_perm = perm;
        let ghost key = x.created_at@;
        out.insert(p, x);
        proof {
            assert(out@ =~= before.insert(p as int, orig[k]));
            perm = old_perm.insert(p as int, k);
            // Everything from `p` on was created strictly before `x`.
            assert forall|q: int| p <= q < before.len() implies str_lt(#[trigger] before[q].created_at@, key) by {
                assert(str_lt(before[p as int].created_at@, key));
                if q > p {
                    assert(!str_lt(before[p as int].created_at@, before[q].created_at@));
                    lemma_lex_total(char_ranks(before[q].created_at@), char_ranks(before[p as int].created_at@));
                    if char_ranks(before[q].created_at@) != char_ranks(before[p as int].created_at@) {
                        lemma_lex_transitive(char_ranks(before[q].created_at@), char_ranks(before[p as int].created_at@), char_ranks(key));
                    }
                }
            }
            assert forall|a: int, b: int| 0 <= a < b < out@.len()
                implies !str_lt((#[trigger] out@[a]).created_at@, (#[trigger] out@[b]).created_at@) by {
                if b < p {
                    assert(out@[a] == before[a] && out@[b] == before[b]);
                } else if b == p {
                    assert(out@[a] == before[a]);
                } else if a < p {
                    assert(out@[a] == before[a] && out@[b] == before[b - 1]);
                } else if a == p {
                    assert(out@[b] == before[b - 1]);
                    assert(str_lt(before[b - 1].created_at@, key));
                    lemma_lex_asymmetric(char_ranks(before[b - 1].created_at@), char_ranks(key));
                } else {
                    assert(out@[a] == before[a - 1] && out@[b] == before[b - 1]);
                }
            }
            assert forall|a: int| 0 <= a < out@.len() implies 0 <= #[trigger] perm[a] < k + 1 && out@[a] == orig[perm[a]] by {
                if a < p {
                    assert(perm[a] == old_perm[a]);
                } else if a > p {
                    assert(perm[a] == old_perm[a - 1]);
                }
            }
            assert forall|a: int, b: int| 0 <= a < b < out@.len() implies #[trigger] perm[a] != #[trigger] perm[b] by {
                let aa = if a < p { a } else { a - 1 };
                let bb = if b < p { b } else { b - 1 };
                if a != p && b != p {
                    assert(perm[a] == old_perm[aa] && perm[b] == old_perm[bb]);
                } else if a == p {
                    assert(perm[b] == old_perm[bb]);
                } else {
                    assert(perm[a] == old_perm[aa]);
                }
            }
            assert forall|a: int, b: int| 0 <= a < b < out@.len() && same_time(out@[a], out@[b])
                implies #[trigger] perm[a] < #[trigger] perm[b] by {
                if b < p {
                    assert(perm[a] == old_perm[a] && perm[b] == old_perm[b]);
                    assert(out@[a] == before[a] && out@[b] == before[b]);
                } else if b == p {
                    assert(perm[a] == old_perm[a]);
                } else if a < p {
                    assert(perm[a] == old_perm[a] && perm[b] == old_perm[b - 1]);
                    assert(out@[a] == before[a] && out@[b] == before[b - 1]);
                } else if a == p {
                    assert(out@[b] == before[b - 1]);
                    assert(str_lt(before[b - 1].created_at@, key));
                } else {
                    assert(perm[a] == old_perm[a - 1] && perm[b] == old_perm[b - 1]);
                    assert(out@[a] == before[a - 1] && out@[b] == before[b - 1]);
                }
            }
            assert(orig.take(k + 1) =~= orig.take(k).push(orig[k]));
            k = k + 1;
        }
    }
    assert(orig.take(k) =~= orig);
    assert(stable_reorder(orig, out@, perm));
    out
}

/// `s` cut to `n` characters, ending in `…` when it was longer.
pub open spec fn truncate_spec(s: Seq<char>, n: nat) -> Seq<char> {
    if s.len() <= n {
        s
    } else {
        s.take(if n >= 1 { n - 1 } else { 0 }) + seq!['…']
    }
}

/// Fit `s` into `n` characters for a table cell.
pub fn truncate(s: &str, n: usize) -> (r: String)
    ensures
        r@ == truncate_spec(s@, n as nat),
{
    let cs = chars_of(s);
    if cs.len() <= n {
        return s.to_string();
    }
    let keep: usize = if n >= 1 { n - 1 } else { 0 };
    let mut v = crate::paths::slice_of(&cs, 0, keep);
    v.push('…');
    assert(v@ =~= s@.take(keep as int) + seq!['…']);
    string_of(v.as_slice())
}

/// The part of `s` before its first `T` (all of it when there is none).
pub open spec fn before_t(s: Seq<char>) -> Seq<char> {
    match crate::text::first_index_of(s, 'T') {
        Some(i) => s.take(i),
        None => s,
    }
}

/// A token's status cell: revoked, its expiry date, or active.
pub open spec fn token_status_spec(t: TokenSummary) -> Seq<char> {
    match t.revoked_at {
        Some(_) => "revoked"@,
        None => match t.expires_at {
            Some(e) => "expires "@ + before_t(e@),
            None => "active"@,
        },
    }
}

/// The status cell of a token.
pub fn token_status(t: &TokenSummary) -> (r: String)
    ensures
        r@ == token_status_spec(*t),
{
    if t.revoked_at.is_some() {
        return String::from_str("revoked");
    }
    match &t.expires_at {
        Some(e) => {
            let cs = chars_of(e.as_str());
            let mut out = String::from_str("expires ");
            match crate::text::find_char(&cs, 'T') {
                Some(i) => {
                    let v = crate::paths::slice_of(&cs, 0, i);
                    let d = string_of(v.as_slice());
                    out.append(d.as_str());
                },
                None => {
                    out.append(e.as_str());
                },
            }
            out
        },
        None => String::from_str("active"),
    }
}

/// One row of the token table.
pub open spec fn token_row(t: TokenSummary) -> Seq<char> {
    pad_right_spec(t.id@, 38) + " "@ + pad_right_spec(truncate_spec(t.name@, 20), 20) + " "@
        + pad_right_spec(truncate_spec(join_spec(views(t.scopes@), ","@), 22), 22) + " "@ + token_status_spec(t)
}

/// The token table `pat list` prints.
pub open spec fn pat_table_spec(ts: Seq<TokenSummary>) -> Seq<Seq<char>> {
    if ts.len() == 0 {
        seq!["no tokens"@]
    } else {
        seq![pad_right_spec("ID"@, 38) + " "@ + pad_right_spec("NAME"@, 20) + " "@ + pad_right_spec("SCOPES"@, 22) + " STATUS"@]
            + ts.map_values(|t: TokenSummary| token_row(t))
    }
}

fn token_row_string(t: &TokenSummary) -> (r: String)
    ensures
        r@ == token_row(*t),
{
    let mut s = pad_right(t.id.as_str(), 38);
    s.append(" ");
    let n = truncate(t.name.as_str(), 20);
    let np = pad_right(n.as_str(), 20);
    s.append(np.as_str());
    s.append(" ");
    let j = join(&t.scopes, ",");
    let sc = truncate(j.as_str(), 22);
    let sp = pad_right(sc.as_str(), 22);
    s.append(sp.as_str());
    s.append(" ");
    let st = token_status(t);
    s.append(st.as_str());
    s
}

/// The lines `pat list` prints.
pub fn pat_table_lines(tokens: &Vec<TokenSummary>) -> (r: Vec<String>)
    ensures
        views(r@) == pat_table_spec(tokens@),
{
    let mut out: Vec<String> = Vec::new();
    if tokens.len() == 0 {
        out.push(String::from_str("no tokens"));
        assert(views(out@) =~= seq!["no tokens"@]);
        return out;
    }
    let mut h = pad_right("ID", 38);
    h.append(" ");
    let b = pad_right("NAME", 20);
    h.append(b.as_str());
    h.append(" ");
    let c = pad_right("SCOPES", 22);
    h.append(c.as_str());
    h.append(" STATUS");
    out.push(h);
    let ghost head = views(out@);
    let mut i: usize = 0;
    while i < tokens.len()
        invariant
            i <= tokens.len(),
            views(out@) == head + tokens@.take(i as int).map_values(|t: TokenSummary| token_row(t)),
        decreases tokens.len() - i,
    {
        let l = token_row_string(&tokens[i]);
        let ghost before = views(out@);
        out.push(l);
        assert(tokens@.take(i + 1).map_values(|t: TokenSummary| token_row(t))
            =~= tokens@.take(i as int).map_values(|t: TokenSummary| token_row(t)).push(token_row(tokens@[i as int])));
        assert(views(out@) =~= before.push(token_row(tokens@[i as int])));
        i = i + 1;
    }
    assert(tokens@.take(tokens.len() as int) =~= tokens@);
    out
}

/// What `pat create` prints: the new token, shown once.
pub fn created_token_lines(resp: &TokenCreatedResponse) -> (r: Vec<String>)
    ensures
        views(r@) == seq![
            "created PAT `"@ + resp.name@ + "` (id "@ + resp.id@ + ", scopes: "@ + join_spec(views(resp.scopes@), ", "@) + ")"@,
            ""@,
            "Store this token now — it won't be shown again:"@,
            "  "@ + resp.token@,
        ],
{
    let mut out: Vec<String> = Vec::new();
    let mut a = String::from_str("created PAT `");
    a.append(resp.name.as_str());
    a.append("` (id ");
    a.append(resp.id.as_str());
    a.append(", scopes: ");
    let j = join(&resp.scopes, ", ");
    a.append(j.as_str());
    a.append(")");
    out.push(a);
    out.push(String::from_str(""));
    out.push(String::from_str("Store this token now — it won't be shown again:"));
    let mut t = String::from_str("  ");
    t.append(resp.token.as_str());
    out.push(t);
    assert(views(out@) =~= seq![
        "created PAT `"@ + resp.name@ + "` (id "@ + resp.id@ + ", scopes: "@ + join_spec(views(resp.scopes@), ", "@) + ")"@,
        ""@,
        "Store this token now — it won't be shown again:"@,
        "  "@ + resp.token@,
    ]);
    out
}

/// Why minting a token failed: a 403 means the stored credential is a PAT,
/// which may not mint another; any other error is shown as it is.
pub fn create_token_error(err: &RegistryError) -> (r: String)
    ensures
        (err matches RegistryError::Http { status, .. } && status == 403) ==> r@
            == "minting a new PAT requires a session token (ruso_sess_…) — the stored credential looks like a PAT. Sign in via the web UI (Tokens page), or run `ruso login` with a session token."@,
        !(err matches RegistryError::Http { status, .. } && status == 403) ==> r@ == crate::registry::error_text(*err),
{
    match err {
        RegistryError::Http { status, .. } => {
            if *status == 403 {
                return String::from_str("minting a new PAT requires a session token (ruso_sess_…) — the stored credential looks like a PAT. Sign in via the web UI (Tokens page), or run `ruso login` with a session token.");
            }
        },
        _ => {},
    }
    err.message()
}

// ───────────────────────────── script inputs ─────────────────────────────

/// What `--script` / `--bytecode` resolved to: source files to compile, or
/// bytecode files to decode.
#[derive(Debug)]
pub enum ScriptInput {
    Sources(Vec<String>),
    Bytecodes(Vec<String>),
}

/// How a raw `--script` or `--bytecode` argument resolves.
#[derive(Debug)]
pub enum InputResolution {
    /// An existing path: its files, or why it yields none.
    Local(Result<ScriptInput, DiscoverError>),
    /// A registry reference, to be installed and run from the cache.
    Registry(RegistryRef),
    /// Neither an existing path nor a reference; the error's text.
    Invalid(String),
}

/// How local input agrees with discovery (`discover_spec`): the same error,
/// or the discovered files of the expected kind in path order.
pub open spec fn input_agrees(
    x: Result<ScriptInput, DiscoverError>,
    spec: Result<Seq<Seq<char>>, (int, Seq<char>, Seq<char>)>,
    sources: bool,
) -> bool {
    match x {
        Ok(ScriptInput::Sources(v)) => sources && discover_agrees(Ok(v), spec),
        Ok(ScriptInput::Bytecodes(v)) => !sources && discover_agrees(Ok(v), spec),
        Err(e) => discover_agrees(Err(e), spec),
    }
}

fn as_sources(r: Result<Vec<String>, DiscoverError>) -> (x: Result<ScriptInput, DiscoverError>)
    ensures
        match r {
            Ok(v) => x matches Ok(ScriptInput::Sources(w)) && w == v,
            Err(e) => x == Err::<ScriptInput, DiscoverError>(e),
        },
{
    match r {
        Ok(v) => Ok(ScriptInput::Sources(v)),
        Err(e) => Err(e),
    }
}

fn as_bytecodes(r: Result<Vec<String>, DiscoverError>) -> (x: Result<ScriptInput, DiscoverError>)
    ensures
        match r {
            Ok(v) => x matches Ok(ScriptInput::Bytecodes(w)) && w == v,
            Err(e) => x == Err::<ScriptInput, DiscoverError>(e),
        },
{
    match r {
        Ok(v) => Ok(ScriptInput::Bytecodes(v)),
        Err(e) => Err(e),
    }
}

/// The message for an argument that is neither a path nor a reference.
pub open spec fn neither_message(raw: Seq<char>, script: bool) -> Seq<char> {
    if script {
        "`"@ + raw + "` is neither an existing path nor a registry ref `<ns>/<name>[@<range>]`"@
    } else {
        "`"@ + raw + "` is neither an existing path nor a registry ref"@
    }
}

fn neither(raw: &str, script: bool) -> (r: String)
    ensures
        r@ == neither_message(raw@, script),
{
    let mut m = String::from_str("`");
    m.append(raw);
    if script {
        m.append("` is neither an existing path nor a registry ref `<ns>/<name>[@<range>]`");
    } else {
        m.append("` is neither an existing path nor a registry ref");
    }
    m
}

/// Resolve `--script`. An existing path always wins over the reference
/// shape: a file is bytecode when it ends in `.rbc` and source otherwise; a
/// directory yields its `.rsl` scripts, or its `.rbc` files when it has no
/// scripts. Otherwise a `<ns>/<name>[@<range>]` reference, else an error.
/// `probe` is what the filesystem says about `raw`.
pub fn resolve_script_input(raw: &str, probe: &PathProbe) -> (r: InputResolution)
    ensures
        match *probe {
            PathProbe::Missing => match parse_ref_spec(raw@) {
                Some(v) => r matches InputResolution::Registry(rf) && ref_view(rf) == v,
                None => r matches InputResolution::Invalid(m) && m@ == neither_message(raw@, true),
            },
            PathProbe::File => if has_extension(raw@, "rbc"@) {
                r matches InputResolution::Local(x) && input_agrees(x, discover_spec(raw@, *probe, "rbc"@), false)
            } else {
                r matches InputResolution::Local(x) && input_agrees(x, discover_spec(raw@, *probe, "rsl"@), true)
            },
            _ => if discover_spec(raw@, *probe, "rsl"@) is Ok {
                r matches InputResolution::Local(x) && input_agrees(x, discover_spec(raw@, *probe, "rsl"@), true)
            } else {
                r matches InputResolution::Local(x) && input_agrees(x, discover_spec(raw@, *probe, "rbc"@), false)
            },
        },
{
    match probe {
        PathProbe::Missing => {
            match parse_ref(raw) {
                Some(rf) => InputResolution::Registry(rf),
                None => InputResolution::Invalid(neither(raw, true)),
            }
        },
        PathProbe::File => {
            if path_has_extension(raw, "rbc") {
                InputResolution::Local(as_bytecodes(discover_bytecode(raw, probe)))
            } else {
                InputResolution::Local(as_sources(discover_scripts(raw, probe)))
            }
        },
        _ => {
            match discover_scripts(raw, probe) {
                Ok(files) => InputResolution::Local(Ok(ScriptInput::Sources(files))),
                Err(_) => InputResolution::Local(as_bytecodes(discover_bytecode(raw, probe))),
            }
        },
    }
}

/// Resolve `--bytecode`: an existing path yields its `.rbc` files; otherwise
/// a reference, else an error.
pub fn resolve_bytecode_input(raw: &str, probe: &PathProbe) -> (r: InputResolution)
    ensures
        match *probe {
            PathProbe::Missing => match parse_ref_spec(raw@) {
                Some(v) => r matches InputResolution::Registry(rf) && ref_view(rf) == v,
                None => r matches InputResolution::Invalid(m) && m@ == neither_message(raw@, false),
            },
            _ => r matches InputResolution::Local(x) && input_agrees(x, discover_spec(raw@, *probe, "rbc"@), false),
        },
{
    match probe {
        PathProbe::Missing => {
            match parse_ref(raw) {
                Some(rf) => InputResolution::Registry(rf),
                None => InputResolution::Invalid(neither(raw, false)),
            }
        },
        _ => InputResolution::Local(as_bytecodes(discover_bytecode(raw, probe))),
    }
}

// ───────────────────────────── families ─────────────────────────────

/// Page `page` of the family's scripts, 100 per page (the registry's cap).
pub fn family_page_params(family: &str, page: u32) -> (r: SearchParams)
    ensures
        opt_view(r.family) == Some(family@),
        r.page == Some(page),
        r.per_page == Some(100u32),
        r.q is None && r.severity is None && r.cve is None && r.namespace is None && r.tags@.len() == 0,
{
    let mut p = SearchParams::default();
    p.family = Some(family.to_string());
    p.per_page = Some(100);
    p.page = Some(page);
    p
}

/// Whether paging through a family stops after a page of `got` results: an
/// empty or short page (fewer than `max(per_page, 1)`), or every result the
/// registry reported (`total`, when not negative) collected.
pub fn family_paging_done(got: usize, per_page: u32, total: i64, collected: usize) -> (r: bool)
    ensures
        r == (got == 0 || got < (if per_page < 1 { 1 } else { per_page as int })
            || (total >= 0 && collected >= total)),
{
    let pp: usize = if per_page < 1 { 1 } else { per_page as usize };
    if got == 0 || got < pp {
        return true;
    }
    if total >= 0 {
        let c: u64 = collected as u64;
        return c >= total as u64;
    }
    false
}

/// Whether a search hit may become a cache path: its namespace and name are
/// both slugs, so neither can climb out of the cache (`../…`) or nest.
pub open spec fn hit_is_safe(h: SearchHit) -> bool {
    is_slug_spec(h.namespace@) && is_slug_spec(h.name@)
}

/// The references of the safe hits, in hit order (any version, newest wins).
pub open spec fn family_refs_spec(hits: Seq<SearchHit>) -> Seq<(Seq<char>, Seq<char>, Option<Seq<char>>)>
    decreases hits.len(),
{
    if hits.len() == 0 {
        Seq::empty()
    } else {
        let rest = family_refs_spec(hits.drop_last());
        let h = hits.last();
        if hit_is_safe(h) {
            rest.push((h.namespace@, h.name@, None::<Seq<char>>))
        } else {
            rest
        }
    }
}

/// Why an unsafe hit is skipped.
pub open spec fn unsafe_hit_reason() -> Seq<char> {
    "namespace and name must be slugs"@
}

/// The skip notes of the unsafe hits, in hit order.
pub open spec fn family_rejects_spec(hits: Seq<SearchHit>) -> Seq<Seq<char>>
    decreases hits.len(),
{
    if hits.len() == 0 {
        Seq::empty()
    } else {
        let rest = family_rejects_spec(hits.drop_last());
        let h = hits.last();
        if hit_is_safe(h) {
            rest
        } else {
            rest.push("skip "@ + h.namespace@ + "/"@ + h.name@ + ": "@ + unsafe_hit_reason())
        }
    }
}

/// The references of a family's scripts, built only from hits whose
/// namespace and name are slugs, and a skip note for every other hit.
pub fn family_refs(hits: &Vec<SearchHit>) -> (r: (Vec<RegistryRef>, Vec<String>))
    ensures
        r.0@.map_values(|x: RegistryRef| ref_view(x)) == family_refs_spec(hits@),
        forall|i: int| 0 <= i < r.0@.len() ==> is_slug_spec(#[trigger] r.0@[i].namespace@) && is_slug_spec(r.0@[i].name@)
            && r.0@[i].range is None,
        views(r.1@) == family_rejects_spec(hits@),
{
    let mut out: Vec<RegistryRef> = Vec::new();
    let mut notes: Vec<String> = Vec::new();
    let mut i: usize = 0;
    proof {
        reveal_strlit("namespace and name must be slugs");
    }
    while i < hits.len()
        invariant
            i <= hits.len(),
            out@.map_values(|x: RegistryRef| ref_view(x)) == family_refs_spec(hits@.take(i as int)),
            forall|j: int| 0 <= j < out@.len() ==> is_slug_spec(#[trigger] out@[j].namespace@) && is_slug_spec(out@[j].name@)
                && out@[j].range is None,
            views(notes@) == family_rejects_spec(hits@.take(i as int)),
        decreases hits.len() - i,
    {
        let h = &hits[i];
        let ghost before = out@;
        let ghost notes_before = notes@;
        proof {
            assert(hits@.take(i + 1).drop_last() =~= hits@.take(i as int));
            assert(hits@.take(i + 1).last() == hits@[i as int]);
        }
        if is_slug(h.namespace.as_str()) && is_slug(h.name.as_str()) {
            out.push(RegistryRef { namespace: h.namespace.clone(), name: h.name.clone(), range: None });
            assert(out@.map_values(|x: RegistryRef| ref_view(x)) =~= before.map_values(|x: RegistryRef| ref_view(x)).push(
                (h.namespace@, h.name@, None::<Seq<char>>),
            ));
        } else {
            notes.push(family_skip_message(h.namespace.as_str(), h.name.as_str(), "namespace and name must be slugs"));
            assert(views(notes@) =~= views(notes_before).push(
                "skip "@ + h.namespace@ + "/"@ + h.name@ + ": "@ + unsafe_hit_reason(),
            ));
        }
        i = i + 1;
    }
    assert(hits@.take(hits@.len() as int) =~= hits@);
    (out, notes)
}

/// The error when a family has no scripts.
pub fn empty_family_message(family: &str) -> (r: String)
    ensures
        r@ == "no scripts found in family `"@ + family@ + "`"@,
{
    let mut m = String::from_str("no scripts found in family `");
    m.append(family);
    m.append("`");
    m
}

/// The note for a family member that could not be installed.
pub fn family_skip_message(ns: &str, name: &str, err: &str) -> (r: String)
    ensures
        r@ == "skip "@ + ns@ + "/"@ + name@ + ": "@ + err@,
{
    let mut m = String::from_str("skip ");
    m.append(ns);
    m.append("/");
    m.append(name);
    m.append(": ");
    m.append(err);
    m
}

/// The family's installed files, or the error when none could be installed.
pub fn family_outcome(family: &str, paths: Vec<String>) -> (r: Result<Vec<String>, String>)
    ensures
        paths@.len() > 0 ==> r == Ok::<Vec<String>, String>(paths),
        paths@.len() == 0 ==> (r matches Err(m) && m@ == "every script in family `"@ + family@ + "` failed to install"@),
{
    if paths.len() == 0 {
        let mut m = String::from_str("every script in family `");
        m.append(family);
        m.append("` failed to install");
        Err(m)
    } else {
        Ok(paths)
    }
}

} // verus!

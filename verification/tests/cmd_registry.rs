use ruso_cli::args::Visibility;
use ruso_cli::cmd_registry::{
    admin_delete_gate, admin_delete_target, create_token_error, created_token_lines, edit_request, family_outcome,
    family_page_params, family_paging_done, family_refs, filter_active, info_lines, install_failed_message, invalid_ref_message,
    logout_message, normalize_scopes, parse_ns_name_optional_range, parse_ns_name_version, pat_name, pat_table_lines,
    publish_lines, resolve_bytecode_input, resolve_script_input, search_table_lines, slugify_or_err,
    sort_tokens_newest_first, token_status, truncate, validate_login_token, visibility_str, whoami_lines, InputResolution,
    ScriptInput,
};
use ruso_cli::discover::PathProbe;
use ruso_cli::install_store::RegistryRef;
use ruso_cli::registry::{
    MeResponse, PublishResponse, RegistryError, ScriptResponse, SearchHit, SearchResponse, TokenCreatedResponse,
    TokenSummary, VersionSummary,
};

#[test]
fn login_tokens() {
    assert_eq!(validate_login_token("  ruso_pat_abc \n").unwrap(), "ruso_pat_abc");
    assert_eq!(validate_login_token("ruso_sess_x").unwrap(), "ruso_sess_x");
    assert_eq!(validate_login_token("   ").unwrap_err(), "empty token");
    assert_eq!(validate_login_token("ghp_x").unwrap_err(), "token must start with `ruso_pat_` or `ruso_sess_`");
    assert_eq!(logout_message("http://r", true), "logged out of http://r");
    assert_eq!(logout_message("http://r", false), "no credential stored for http://r");
}

#[test]
fn whoami_prints_account() {
    let me = MeResponse {
        id: "1".into(),
        username: "alice".into(),
        email: "a@x".into(),
        github_login: "al".into(),
        avatar_url: None,
        is_admin: false,
    };
    assert_eq!(
        whoami_lines(&me, "http://r"),
        vec!["user:     alice", "email:    a@x", "github:   al", "admin:    false", "registry: http://r"]
    );
}

#[test]
fn slugs_from_script_names() {
    assert_eq!(slugify_or_err("Log4Shell CVE-2021-44228").unwrap(), "log4shell-cve-2021-44228");
    assert_eq!(slugify_or_err("--Hello,,  World!!").unwrap(), "hello-world");
    assert_eq!(slugify_or_err("!!!").unwrap_err(), "cannot derive registry slug from `!!!`");
    let long = format!("{}-{}", "a".repeat(38), "b".repeat(10));
    assert_eq!(slugify_or_err(&long).unwrap(), "a".repeat(38));
    let cut = slugify_or_err(&"x".repeat(60)).unwrap();
    assert_eq!(cut.len(), 39);
    assert_eq!(slugify_or_err("Ünïcode name").unwrap(), "n-code-name");
    assert_eq!(visibility_str(Visibility::Private), "private");
}

#[test]
fn publish_output() {
    let resp = PublishResponse {
        namespace: "alice".into(),
        name: "x".into(),
        version: "1.0.0".into(),
        tags: vec!["web".into(), "rce".into()],
        visibility: "public".into(),
        size_bytes: 120,
        published_at: "t".into(),
    };
    assert_eq!(publish_lines(&resp), vec!["published alice/x@1.0.0 (120 bytes, public)", "tags:     web, rce"]);
}

#[test]
fn reference_arguments() {
    assert_eq!(
        parse_ns_name_optional_range("a/b@^1").unwrap(),
        ("a".to_string(), "b".to_string(), Some("^1".to_string()))
    );
    assert_eq!(
        parse_ns_name_optional_range("./x").unwrap_err(),
        "`./x` is not a registry ref (expected `<ns>/<name>[@<range>]`)"
    );
    assert_eq!(parse_ns_name_version("a/b@1.2.3").unwrap(), ("a".to_string(), "b".to_string(), "1.2.3".to_string()));
    assert_eq!(
        parse_ns_name_version("a/b").unwrap_err(),
        "`a/b` is missing `@<version>` — yank/unyank operate on a single version"
    );
    assert_eq!(parse_ns_name_version("A/b").unwrap_err(), "`A/b` is not a registry ref (expected `<ns>/<name>@<version>`)");
    assert_eq!(admin_delete_target("a", "b", None), "a/b (and ALL its versions)");
    assert_eq!(admin_delete_target("a", "b", Some("1.0.0")), "a/b@1.0.0");
    assert!(admin_delete_gate("a/b", true).is_ok());
    assert_eq!(
        admin_delete_gate("a/b", false).unwrap_err(),
        "refusing to hard-delete a/b without --yes (this is irreversible)"
    );
    assert_eq!(invalid_ref_message("x"), "`x` is not a valid registry ref (expected `<ns>/<name>[@<range>]`)");
    let r = RegistryRef { namespace: "a".into(), name: "b".into(), range: Some("^1".into()) };
    assert_eq!(install_failed_message(&r, "boom"), "install a/b@^1: boom");
}

#[test]
fn edit_body() {
    assert_eq!(
        edit_request(None, None).err().unwrap(),
        "nothing to change — pass --description and/or --visibility"
    );
    let body = edit_request(Some("  new text "), Some(Visibility::Public)).ok().unwrap();
    assert_eq!(body.description.as_deref(), Some("new text"));
    assert_eq!(body.visibility.as_deref(), Some("public"));
}

fn token(id: &str, created: &str, revoked: bool, expires: Option<&str>) -> TokenSummary {
    TokenSummary {
        id: id.into(),
        name: format!("name-{id}"),
        scopes: vec!["read".into()],
        expires_at: expires.map(|e| e.to_string()),
        created_at: created.into(),
        last_used_at: None,
        revoked_at: if revoked { Some("r".into()) } else { None },
    }
}

#[test]
fn tokens_sorted_filtered_and_tabled() {
    let ts = vec![
        token("1", "2024-01-01", false, None),
        token("2", "2024-03-01", true, None),
        token("3", "2024-02-01", false, Some("2025-01-01T00:00:00Z")),
    ];
    let sorted = sort_tokens_newest_first(ts);
    let ids: Vec<&str> = sorted.iter().map(|t| t.id.as_str()).collect();
    assert_eq!(ids, vec!["2", "3", "1"]);
    let active = filter_active(sorted, true);
    let ids: Vec<&str> = active.iter().map(|t| t.id.as_str()).collect();
    assert_eq!(ids, vec!["3", "1"]);
    assert_eq!(token_status(&active[0]), "expires 2025-01-01");
    assert_eq!(token_status(&active[1]), "active");
    assert_eq!(token_status(&token("9", "x", true, None)), "revoked");
    let lines = pat_table_lines(&active);
    assert_eq!(lines.len(), 3);
    assert!(lines[0].starts_with("ID"));
    assert!(lines[0].ends_with(" STATUS"));
    assert!(lines[1].starts_with("3 "));
    assert!(lines[1].ends_with(" expires 2025-01-01"));
    assert_eq!(pat_table_lines(&Vec::new()), vec!["no tokens"]);
}

#[test]
fn truncation_for_cells() {
    assert_eq!(truncate("short", 20), "short");
    assert_eq!(truncate("abcdefghij", 5), "abcd…");
    assert_eq!(truncate("abc", 0), "…");
}

#[test]
fn scopes_and_names() {
    assert_eq!(normalize_scopes(&vec![]).unwrap(), vec!["read"]);
    assert_eq!(
        normalize_scopes(&vec![" Publish".into(), "read".into(), "PUBLISH".into()]).unwrap(),
        vec!["publish", "read"]
    );
    assert_eq!(
        normalize_scopes(&vec!["read".into(), "Admin".into()]).unwrap_err(),
        "unknown scope `admin` (allowed: read, publish, yank)"
    );
    assert_eq!(pat_name("  ci  ").unwrap(), "ci");
    assert_eq!(pat_name("   ").unwrap_err(), "token name must not be empty");
}

#[test]
fn token_creation_output_and_errors() {
    let resp = TokenCreatedResponse {
        id: "t1".into(),
        name: "ci".into(),
        scopes: vec!["read".into(), "yank".into()],
        expires_at: None,
        token: "ruso_pat_xyz".into(),
    };
    let lines = created_token_lines(&resp);
    assert_eq!(lines[0], "created PAT `ci` (id t1, scopes: read, yank)");
    assert_eq!(lines[3], "  ruso_pat_xyz");
    let forbidden = RegistryError::Http { status: 403, path: "/v1/tokens".into(), body: "".into() };
    assert!(create_token_error(&forbidden).starts_with("minting a new PAT requires a session token"));
    assert_eq!(create_token_error(&RegistryError::Unauthorized), RegistryError::Unauthorized.message());
}

fn hit(ns: &str, name: &str) -> SearchHit {
    SearchHit {
        namespace: ns.into(),
        name: name.into(),
        description: None,
        visibility: "public".into(),
        severity: Some("high".into()),
        tags: Vec::new(),
        family: None,
        cves: Vec::new(),
        updated_at: "t".into(),
    }
}

#[test]
fn search_table() {
    let empty = SearchResponse { page: 1, per_page: 20, total: 0, results: Vec::new() };
    assert_eq!(search_table_lines(&empty), vec!["no matches (page 1 of total 0)"]);
    let resp = SearchResponse { page: 1, per_page: 20, total: 45, results: vec![hit("a", "b")] };
    let lines = search_table_lines(&resp);
    assert_eq!(lines.len(), 3);
    assert_eq!(lines[1], format!("{:<40} {:<10} {:<10} {:<10} {}", "a/b", "public", "high", "-", "-"));
    assert_eq!(lines[2], "\npage 1 of 3 (45 results)");
}

#[test]
fn info_description() {
    let s = ScriptResponse {
        namespace: "a".into(),
        name: "b".into(),
        description: Some("".into()),
        visibility: "public".into(),
        tags: vec!["web".into()],
        family: Some("fam".into()),
        versions: vec![
            VersionSummary {
                version: "2.0.0".into(),
                size_bytes: 10,
                tags: Vec::new(),
                published_at: "t".into(),
                yanked_at: Some("y".into()),
                download_count: 3,
            },
            VersionSummary {
                version: "1.0.0".into(),
                size_bytes: 9,
                tags: Vec::new(),
                published_at: "t".into(),
                yanked_at: None,
                download_count: 12,
            },
        ],
    };
    let lines = info_lines(&s);
    assert_eq!(lines[0], "a/b");
    assert_eq!(lines[1], "  visibility: public");
    assert_eq!(lines[2], "  family: fam");
    assert_eq!(lines[3], "  tags: web");
    assert_eq!(lines[4], "  latest: 1.0.0 (12 downloads)");
    assert_eq!(lines[10], "  versions (2):");
    assert_eq!(lines[11], format!("    {:<14} {:>10} downloads  {} bytes{}", "2.0.0", 3, 10, " yanked"));
    assert_eq!(lines.len(), 13);
}

#[test]
fn script_input_resolution() {
    match resolve_script_input("alice/x@^1", &PathProbe::Missing) {
        InputResolution::Registry(r) => assert_eq!(r.display(), "alice/x@^1"),
        _ => panic!("expected a reference"),
    }
    match resolve_script_input("./nope", &PathProbe::Missing) {
        InputResolution::Invalid(m) => {
            assert_eq!(m, "`./nope` is neither an existing path nor a registry ref `<ns>/<name>[@<range>]`")
        }
        _ => panic!("expected an error"),
    }
    match resolve_script_input("a.rbc", &PathProbe::File) {
        InputResolution::Local(Ok(ScriptInput::Bytecodes(v))) => assert_eq!(v, vec!["a.rbc"]),
        _ => panic!("expected bytecode"),
    }
    let dir = PathProbe::Dir(Ok(vec!["d/x.rbc".to_string()]));
    match resolve_script_input("d", &dir) {
        InputResolution::Local(Ok(ScriptInput::Bytecodes(v))) => assert_eq!(v, vec!["d/x.rbc"]),
        _ => panic!("expected bytecode fallback"),
    }
    let dir = PathProbe::Dir(Ok(vec!["d/x.rbc".to_string(), "d/y.rsl".to_string()]));
    match resolve_script_input("d", &dir) {
        InputResolution::Local(Ok(ScriptInput::Sources(v))) => assert_eq!(v, vec!["d/y.rsl"]),
        _ => panic!("expected sources"),
    }
    match resolve_bytecode_input("zz", &PathProbe::Missing) {
        InputResolution::Invalid(m) => assert_eq!(m, "`zz` is neither an existing path nor a registry ref"),
        _ => panic!("expected an error"),
    }
}

#[test]
fn family_paging() {
    let p = family_page_params("web", 3);
    assert_eq!(p.family.as_deref(), Some("web"));
    assert_eq!(p.per_page, Some(100));
    assert_eq!(p.page, Some(3));
    assert!(family_paging_done(0, 100, 500, 200));
    assert!(family_paging_done(40, 100, 500, 440));
    assert!(family_paging_done(100, 100, 200, 200));
    assert!(!family_paging_done(100, 100, 500, 200));
    assert!(!family_paging_done(100, 100, -1, 200));
    assert!(family_outcome("web", Vec::new()).unwrap_err().contains("failed to install"));
    assert_eq!(family_outcome("web", vec!["p".into()]).unwrap(), vec!["p"]);
}

#[test]
fn family_refs_skip_hits_that_are_not_slugs() {
    let hits = vec![
        hit("acme", "sqli"),
        hit("../evil", "x"),
        hit("acme", "a/b"),
        hit("Acme", "xss"),
        hit("team-2", "rce-1"),
    ];
    let (refs, skipped) = family_refs(&hits);
    assert_eq!(refs.len(), 2);
    assert_eq!((refs[0].namespace.as_str(), refs[0].name.as_str(), refs[0].range.clone()), ("acme", "sqli", None));
    assert_eq!((refs[1].namespace.as_str(), refs[1].name.as_str(), refs[1].range.clone()), ("team-2", "rce-1", None));
    assert_eq!(
        skipped,
        vec![
            "skip ../evil/x: namespace and name must be slugs".to_string(),
            "skip acme/a/b: namespace and name must be slugs".to_string(),
            "skip Acme/xss: namespace and name must be slugs".to_string(),
        ]
    );
}

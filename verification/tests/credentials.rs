use ruso_cli::credentials::{credentials_path, delete, load, require, save, temp_path, CredentialError, Credentials, CredentialsFile};

fn creds(token: &str, user: Option<&str>) -> Credentials {
    Credentials { token: token.into(), username: user.map(|u| u.to_string()) }
}

#[test]
fn load_after_save_and_delete() {
    let mut f = CredentialsFile::new();
    assert!(load(&f, "http://a").is_none());
    save(&mut f, "http://a", creds("ruso_pat_1", Some("alice")));
    save(&mut f, "http://b", creds("ruso_pat_2", None));
    let a = load(&f, "http://a").unwrap();
    assert_eq!(a.token, "ruso_pat_1");
    assert_eq!(a.username.as_deref(), Some("alice"));
    save(&mut f, "http://a", creds("ruso_sess_3", None));
    assert_eq!(load(&f, "http://a").unwrap().token, "ruso_sess_3");
    assert_eq!(f.entries().len(), 2);
    assert!(delete(&mut f, "http://a"));
    assert!(!delete(&mut f, "http://a"));
    assert!(load(&f, "http://a").is_none());
    assert_eq!(load(&f, "http://b").unwrap().token, "ruso_pat_2");
}

#[test]
fn require_reports_missing_login() {
    let f = CredentialsFile::new();
    match require(&f, "http://x") {
        Err(e @ CredentialError::NotLoggedIn { .. }) => {
            assert_eq!(e.message(), "not logged in to http://x (run `ruso login --token …`)")
        }
        _ => panic!("expected NotLoggedIn"),
    }
}

#[test]
fn file_locations_and_messages() {
    assert_eq!(credentials_path(Some("/home/u/.config")).unwrap(), "/home/u/.config/ruso/credentials.json");
    assert!(matches!(credentials_path(None), Err(CredentialError::NoConfigDir)));
    assert_eq!(temp_path("/c/ruso/credentials.json"), "/c/ruso/credentials.json.tmp");
    assert_eq!(CredentialError::NoConfigDir.message(), "could not determine config directory");
    assert_eq!(CredentialError::Read { path: "p".into(), reason: "r".into() }.message(), "failed to read p: r");
    assert_eq!(CredentialError::Write { path: "p".into(), reason: "r".into() }.message(), "failed to write p: r");
    assert_eq!(CredentialError::Parse { path: "p".into(), reason: "r".into() }.message(), "failed to parse p: r");
}

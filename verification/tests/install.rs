use ruso_cli::install::{InstallEvent, InstallStep, Installer};
use ruso_cli::install_store::{parse_ref, InstallError, InstallStore};
use ruso_cli::registry::{RegistryError, VersionSummary};

fn store() -> InstallStore {
    InstallStore::default_for_user(Some("/c"), None).unwrap()
}

fn version(v: &str, yanked: bool) -> VersionSummary {
    VersionSummary {
        version: v.into(),
        size_bytes: 1,
        tags: Vec::new(),
        published_at: "t".into(),
        yanked_at: if yanked { Some("y".into()) } else { None },
        download_count: 0,
    }
}

#[test]
fn cached_version_is_used_without_the_registry() {
    let (mut inst, step) = Installer::start(store(), parse_ref("alice/x@^1").unwrap());
    match step {
        InstallStep::ListInstalled { dir } => assert_eq!(dir, "/c/scripts/alice/x"),
        _ => panic!("expected ListInstalled"),
    }
    let listed = vec!["/c/scripts/alice/x/1.0.0.bc".to_string(), "/c/scripts/alice/x/1.4.0.bc".to_string()];
    match inst.advance(InstallEvent::Listed(listed)) {
        InstallStep::CheckCached { version, path } => {
            assert_eq!(version, "1.4.0");
            assert_eq!(path, "/c/scripts/alice/x/1.4.0.bc");
        }
        _ => panic!("expected CheckCached"),
    }
    match inst.advance(InstallEvent::Exists(true)) {
        InstallStep::Done(Ok((v, p))) => {
            assert_eq!(v, "1.4.0");
            assert_eq!(p, "/c/scripts/alice/x/1.4.0.bc");
        }
        _ => panic!("expected Done"),
    }
}

#[test]
fn cache_miss_downloads_newest_live_match() {
    let (mut inst, _) = Installer::start(store(), parse_ref("alice/x").unwrap());
    assert!(matches!(inst.advance(InstallEvent::Listed(Vec::new())), InstallStep::FetchVersions));
    let published = vec![version("1.0.0", false), version("3.0.0", true), version("2.1.0", false)];
    match inst.advance(InstallEvent::Fetched(Ok(published))) {
        InstallStep::Download { version, path } => {
            assert_eq!(version, "2.1.0");
            assert_eq!(path, "/c/scripts/alice/x/2.1.0.bc");
        }
        _ => panic!("expected Download"),
    }
    assert!(matches!(inst.advance(InstallEvent::Stored(Ok(()))), InstallStep::Done(Ok(_))));
}

#[test]
fn failures_end_the_install() {
    let (mut inst, _) = Installer::start(store(), parse_ref("alice/x@^9").unwrap());
    inst.advance(InstallEvent::Listed(vec!["/c/scripts/alice/x/1.0.0.bc".to_string()]));
    match inst.advance(InstallEvent::Fetched(Ok(vec![version("1.0.0", false)]))) {
        InstallStep::Done(Err(e)) => assert_eq!(e.message(), "no versions of alice/x match ^9"),
        _ => panic!("expected NoMatchingVersion"),
    }
    let (mut inst, _) = Installer::start(store(), parse_ref("alice/x").unwrap());
    inst.advance(InstallEvent::Listed(Vec::new()));
    match inst.advance(InstallEvent::Fetched(Err(RegistryError::Unauthorized))) {
        InstallStep::Done(Err(InstallError::Registry(RegistryError::Unauthorized))) => {}
        _ => panic!("expected the registry error"),
    }
    let (mut inst, _) = Installer::start(store(), parse_ref("alice/x@!!").unwrap());
    assert!(matches!(
        inst.advance(InstallEvent::Listed(Vec::new())),
        InstallStep::Done(Err(InstallError::BadRange { .. }))
    ));
}

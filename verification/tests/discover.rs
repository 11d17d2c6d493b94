use ruso_cli::discover::{bytecode_path_for_script, discover_bytecode, discover_scripts, sort_paths, DirWalk, DiscoverError, PathProbe};

fn dir(files: &[&str]) -> PathProbe {
    PathProbe::Dir(Ok(files.iter().map(|f| f.to_string()).collect()))
}

#[test]
fn single_files_by_extension() {
    assert_eq!(discover_scripts("a.rsl", &PathProbe::File).unwrap(), vec!["a.rsl"]);
    assert!(matches!(discover_scripts("a.rbc", &PathProbe::File), Err(DiscoverError::NotScript(_))));
    assert_eq!(discover_bytecode("a.rbc", &PathProbe::File).unwrap(), vec!["a.rbc"]);
    assert!(matches!(discover_bytecode("a.rsl", &PathProbe::File), Err(DiscoverError::NotBytecode(_))));
    assert!(matches!(discover_scripts("x", &PathProbe::Missing), Err(DiscoverError::NotFound(_))));
    assert!(matches!(discover_bytecode("x", &PathProbe::Other), Err(DiscoverError::NotFound(_))));
}

#[test]
fn directories_sorted_by_path() {
    let probe = dir(&["c/z.rsl", "c/a-b.rsl", "c/a/b.rsl", "c/n.rbc", "c/m.txt"]);
    assert_eq!(discover_scripts("c", &probe).unwrap(), vec!["c/a/b.rsl", "c/a-b.rsl", "c/z.rsl"]);
    assert_eq!(discover_bytecode("c", &probe).unwrap(), vec!["c/n.rbc"]);
    assert!(matches!(discover_bytecode("c", &dir(&["c/x.rsl"])), Err(DiscoverError::EmptyBytecode(_))));
    assert!(matches!(discover_scripts("c", &dir(&[])), Err(DiscoverError::EmptyScripts(_))));
    let failed = PathProbe::Dir(Err(("c/sub".to_string(), "denied".to_string())));
    match discover_scripts("c", &failed) {
        Err(e @ DiscoverError::Io { .. }) => assert_eq!(e.message(), "failed to read c/sub: denied"),
        _ => panic!("expected Io"),
    }
    assert_eq!(sort_paths(vec!["b".into(), "a/c".into(), "a".into()]), vec!["a", "a/c", "b"]);
}

#[test]
fn messages_and_bytecode_path() {
    assert_eq!(DiscoverError::NotFound("p".into()).message(), "path not found: p");
    assert_eq!(DiscoverError::EmptyScripts("d".into()).message(), "no .rsl scripts found under d");
    assert_eq!(bytecode_path_for_script("checks/foo.rsl"), "checks/foo.rbc");
    assert_eq!(bytecode_path_for_script("checks/foo"), "checks/foo.rbc");
}

#[test]
fn walk_enters_each_directory_once() {
    let mut w = DirWalk::new();
    assert!(w.enter("/a"));
    assert!(w.enter("/a/b"));
    assert!(!w.enter("/a"));
}

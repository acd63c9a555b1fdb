use wasmtime_mysql::cli::Preopen;
use wasmtime_mysql::host_files::{join_suffix, normalize_guest_path, PathError, PreopenTable};

fn preopen(host: &str, guest: &str) -> Preopen {
    Preopen { host: host.to_string(), guest: guest.to_string() }
}

#[test]
fn normalizes_guest_paths() {
    assert_eq!(normalize_guest_path("/tmp/./data//x/../y").unwrap(), "/tmp/data/y");
    assert_eq!(normalize_guest_path("a/b/").unwrap(), "a/b");
    assert_eq!(normalize_guest_path("/").unwrap(), "/");
    assert_eq!(normalize_guest_path("///").unwrap(), "/");
    assert_eq!(normalize_guest_path(".").unwrap(), ".");
    assert_eq!(normalize_guest_path("./").unwrap(), ".");
    assert_eq!(normalize_guest_path("a/..").unwrap(), ".");
    assert_eq!(normalize_guest_path("/a/..").unwrap(), "/");
    assert_eq!(normalize_guest_path("...").unwrap(), "...");
}

#[test]
fn refuses_empty_and_escaping_paths() {
    assert_eq!(normalize_guest_path(""), Err(PathError::NotFound));
    assert_eq!(normalize_guest_path(".."), Err(PathError::NotCapable));
    assert_eq!(normalize_guest_path("/.."), Err(PathError::NotCapable));
    assert_eq!(normalize_guest_path("a/../../b"), Err(PathError::NotCapable));
}

#[test]
fn normalizing_twice_changes_nothing() {
    for path in ["/tmp/./data//x/../y", "a/b/", "/", ".", "a/..", "x/./y//z"] {
        let once = normalize_guest_path(path).unwrap();
        assert_eq!(normalize_guest_path(&once).unwrap(), once);
    }
}

#[test]
fn joins_components_like_path_push() {
    assert_eq!(join_suffix("/srv/run", "data/ibdata1"), "/srv/run/data/ibdata1");
    assert_eq!(join_suffix("/srv/run/", "data"), "/srv/run/data");
    assert_eq!(join_suffix("/srv/run", ""), "/srv/run");
    assert_eq!(join_suffix("/srv/run", "."), "/srv/run");
    assert_eq!(join_suffix("/srv/run", "a//./b/"), "/srv/run/a/b");
    assert_eq!(join_suffix("", "a/b"), "a/b");
}

#[test]
fn resolves_under_the_longest_preopen() {
    let table = PreopenTable::new(
        Some("/cwd".to_string()),
        &vec![preopen("/run", "/tmp"), preopen("/data", "/tmp/data")],
    )
    .unwrap();
    assert_eq!(table.resolve("/tmp/data/ibdata1").unwrap(), "/data/ibdata1");
    assert_eq!(table.resolve("/tmp/data").unwrap(), "/data");
    assert_eq!(table.resolve("/tmp/database").unwrap(), "/run/database");
    assert_eq!(table.resolve("/tmp/x/../data/f").unwrap(), "/data/f");
    assert_eq!(table.resolve("relative/file").unwrap(), "/cwd/relative/file");
    assert_eq!(table.resolve("./").unwrap(), "/cwd");
    assert_eq!(table.resolve("/etc/passwd"), Err(PathError::NotCapable));
    assert_eq!(table.resolve("/tmp/../etc"), Err(PathError::NotCapable));
    assert_eq!(table.resolve(""), Err(PathError::NotFound));
}

#[test]
fn root_preopen_covers_every_path() {
    let table = PreopenTable::new(None, &vec![preopen("/sandbox", "/")]).unwrap();
    assert_eq!(table.resolve("/a/b").unwrap(), "/sandbox/a/b");
    assert_eq!(table.resolve("/").unwrap(), "/sandbox");
    assert_eq!(table.resolve("rel").unwrap(), "/sandbox/rel");
}

#[test]
fn earlier_preopen_wins_among_equal_lengths() {
    let table = PreopenTable::new(
        None,
        &vec![preopen("/first", "/tmp"), preopen("/second", "/tmp/")],
    )
    .unwrap();
    assert_eq!(table.resolve("/tmp/f").unwrap(), "/first/f");
}

#[test]
fn without_preopens_every_path_is_refused() {
    let table = PreopenTable::new(None, &Vec::new()).unwrap();
    assert_eq!(table.resolve("/tmp"), Err(PathError::NotCapable));
    assert_eq!(table.resolve("a"), Err(PathError::NotCapable));
}

#[test]
fn table_construction_rejects_bad_guest_paths() {
    assert_eq!(
        PreopenTable::new(None, &vec![preopen("/run", "/tmp"), preopen("/x", "..")]).err(),
        Some(PathError::NotCapable)
    );
}

#[test]
fn resolved_paths_stay_inside_their_preopen() {
    let table = PreopenTable::new(
        Some("/cwd".to_string()),
        &vec![preopen("/run", "/tmp"), preopen("/data", "/tmp/data")],
    )
    .unwrap();
    let paths = ["/tmp/a/../b", "/tmp/data/./x/..", "x/../y", "/tmp/data/../../tmp/z", "../x"];
    let mut resolved = 0;
    for path in paths {
        if let Ok(host) = table.resolve(path) {
            resolved += 1;
            assert!(["/cwd", "/run", "/data"].iter().any(|root| host.starts_with(root)));
            assert!(host.split('/').all(|component| component != ".."));
        }
    }
    assert_eq!(resolved, 4);
    assert_eq!(table.resolve("/tmp/data/../../tmp/z").unwrap(), "/run/z");
}

#[test]
fn refuses_components_that_are_not_plain_names_on_every_host() {
    for path in ["..\\x", "/tmp/a\\b", "C:/x", "/tmp/C:", "a/b:c", "\\\\server\\share"] {
        assert_eq!(normalize_guest_path(path), Err(PathError::NotCapable));
    }
    let table = PreopenTable::new(None, &vec![preopen("/run", "/tmp")]).unwrap();
    assert_eq!(table.resolve("/tmp/..\\..\\etc"), Err(PathError::NotCapable));
    assert_eq!(table.resolve("/tmp/c:\\windows"), Err(PathError::NotCapable));
    assert_eq!(table.resolve("/tmp/data/ib_logfile0").unwrap(), "/run/data/ib_logfile0");
}

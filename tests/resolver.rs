use beach::ast_types::Definition;
use beach::resolver::{normalize_path, Resolver};

#[test]
fn import_cycle_reads_each_file_once() {
    let mut r = Resolver::new(
        "/opt/beach/stdlib".to_string(),
        "proj/a.beach".to_string(),
        "system core_io; ".to_string(),
        "file b; system from_a;".to_string(),
    )
    .unwrap();
    assert_eq!(r.next_fetch(), Some("proj/b.beach".to_string()));
    r.supply("file c; system from_b;".to_string()).unwrap();
    assert_eq!(r.next_fetch(), Some("proj/c.beach".to_string()));
    r.supply("file a; system from_c;".to_string()).unwrap();
    assert_eq!(r.next_fetch(), None);
    let p = r.finish();
    let systems: Vec<String> = p
        .definitions
        .iter()
        .filter_map(|d| match d {
            Definition::System { label } => Some(label.clone()),
            _ => None,
        })
        .collect();
    assert_eq!(systems, vec!["core_io", "from_a", "from_b", "from_c"]);
}

#[test]
fn library_imports_resolve_under_the_stdlib_root() {
    let mut r = Resolver::new(
        "/lib/beach".to_string(),
        "main.beach".to_string(),
        String::new(),
        "include io:print; !!core mem/alloc; file util;".to_string(),
    )
    .unwrap();
    assert_eq!(r.next_fetch(), Some("/lib/beach/std/io/print.beach".to_string()));
    r.supply("include io:print;".to_string()).unwrap();
    assert_eq!(r.next_fetch(), Some("/lib/beach/core/mem/alloc.beach".to_string()));
    r.supply(String::new()).unwrap();
    assert_eq!(r.next_fetch(), Some("util.beach".to_string()));
    r.supply(String::new()).unwrap();
    assert_eq!(r.next_fetch(), None);
}

#[test]
fn a_bad_file_stops_resolution() {
    let mut r = Resolver::new(String::new(), "a.beach".to_string(), String::new(), "file b;".to_string()).unwrap();
    assert!(r.supply("main {".to_string()).is_err());
}

#[test]
fn two_spellings_of_one_file_are_one_file() {
    let mut r = Resolver::new(
        String::new(),
        "/p/top.beach".to_string(),
        String::new(),
        "file sub:b; system m;".to_string(),
    )
    .unwrap();
    assert_eq!(r.next_fetch(), Some("/p/sub/b.beach".to_string()));
    r.supply("file ..:top; system b;".to_string()).unwrap();
    assert_eq!(r.next_fetch(), None);
    assert_eq!(r.finish().definitions.len(), 4);
}

#[test]
fn paths_are_normalised() {
    assert_eq!(normalize_path(&"a/./b//c/../d".to_string()), "a/b/d");
    assert_eq!(normalize_path(&"/../x".to_string()), "/x");
    assert_eq!(normalize_path(&"../a/..".to_string()), "..");
    assert_eq!(normalize_path(&"/p/sub/../main.beach".to_string()), "/p/main.beach");
}

#[test]
fn only_includes_fall_back() {
    let mut r = Resolver::new(
        "/lib".to_string(),
        "main.beach".to_string(),
        String::new(),
        "include io:print; file util;".to_string(),
    )
    .unwrap();
    assert_eq!(r.next_fallback(), Some("/lib/std/io.beach".to_string()));
    r.supply(String::new()).unwrap();
    assert_eq!(r.next_fetch(), Some("util.beach".to_string()));
    assert_eq!(r.next_fallback(), None);
}

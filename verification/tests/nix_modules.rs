//! The import graph: the local paths an `imports` list names, and the
//! depth-first walk from the entry file.
use nixman_core::nix::modules::{build_graph, imports_in, next_to_read};
use nixman_core::nix::reader::parse_string;
use nixman_core::nix::resolver::{ModuleGraph, ResolveError};

const DIR: &str = "/cfg";

/// The table a caller reads for the files `files` (name and source) of
/// directory `/cfg`: each file with its imports, resolved against the
/// directory and kept when the file exists.
fn table(files: &[(&str, &str)]) -> Vec<(String, Result<Vec<String>, String>)> {
    let exists = |p: &str| files.iter().any(|(n, _)| format!("{DIR}/{n}") == p);
    files
        .iter()
        .map(|(name, src)| {
            let path = format!("{DIR}/{name}");
            let entry = match parse_string(src) {
                Ok(f) => Ok(imports_in(&f)
                    .into_iter()
                    .map(|raw| {
                        if raw.starts_with('/') {
                            raw
                        } else {
                            format!("{DIR}/{}", raw.trim_start_matches("./"))
                        }
                    })
                    .filter(|p| exists(p))
                    .collect()),
                Err(e) => Err(e.message()),
            };
            (path, entry)
        })
        .collect()
}

fn imports_of<'a>(g: &'a ModuleGraph, file: &str) -> &'a Vec<String> {
    &g.modules.iter().find(|(f, _)| f == file).expect("module").1
}

#[test]
fn entry_only_no_imports() {
    let t = table(&[("config.nix", "{ services.nginx.enable = true; }")]);
    let graph = build_graph("/cfg/config.nix", &t).expect("should build graph");
    assert_eq!(graph.entry_file, "/cfg/config.nix");
    assert_eq!(graph.modules.len(), 1);
    assert!(imports_of(&graph, &graph.entry_file).is_empty());
}

#[test]
fn follows_one_import() {
    let t = table(&[("hardware.nix", "{ }"), ("config.nix", "{ imports = [ ./hardware.nix ]; }")]);
    let graph = build_graph("/cfg/config.nix", &t).expect("should build graph");
    assert_eq!(graph.modules.len(), 2);
    assert!(imports_of(&graph, "/cfg/config.nix").contains(&"/cfg/hardware.nix".to_string()));
    assert!(imports_of(&graph, "/cfg/hardware.nix").is_empty());
}

#[test]
fn follows_nested_imports() {
    let t = table(&[
        ("leaf.nix", "{ }"),
        ("mid.nix", "{ imports = [ ./leaf.nix ]; }"),
        ("entry.nix", "{ imports = [ ./mid.nix ]; }"),
    ]);
    let graph = build_graph("/cfg/entry.nix", &t).expect("should build graph");
    assert_eq!(graph.modules.len(), 3);
    let order: Vec<&str> = graph.modules.iter().map(|(f, _)| f.as_str()).collect();
    assert_eq!(order, ["/cfg/entry.nix", "/cfg/mid.nix", "/cfg/leaf.nix"]);
}

#[test]
fn diamond_imports_no_duplicate() {
    let t = table(&[
        ("shared.nix", "{ }"),
        ("left.nix", "{ imports = [ ./shared.nix ]; }"),
        ("right.nix", "{ imports = [ ./shared.nix ]; }"),
        ("entry.nix", "{ imports = [ ./left.nix ./right.nix ]; }"),
    ]);
    let graph = build_graph("/cfg/entry.nix", &t).expect("should handle diamond");
    assert_eq!(graph.modules.len(), 4);
}

#[test]
fn detects_direct_cycle() {
    let t = table(&[("a.nix", "{ imports = [ ./b.nix ]; }"), ("b.nix", "{ imports = [ ./a.nix ]; }")]);
    let err = build_graph("/cfg/a.nix", &t).expect_err("should detect cycle");
    assert!(matches!(err, ResolveError::CyclicImport(_)));
}

#[test]
fn entry_not_found_returns_error() {
    let err = build_graph("/this/path/does/not/exist.nix", &Vec::new()).expect_err("should fail");
    assert!(matches!(err, ResolveError::FileNotFound(_)));
}

#[test]
fn skips_unresolvable_path_items() {
    let t = table(&[("config.nix", "{ imports = [ <nixpkgs/nixos> ]; }")]);
    let graph = build_graph("/cfg/config.nix", &t).expect("should build graph");
    assert_eq!(graph.modules.len(), 1);
    assert!(imports_of(&graph, &graph.entry_file).is_empty());
}

#[test]
fn lambda_form_imports() {
    let t = table(&[("hw.nix", "{ }"), ("config.nix", "{ config, pkgs, ... }:\n{ imports = [ ./hw.nix ]; }")]);
    let graph = build_graph("/cfg/config.nix", &t).expect("lambda form should work");
    assert_eq!(graph.modules.len(), 2);
}

#[test]
fn imports_in_lists_local_paths_only() {
    let f = parse_string("{ imports = [ ./a.nix /etc/b.nix <nixpkgs/x> (import ./c.nix) ]; }").unwrap();
    assert_eq!(imports_in(&f), vec!["./a.nix", "/etc/b.nix"]);
    let f = parse_string("{ imports = ./a.nix; }").unwrap();
    assert!(imports_in(&f).is_empty());
    let f = parse_string("{ }").unwrap();
    assert!(imports_in(&f).is_empty());
}

#[test]
fn parse_error_of_imported_file_is_reported() {
    let t = table(&[("bad.nix", "{ a = ; }"), ("entry.nix", "{ imports = [ ./bad.nix ]; }")]);
    match build_graph("/cfg/entry.nix", &t) {
        Err(ResolveError::ParseError(f, m)) => {
            assert_eq!(f, "/cfg/bad.nix");
            assert!(m.starts_with("syntax error at 1:"), "{m}");
        }
        other => panic!("unexpected {:?}", other),
    }
}

#[test]
fn self_import_is_a_cycle() {
    let t = table(&[("a.nix", "{ imports = [ ./a.nix ]; }")]);
    match build_graph("/cfg/a.nix", &t) {
        Err(ResolveError::CyclicImport(f)) => assert_eq!(f, "/cfg/a.nix"),
        other => panic!("unexpected {:?}", other),
    }
}

#[test]
fn next_to_read_fills_the_table_until_closed() {
    let mut t: Vec<(String, Result<Vec<String>, String>)> = Vec::new();
    assert_eq!(next_to_read("/cfg/config.nix", &t), Some("/cfg/config.nix".to_string()));
    t.push(("/cfg/config.nix".to_string(), Ok(vec!["/cfg/a.nix".to_string(), "/cfg/b.nix".to_string()])));
    assert_eq!(next_to_read("/cfg/config.nix", &t), Some("/cfg/a.nix".to_string()));
    t.push(("/cfg/a.nix".to_string(), Err("bad".to_string())));
    assert_eq!(next_to_read("/cfg/config.nix", &t), Some("/cfg/b.nix".to_string()));
    t.push(("/cfg/b.nix".to_string(), Ok(vec!["/cfg/config.nix".to_string()])));
    assert_eq!(next_to_read("/cfg/config.nix", &t), None);
}

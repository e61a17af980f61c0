//! Where an option is set across the files of a configuration, and where a
//! new one goes.
use nixman_core::nix::modules::{build_graph, imports_in};
use nixman_core::nix::reader::{parse_string, NixFile};
use nixman_core::nix::resolver::{locate, locate_all, suggest_file, ModuleGraph, ResolveError};

const DIR: &str = "/cfg";

fn path(name: &str) -> String {
    format!("{DIR}/{name}")
}

/// The import table a caller reads for the files of directory `/cfg`.
fn import_table(files: &[(&str, &str)]) -> Vec<(String, Result<Vec<String>, String>)> {
    let exists = |p: &str| files.iter().any(|(n, _)| path(n) == p);
    files
        .iter()
        .map(|(name, src)| {
            let entry = match parse_string(src) {
                Ok(f) => Ok(imports_in(&f)
                    .into_iter()
                    .map(|raw| path(raw.trim_start_matches("./")))
                    .filter(|p| exists(p))
                    .collect()),
                Err(e) => Err(e.message()),
            };
            (path(name), entry)
        })
        .collect()
}

/// The graph from `config.nix` and each of its files parsed, as a caller
/// reading them from disk would hand them over.
fn setup(files: &[(&str, &str)]) -> (ModuleGraph, Vec<(String, Result<NixFile, String>)>) {
    let graph = build_graph(&path("config.nix"), &import_table(files)).unwrap();
    let parsed = graph
        .all_files()
        .into_iter()
        .map(|f| {
            let src = files.iter().find(|(n, _)| path(n) == f).unwrap().1;
            (f, parse_string(src).map_err(|e| e.message()))
        })
        .collect();
    (graph, parsed)
}

#[test]
fn locate_finds_option_in_entry() {
    let (graph, parsed) = setup(&[("config.nix", "{ services.nginx.enable = true; }")]);
    let result = locate(&graph, &parsed, "services.nginx.enable").unwrap();
    assert!(result.exists);
    assert_eq!(result.file, path("config.nix"));
    assert!(result.range.is_some());
}

#[test]
fn locate_returns_correct_range() {
    let src = "{ services.nginx.enable = true; }";
    let (graph, parsed) = setup(&[("config.nix", src)]);
    let result = locate(&graph, &parsed, "services.nginx.enable").unwrap();
    let range = result.range.expect("range should be present");
    assert_eq!(&src[range.start..range.end], "true");
}

#[test]
fn locate_finds_option_in_imported_file() {
    let (graph, parsed) = setup(&[
        ("services.nix", "{ services.nginx.enable = true; }"),
        ("config.nix", "{ imports = [ ./services.nix ]; }"),
    ]);
    let result = locate(&graph, &parsed, "services.nginx.enable").unwrap();
    assert!(result.exists);
    assert_eq!(result.file, path("services.nix"));
}

#[test]
fn locate_not_found_returns_exists_false() {
    let (graph, parsed) = setup(&[("config.nix", "{ }")]);
    let result = locate(&graph, &parsed, "services.nginx.enable").unwrap();
    assert!(!result.exists);
    assert!(result.range.is_none());
}

#[test]
fn locate_returns_ambiguous_when_set_in_multiple_files() {
    let (graph, parsed) = setup(&[
        ("a.nix", "{ services.nginx.enable = true; }"),
        ("config.nix", "{ imports = [ ./a.nix ]; services.nginx.enable = false; }"),
    ]);
    let err = locate(&graph, &parsed, "services.nginx.enable").expect_err("should be ambiguous");
    assert!(matches!(err, ResolveError::Ambiguous(paths) if paths.len() == 2));
}

#[test]
fn suggest_falls_back_to_entry_when_no_match() {
    let (graph, parsed) = setup(&[("config.nix", "{ }")]);
    assert_eq!(suggest_file(&graph, &parsed, "some.unknown.option"), path("config.nix"));
}

#[test]
fn suggest_uses_services_module_by_name() {
    let (graph, parsed) = setup(&[
        ("services.nix", "{ }"),
        ("config.nix", "{ imports = [ ./services.nix ]; }"),
    ]);
    assert_eq!(suggest_file(&graph, &parsed, "services.nginx.enable"), path("services.nix"));
}

#[test]
fn suggest_uses_networking_module_by_name() {
    let (graph, parsed) = setup(&[
        ("networking.nix", "{ }"),
        ("config.nix", "{ imports = [ ./networking.nix ]; }"),
    ]);
    assert_eq!(suggest_file(&graph, &parsed, "networking.hostName"), path("networking.nix"));
}

#[test]
fn suggest_prefers_deeper_prefix_match() {
    let (graph, parsed) = setup(&[
        ("services.nix", "{ services = {}; }"),
        ("other.nix", "{ }"),
        ("config.nix", "{ imports = [ ./services.nix ./other.nix ]; }"),
    ]);
    assert_eq!(suggest_file(&graph, &parsed, "services.nginx.enable"), path("services.nix"));
}

#[test]
fn locate_all_returns_multiple_candidates() {
    let (_graph, parsed) = setup(&[
        ("a.nix", "{ environment.systemPackages = with pkgs; [ a b c d e ]; }"),
        ("config.nix", "{ imports = [ ./a.nix ]; environment.systemPackages = [ x ]; }"),
    ]);
    let candidates = locate_all(&parsed, "environment.systemPackages").unwrap();
    assert_eq!(candidates.len(), 2);
    let counts: Vec<usize> = candidates.iter().map(|c| c.item_count).collect();
    assert!(counts.contains(&5), "expected a candidate with item_count=5");
    assert!(counts.contains(&1), "expected a candidate with item_count=1");
}

#[test]
fn locate_all_returns_empty_when_not_found() {
    let (_graph, parsed) = setup(&[("config.nix", "{ }")]);
    let candidates = locate_all(&parsed, "environment.systemPackages").unwrap();
    assert!(candidates.is_empty());
}

#[test]
fn locate_all_single_file_returns_one_candidate() {
    let (_graph, parsed) = setup(&[("config.nix", "{ environment.systemPackages = [ vim git ]; }")]);
    let candidates = locate_all(&parsed, "environment.systemPackages").unwrap();
    assert_eq!(candidates.len(), 1);
    assert_eq!(candidates[0].item_count, 2);
    assert_eq!(candidates[0].file, path("config.nix"));
}

//! Generation bookkeeping: store-path and listing parsers, sorting,
//! package diffs, collection reports and error texts.
use nixman_core::generations::diff::{diff_packages, sort_newest_first};
use nixman_core::generations::parse::{
    deleted_generations, freed_size_readings, packages_in_references, parse_deleted_generation, parse_generation_number,
    parse_kernel_version_from_store_name, parse_store_path,
};
use nixman_core::generations::types::{GcResult, Generation, GenerationDiff, GenerationError};

fn sp(path: &str) -> (String, String) {
    parse_store_path(path)
}

#[test]
fn parse_simple_package() {
    let hash = "a".repeat(32);
    assert_eq!(sp(&format!("/nix/store/{hash}-firefox-100.0.1")), ("firefox".into(), "100.0.1".into()));
}

#[test]
fn parse_multi_word_name() {
    let hash = "b".repeat(32);
    assert_eq!(
        sp(&format!("/nix/store/{hash}-gnome-shell-42.0")),
        ("gnome-shell".into(), "42.0".into())
    );
}

#[test]
fn parse_hyphenated_version() {
    let hash = "c".repeat(32);
    assert_eq!(
        sp(&format!("/nix/store/{hash}-bash-interactive-5.1-p16")),
        ("bash-interactive".into(), "5.1-p16".into())
    );
}

#[test]
fn parse_no_version() {
    let hash = "d".repeat(32);
    let (name, ver) = sp(&format!("/nix/store/{hash}-nixpkgs"));
    assert_eq!(name, "nixpkgs");
    assert_eq!(ver, "");
}

#[test]
fn diff_logic() {
    let older = vec![("firefox".to_string(), "99.0".to_string()), ("bash".to_string(), "5.1".to_string())];
    let newer = vec![("firefox".to_string(), "100.0".to_string()), ("curl".to_string(), "7.88".to_string())];
    let d = diff_packages(&older, &newer);
    assert_eq!(d.added_packages, vec!["curl"]);
    assert_eq!(d.removed_packages, vec!["bash"]);
    assert_eq!(d.changed_packages, vec![("firefox".into(), "99.0".into(), "100.0".into())]);
}

#[test]
fn diff_is_sorted_and_last_entry_wins() {
    let older = vec![
        ("zsh".to_string(), "5.9".to_string()),
        ("bash".to_string(), "5.1".to_string()),
        ("bash".to_string(), "5.2".to_string()),
    ];
    let newer = vec![
        ("yq".to_string(), "4".to_string()),
        ("bash".to_string(), "5.2".to_string()),
        ("awk".to_string(), "1".to_string()),
    ];
    let d = diff_packages(&older, &newer);
    assert_eq!(d.added_packages, vec!["awk", "yq"]);
    assert_eq!(d.removed_packages, vec!["zsh"]);
    assert!(d.changed_packages.is_empty());
}

#[test]
fn parse_deleted_generation_valid() {
    assert_eq!(parse_deleted_generation("removing generation 5"), Some(5));
    assert_eq!(parse_deleted_generation("  removing generation 12  "), Some(12));
}

#[test]
fn parse_deleted_generation_invalid() {
    assert_eq!(parse_deleted_generation("keeping generation 3"), None);
    assert_eq!(parse_deleted_generation("removing generation abc"), None);
    assert_eq!(parse_deleted_generation(""), None);
}

#[test]
fn freed_readings_from_gc_output() {
    let r = freed_size_readings("23 store paths deleted, 1.23 MiB freed.\n");
    assert_eq!(r, vec![("1.23".to_string(), 1024 * 1024)]);
    let r = freed_size_readings("100 store paths deleted, 2.50 GiB freed.\n");
    assert_eq!(r, vec![("2.50".to_string(), 1024 * 1024 * 1024)]);
    let r = freed_size_readings("0 store paths deleted, 0.00 MiB freed.\n");
    assert_eq!(r, vec![("0.00".to_string(), 1024 * 1024)]);
    assert!(freed_size_readings("nothing happened\n").is_empty());
    let r = freed_size_readings("3 paths, 12 B freed\n");
    assert_eq!(r, vec![("12".to_string(), 1)]);
}

#[test]
fn parse_generation_number_valid() {
    assert_eq!(parse_generation_number("system-1-link"), Some(1));
    assert_eq!(parse_generation_number("system-42-link"), Some(42));
    assert_eq!(parse_generation_number("system-100-link"), Some(100));
}

#[test]
fn parse_generation_number_invalid() {
    assert_eq!(parse_generation_number("system"), None);
    assert_eq!(parse_generation_number("system-link"), None);
    assert_eq!(parse_generation_number("system-abc-link"), None);
    assert_eq!(parse_generation_number("system-42"), None);
}

#[test]
fn parse_kernel_version_typical() {
    let hash = "a".repeat(32);
    let name = format!("{hash}-linux-5.15.74-x86_64-linux");
    assert_eq!(parse_kernel_version_from_store_name(Some(&name)), "5.15.74");
}

#[test]
fn parse_kernel_version_no_hash() {
    assert_eq!(parse_kernel_version_from_store_name(Some("linux-6.1.0-x86_64-linux")), "6.1.0");
}

#[test]
fn parse_kernel_version_unknown() {
    assert_eq!(parse_kernel_version_from_store_name(None), "unknown");
}

fn mock_gen(number: u32, is_current: bool) -> Generation {
    Generation {
        number,
        date: chrono::Utc::now().timestamp(),
        nixos_version: format!("23.11.{}", number),
        kernel_version: "6.1.0".to_string(),
        path: format!("/nix/store/fake-gen-{}", number),
        is_current,
    }
}

#[test]
fn test_generation_sort_descending() {
    let gens = vec![mock_gen(1, false), mock_gen(5, false), mock_gen(3, false)];
    let gens = sort_newest_first(gens);
    assert_eq!(gens[0].number, 5);
    assert_eq!(gens[1].number, 3);
    assert_eq!(gens[2].number, 1);
}

#[test]
fn test_generation_sort_single() {
    let gens = sort_newest_first(vec![mock_gen(42, true)]);
    assert_eq!(gens[0].number, 42);
}

#[test]
fn sort_is_stable_for_equal_numbers() {
    let mut a = mock_gen(2, false);
    a.nixos_version = "first".into();
    let mut b = mock_gen(2, false);
    b.nixos_version = "second".into();
    let gens = sort_newest_first(vec![mock_gen(1, false), a, mock_gen(3, true), b]);
    let order: Vec<(u32, String)> = gens.iter().map(|g| (g.number, g.nixos_version.clone())).collect();
    assert_eq!(
        order,
        vec![
            (3, "23.11.3".to_string()),
            (2, "first".to_string()),
            (2, "second".to_string()),
            (1, "23.11.1".to_string()),
        ]
    );
}

#[test]
fn test_generation_is_current_flag() {
    let gens = vec![mock_gen(10, false), mock_gen(11, false), mock_gen(12, true)];
    let current: Vec<&Generation> = gens.iter().filter(|g| g.is_current).collect();
    assert_eq!(current.len(), 1);
    assert_eq!(current[0].number, 12);
}

#[test]
fn test_generation_no_current() {
    let gens = vec![mock_gen(1, false), mock_gen(2, false)];
    assert!(gens.iter().all(|g| !g.is_current));
}

#[test]
fn test_generation_nixos_version() {
    let gen = mock_gen(7, false);
    assert_eq!(gen.nixos_version, "23.11.7");
}

#[test]
fn test_generation_diff_fields() {
    let diff = GenerationDiff {
        added_packages: vec!["ripgrep-14.0.0".into(), "bat-0.24.0".into()],
        removed_packages: vec!["grep-3.8".into()],
        changed_packages: vec![("neovim".into(), "0.9.0".into(), "0.9.5".into())],
    };
    assert_eq!(diff.added_packages.len(), 2);
    assert_eq!(diff.removed_packages.len(), 1);
    assert_eq!(diff.changed_packages.len(), 1);
    assert_eq!(diff.changed_packages[0].0, "neovim");
    assert_eq!(diff.changed_packages[0].1, "0.9.0");
    assert_eq!(diff.changed_packages[0].2, "0.9.5");
}

#[test]
fn test_generation_diff_empty() {
    let diff = GenerationDiff { added_packages: vec![], removed_packages: vec![], changed_packages: vec![] };
    assert!(diff.added_packages.is_empty());
    assert!(diff.removed_packages.is_empty());
    assert!(diff.changed_packages.is_empty());
}

#[test]
fn test_gc_result_fields() {
    let result = GcResult { freed_bytes: 1_234_567_890, deleted_generations: vec![1, 2, 3, 4, 5] };
    assert_eq!(result.freed_bytes, 1_234_567_890);
    assert_eq!(result.deleted_generations.len(), 5);
    assert_eq!(result.deleted_generations[0], 1);
    assert_eq!(result.deleted_generations[4], 5);
}

#[test]
fn test_gc_result_no_deleted_gens() {
    let result = GcResult { freed_bytes: 512, deleted_generations: vec![] };
    assert!(result.deleted_generations.is_empty());
    assert_eq!(result.freed_bytes, 512);
}

#[test]
fn test_generation_error_display() {
    let variants: Vec<GenerationError> = vec![
        GenerationError::IoError("not found".into()),
        GenerationError::ParseError("unexpected format".into()),
        GenerationError::CommandFailed { exit_code: 1, stderr: "error output".into() },
        GenerationError::GenerationNotFound(99),
    ];
    for variant in &variants {
        let msg = variant.message();
        assert!(!msg.is_empty(), "Display for variant should produce non-empty string");
    }
}

#[test]
fn test_generation_error_not_found_message() {
    let err = GenerationError::GenerationNotFound(42);
    assert!(err.message().contains("42"));
}

#[test]
fn test_generation_error_command_failed_message() {
    let err = GenerationError::CommandFailed { exit_code: 126, stderr: "permission denied".into() };
    let msg = err.message();
    assert!(msg.contains("126"));
    assert!(msg.contains("permission denied"));
}

#[test]
fn generation_error_exact_texts() {
    assert_eq!(GenerationError::GenerationNotFound(7).message(), "generation 7 not found");
    assert_eq!(
        GenerationError::CommandFailed { exit_code: -1, stderr: "x".into() }.message(),
        "command failed (exit -1): x"
    );
    assert_eq!(GenerationError::IoError("boom".into()).message(), "I/O error: boom");
}

#[test]
fn deleted_generations_are_sorted() {
    let out = "removing generation 12\nkeeping generation 3\n  removing generation 5  \nremoving generation 9\n";
    assert_eq!(deleted_generations(out), vec![5, 9, 12]);
    assert!(deleted_generations("").is_empty());
}

#[test]
fn references_become_packages() {
    let hash = "a".repeat(32);
    let out = format!("/nix/store/{hash}-firefox-100.0\n\n  /nix/store/{hash}-bash-5.1  \n/nix/store/{hash}-nixpkgs\n");
    assert_eq!(
        packages_in_references(&out),
        vec![
            ("firefox".to_string(), "100.0".to_string()),
            ("bash".to_string(), "5.1".to_string()),
            ("nixpkgs".to_string(), String::new()),
        ]
    );
}

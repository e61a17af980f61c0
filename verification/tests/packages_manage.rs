//! Adding, removing and listing packages in a list option of a parsed
//! configuration file.
use nixman_core::nix::reader::parse_string;
use nixman_core::packages::manage::{add_package_in, list_packages_in, remove_package_in};
use nixman_core::packages::types::PackageError;

/// The source with `pkg` added to the list at `option_path`, or unchanged
/// when the list holds it already.
fn added(src: &str, option_path: &str, pkg: &str) -> String {
    let file = parse_string(src).unwrap();
    match add_package_in(&file, option_path, pkg).unwrap() {
        Some(s) => s,
        None => src.to_string(),
    }
}

/// The source with `pkg` removed from the list at `option_path`.
fn removed(src: &str, option_path: &str, pkg: &str) -> String {
    let file = parse_string(src).unwrap();
    remove_package_in(&file, option_path, pkg).unwrap()
}

#[test]
fn add_to_with_pkgs_multiline() {
    let src = "{ config, pkgs, ... }:\n{\n  environment.systemPackages = with pkgs; [\n    vim\n    git\n  ];\n}";

    let result = added(src, "environment.systemPackages", "firefox");
    assert!(result.contains("firefox"), "firefox should be added");
    assert!(result.contains("vim"), "vim should be preserved");
    assert!(result.contains("git"), "git should be preserved");
    parse_string(&result).expect("result should be valid Nix");
}

#[test]
fn add_to_qualified_list() {
    let src = "{ config, pkgs, ... }:\n{\n  environment.systemPackages = [ pkgs.vim pkgs.git ];\n}";

    let result = added(src, "environment.systemPackages", "btop");
    assert!(result.contains("pkgs.btop"), "pkgs.btop should be added");
    assert!(result.contains("pkgs.vim"), "pkgs.vim should be preserved");
    parse_string(&result).expect("result should be valid Nix");
}

#[test]
fn add_to_empty_list() {
    let src = "{ config, pkgs, ... }:\n{\n  environment.systemPackages = with pkgs; [ ];\n}";

    let result = added(src, "environment.systemPackages", "vim");
    assert!(result.contains("vim"), "vim should be added");
    parse_string(&result).expect("result should be valid Nix");
}

#[test]
fn remove_from_with_pkgs_single_line() {
    let src = "{ config, pkgs, ... }:\n{\n  environment.systemPackages = with pkgs; [ vim git ];\n}";

    let result = removed(src, "environment.systemPackages", "vim");
    // "vim" must not appear as a standalone token — but "git" must survive
    assert!(!result.contains("vim"), "vim should be removed");
    assert!(result.contains("git"), "git should be preserved");
    parse_string(&result).expect("result should be valid Nix");
}

#[test]
fn remove_from_with_pkgs_multiline() {
    let src = "{ config, pkgs, ... }:\n{\n  environment.systemPackages = with pkgs; [\n    vim\n    git\n    firefox\n  ];\n}";

    let result = removed(src, "environment.systemPackages", "git");
    assert!(!result.contains("git"), "git should be removed");
    assert!(result.contains("vim"), "vim should be preserved");
    assert!(result.contains("firefox"), "firefox should be preserved");
    parse_string(&result).expect("result should be valid Nix");
}

#[test]
fn remove_nonexistent_returns_error() {
    let src = "{ config, pkgs, ... }:\n{\n  environment.systemPackages = with pkgs; [ vim ];\n}";

    let file = parse_string(src).unwrap();
    let err = remove_package_in(&file, "environment.systemPackages", "firefox").unwrap_err();
    assert!(
        matches!(err, PackageError::NotInConfig(_)),
        "expected NotInConfig, got {err:?}"
    );
}

#[test]
fn add_duplicate_is_noop() {
    let src = "{ config, pkgs, ... }:\n{\n  environment.systemPackages = with pkgs; [ vim git ];\n}";

    let result = added(src, "environment.systemPackages", "vim");
    // Count standalone "vim" occurrences — should still be exactly one.
    let count = result.split_whitespace().filter(|w| *w == "vim").count();
    assert_eq!(count, 1, "vim should appear exactly once, got: {result}");
}

#[test]
fn preserves_comments_and_surrounding_content() {
    let src = "# My NixOS config\n{ config, pkgs, ... }:\n{\n  # Installed packages\n  environment.systemPackages = with pkgs; [\n    vim # text editor\n    git\n  ];\n  # End of config\n}";

    let result = added(src, "environment.systemPackages", "firefox");
    assert!(result.contains("# My NixOS config"), "file comment preserved");
    assert!(result.contains("# Installed packages"), "block comment preserved");
    assert!(result.contains("vim # text editor"), "inline comment preserved");
    assert!(result.contains("# End of config"), "trailing comment preserved");
    assert!(result.contains("firefox"), "firefox should be present");
    parse_string(&result).expect("result should be valid Nix");
}

#[test]
fn list_installed_returns_package_names() {
    let src = "{ config, pkgs, ... }:\n{\n  environment.systemPackages = with pkgs; [ vim git firefox ];\n}";

    let file = parse_string(src).unwrap();
    let packages = list_packages_in(&file, "environment.systemPackages");
    assert!(packages.contains(&"vim".to_string()));
    assert!(packages.contains(&"git".to_string()));
    assert!(packages.contains(&"firefox".to_string()));
}

// ── add_in_list / remove_from_list / list_installed_in_list ────────────
//

#[test]
fn add_in_list_hm_home_packages() {
    let src = "{ config, pkgs, ... }:\n{\n  home.packages = with pkgs; [ vim git ];\n}";

    let result = added(src, "home.packages", "firefox");
    assert!(result.contains("firefox"), "firefox should be added");
    assert!(result.contains("vim"), "vim should be preserved");
    parse_string(&result).expect("result should be valid Nix");
}

#[test]
fn add_in_list_home_packages_with_select() {
    let src = "{ config, pkgs, ... }:\n{\n  home.packages = [ pkgs.vim pkgs.git ];\n}";

    let result = added(src, "home.packages", "btop");
    assert!(result.contains("pkgs.btop"), "pkgs.btop should be added");
    parse_string(&result).expect("result should be valid Nix");
}

#[test]
fn remove_from_list_home_packages() {
    let src = "{ config, pkgs, ... }:\n{\n  home.packages = with pkgs; [ vim git firefox ];\n}";

    let result = removed(src, "home.packages", "git");
    assert!(!result.contains("git"), "git should be removed");
    assert!(result.contains("vim"), "vim should be preserved");
    parse_string(&result).expect("result should be valid Nix");
}

#[test]
fn list_installed_in_list_home_packages() {
    let src = "{ config, pkgs, ... }:\n{\n  home.packages = with pkgs; [ vim git firefox ];\n}";

    let file = parse_string(src).unwrap();
    let packages = list_packages_in(&file, "home.packages");
    assert!(packages.contains(&"vim".to_string()));
    assert!(packages.contains(&"git".to_string()));
    assert!(packages.contains(&"firefox".to_string()));
}

#[test]
fn add_present_package_changes_nothing() {
    let src = "{ config, pkgs, ... }:\n{\n  environment.systemPackages = with pkgs; [ vim git ];\n}";
    let file = parse_string(src).unwrap();
    assert!(add_package_in(&file, "environment.systemPackages", "vim").unwrap().is_none());
    let file = parse_string("{ home.packages = [ pkgs.vim ]; }").unwrap();
    assert!(add_package_in(&file, "home.packages", "vim").unwrap().is_none());
}

#[test]
fn list_names_of_both_forms() {
    let file = parse_string("{ a = with pkgs; [ vim kdePackages.dolphin ]; b = [ pkgs.htop pkgs.python3Packages.numpy ]; }").unwrap();
    assert_eq!(list_packages_in(&file, "a"), vec!["vim", "kdePackages.dolphin"]);
    assert_eq!(list_packages_in(&file, "b"), vec!["htop"]);
    assert!(list_packages_in(&file, "missing").is_empty());
}

#[test]
fn add_to_non_list_is_an_error() {
    let file = parse_string("{ environment.systemPackages = 3; }").unwrap();
    match add_package_in(&file, "environment.systemPackages", "vim") {
        Err(PackageError::ParseError(m)) => assert!(m.starts_with("option value is not a list"), "{m}"),
        other => panic!("unexpected {:?}", other),
    }
}

#[test]
fn add_then_add_again_changes_nothing() {
    let src = "{ pkgs, ... }:\n{\n  environment.systemPackages = with pkgs; [ vim git ];\n}\n";
    let once = added(src, "environment.systemPackages", "htop");
    let file = parse_string(&once).unwrap();
    assert!(add_package_in(&file, "environment.systemPackages", "htop").unwrap().is_none());
}

#[test]
fn add_then_remove_restores_the_source() {
    let one_line = "{ pkgs, ... }:\n{\n  environment.systemPackages = with pkgs; [ vim git ];\n}\n";
    let once = added(one_line, "environment.systemPackages", "htop");
    assert_eq!(removed(&once, "environment.systemPackages", "htop"), one_line);
}

#[test]
fn remove_keeps_other_items_and_comments_on_the_line() {
    let src = "{ pkgs, ... }:\n{\n  environment.systemPackages = with pkgs; [\n    vim git # tools\n    htop\n  ];\n}\n";
    assert_eq!(
        removed(src, "environment.systemPackages", "vim"),
        "{ pkgs, ... }:\n{\n  environment.systemPackages = with pkgs; [\n    git # tools\n    htop\n  ];\n}\n"
    );
    assert_eq!(
        removed(src, "environment.systemPackages", "git"),
        "{ pkgs, ... }:\n{\n  environment.systemPackages = with pkgs; [\n    vim # tools\n    htop\n  ];\n}\n"
    );
    assert_eq!(
        removed(src, "environment.systemPackages", "htop"),
        "{ pkgs, ... }:\n{\n  environment.systemPackages = with pkgs; [\n    vim git # tools\n  ];\n}\n"
    );
}

#[test]
fn remove_last_item_sharing_the_closing_bracket_line() {
    let src = "{ pkgs, ... }:\n{\n  environment.systemPackages = with pkgs; [\n    vim\n    git ];\n}\n";
    assert_eq!(
        removed(src, "environment.systemPackages", "git"),
        "{ pkgs, ... }:\n{\n  environment.systemPackages = with pkgs; [\n    vim\n    ];\n}\n"
    );
}

//! The pure steps of reading, queuing and removing options, and reading a
//! syntax check's outcome.
use nixman_core::config::editor::{not_set_error, old_value_of, option_value, queue_set, removed_source};
use nixman_core::config::pending::PendingChanges;
use nixman_core::config::types::{ConfigError, ValidationResult};
use nixman_core::config::validate::{check_outcome, require_valid};
use nixman_core::nix::format::NixValue;
use nixman_core::nix::resolver::ResolvedOption;
use nixman_core::nix::traversal::TextRange;
use nixman_core::nix::writer::WriteError;

fn module(body: &str) -> String {
    format!("{{ config, pkgs, ... }}: {{\n  {}\n}}", body)
}

#[test]
fn option_value_reads_set_option() {
    let src = module("services.nginx.enable = true;");
    assert_eq!(option_value(&src, "services.nginx.enable").unwrap(), NixValue::Bool(true));
}

#[test]
fn option_value_reads_list() {
    let src = module("environment.systemPackages = [ vim git ];");
    match option_value(&src, "environment.systemPackages").unwrap() {
        NixValue::List(items) => {
            assert_eq!(items.len(), 2);
            assert_eq!(items[0], NixValue::Expression("vim".to_string()));
            assert_eq!(items[1], NixValue::Expression("git".to_string()));
        }
        other => panic!("expected List, got {:?}", other),
    }
}

#[test]
fn option_value_missing_option() {
    match option_value(&module("a = 1;"), "b") {
        Err(ConfigError::ParseError(m)) => assert_eq!(m, "option 'b' unexpectedly missing after locate"),
        other => panic!("unexpected {:?}", other),
    }
}

#[test]
fn option_value_syntax_error() {
    match option_value("{ a = ; }", "a") {
        Err(ConfigError::ParseError(m)) => assert!(m.starts_with("syntax error at 1:"), "{m}"),
        other => panic!("unexpected {:?}", other),
    }
}

#[test]
fn old_value_of_cases() {
    let src = module("services.nginx.enable = true;");
    assert_eq!(old_value_of(&src, "services.nginx.enable"), Some(NixValue::Bool(true)));
    assert_eq!(old_value_of(&src, "services.nginx.port"), None);
    assert_eq!(old_value_of("{ broken", "x"), None);
}

#[test]
fn queue_set_records_change_and_replaces() {
    let mut pending = PendingChanges::new();
    let resolved = ResolvedOption { file: "/etc/nixos/configuration.nix".into(), exists: true, range: Some(TextRange::new(3, 7)) };
    queue_set(&mut pending, "services.nginx.enable", resolved, Some(NixValue::Bool(true)), NixValue::Bool(false), 10);
    assert_eq!(pending.count(), 1);
    let c = &pending.list()[0];
    assert_eq!(c.option_path, "services.nginx.enable");
    assert_eq!(c.old_value, Some(NixValue::Bool(true)));
    assert_eq!(c.new_value, NixValue::Bool(false));
    assert_eq!(c.range, Some(TextRange::new(3, 7)));
    assert!(c.file.ends_with("configuration.nix"));
    let resolved = ResolvedOption { file: "/etc/nixos/configuration.nix".into(), exists: true, range: Some(TextRange::new(3, 7)) };
    queue_set(&mut pending, "services.nginx.enable", resolved, None, NixValue::Bool(true), 11);
    assert_eq!(pending.count(), 1);
    assert_eq!(pending.list()[0].new_value, NixValue::Bool(true));
}

#[test]
fn not_set_error_text() {
    match not_set_error("services.nonexistent") {
        ConfigError::ParseError(m) => {
            assert!(m.contains("not set"));
            assert_eq!(m, "option 'services.nonexistent' is not set in the configuration");
        }
        other => panic!("unexpected {:?}", other),
    }
}

#[test]
fn removed_source_cases() {
    let src = "{\n  services.nginx.enable = true;\n  services.nginx.port = 8080;\n}\n";
    let out = removed_source(src, "services.nginx.enable").unwrap();
    assert!(!out.contains("services.nginx.enable"));
    assert!(out.contains("services.nginx.port"));
    match removed_source(src, "services.nonexistent") {
        Err(ConfigError::WriteError(WriteError::InsertionPointNotFound)) => {}
        other => panic!("unexpected {:?}", other),
    }
}

#[test]
fn check_outcome_cases() {
    assert!(matches!(check_outcome(true, "whatever"), ValidationResult::Valid));
    match check_outcome(false, "error: bad\n\n   \nat line 2\n") {
        ValidationResult::Invalid { errors } => assert_eq!(errors, vec!["error: bad", "at line 2"]),
        other => panic!("unexpected {:?}", other),
    }
    match check_outcome(false, "  \n") {
        ValidationResult::Invalid { errors } => {
            assert_eq!(errors, vec!["nix-instantiate exited with a non-zero status"])
        }
        other => panic!("unexpected {:?}", other),
    }
}

#[test]
fn require_valid_cases() {
    assert!(require_valid(ValidationResult::Valid).is_ok());
    match require_valid(ValidationResult::Invalid { errors: vec!["e".into()] }) {
        Err(ConfigError::ValidationFailed(es)) => assert_eq!(es, vec!["e"]),
        other => panic!("unexpected {:?}", other),
    }
}

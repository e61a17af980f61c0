//! The pending-changes buffer and applying queued changes to source text.
use nixman_core::config::pending::{apply_changes_to_source, group_by_file, PendingChanges};
use nixman_core::config::types::{ConfigError, PendingChange};
use nixman_core::nix::format::NixValue;
use nixman_core::nix::traversal::TextRange;
use nixman_core::nix::writer::WriteError;

/// A change with no existing range (a new insertion).
fn make_change(path: &str, value: NixValue) -> PendingChange {
    PendingChange {
        option_path: path.to_string(),
        file: "/tmp/config.nix".to_string(),
        old_value: None,
        new_value: value,
        range: None,
        timestamp: chrono::Utc::now().timestamp(),
    }
}

fn make_change_tmp(path: &str, value: NixValue) -> PendingChange {
    let mut c = make_change(path, value);
    c.file = "/tmp/test.nix".to_string();
    c
}

// Add and list

/// Adding a change and listing it back should reflect the buffered change.
#[test]
fn test_pending_add_and_list() {
    let mut pending = PendingChanges::new();

    pending.add(make_change("services.nginx.enable", NixValue::Bool(true)));
    pending.add(make_change("networking.hostname", NixValue::String("mybox".into())));

    assert_eq!(pending.count(), 2);

    let paths: Vec<&str> = pending.list().iter().map(|c| c.option_path.as_str()).collect();
    assert!(paths.contains(&"services.nginx.enable"));
    assert!(paths.contains(&"networking.hostname"));
}

/// A freshly created buffer has zero entries.
#[test]
fn test_pending_empty_on_creation() {
    let pending = PendingChanges::new();
    assert_eq!(pending.count(), 0);
    assert!(pending.list().is_empty());
}

// Discard (remove) a change

/// Discarding a specific change leaves the other changes intact.
#[test]
fn test_pending_discard() {
    let mut pending = PendingChanges::new();
    pending.add(make_change("services.nginx.enable", NixValue::Bool(true)));
    pending.add(make_change("networking.hostname", NixValue::String("x".into())));

    pending.remove("services.nginx.enable");

    assert_eq!(pending.count(), 1);
    assert_eq!(pending.list()[0].option_path, "networking.hostname");
}

/// Discarding a path that was never added is a no-op (no panic).
#[test]
fn test_pending_discard_nonexistent_is_noop() {
    let mut pending = PendingChanges::new();
    pending.add(make_change("a.b.c", NixValue::Bool(true)));

    pending.remove("x.y.z"); // not in buffer

    assert_eq!(pending.count(), 1, "count should be unchanged");
}

// Setting the same option twice replaces the earlier value

/// When the same option path is added twice, only the latest value is kept.
#[test]
fn test_pending_update_same_path() {
    let mut pending = PendingChanges::new();

    pending.add(make_change("services.nginx.enable", NixValue::Bool(false)));
    pending.add(make_change("services.nginx.enable", NixValue::Bool(true)));

    // Still one entry — not two.
    assert_eq!(pending.count(), 1);
    assert_eq!(pending.list()[0].new_value, NixValue::Bool(true));
}

/// Multiple consecutive updates to the same path keep only the last value.
#[test]
fn test_pending_update_same_path_multiple_times() {
    let mut pending = PendingChanges::new();

    for i in 0..5_i64 {
        pending.add(make_change("boot.loader.timeout", NixValue::Int(i)));
    }

    assert_eq!(pending.count(), 1);
    assert_eq!(pending.list()[0].new_value, NixValue::Int(4));
}

// Clear

/// `clear()` removes every buffered change.
#[test]
fn test_pending_clear() {
    let mut pending = PendingChanges::new();
    pending.add(make_change("a", NixValue::Bool(true)));
    pending.add(make_change("b", NixValue::Null));

    pending.clear();

    assert_eq!(pending.count(), 0);
    assert!(pending.list().is_empty());
}

// apply_changes_to_source

/// Inserting a new option that does not exist updates the source correctly.
#[test]
fn test_pending_apply_insert() {
    let source = "{\n  enable = true;\n}";
    let change = make_change("port", NixValue::Int(8080));

    let result = apply_changes_to_source(source, &[&change]).unwrap();

    assert!(result.contains("port = 8080;"));
    assert!(result.contains("enable = true;"));
}

/// Inserting two new options at once produces both in the output.
#[test]
fn test_pending_apply_multiple_inserts() {
    let source = "{\n}";
    let c1 = make_change("services.nginx.enable", NixValue::Bool(true));
    let c2 = make_change("networking.hostname", NixValue::String("box".into()));

    let result = apply_changes_to_source(source, &[&c1, &c2]).unwrap();

    assert!(result.contains("services.nginx.enable = true;"));
    assert!(result.contains(r#"networking.hostname = "box";"#));
}

/// Applying zero changes returns the source unchanged.
#[test]
fn test_pending_apply_no_changes() {
    let source = "{ enable = true; }";
    let result = apply_changes_to_source(source, &[]).unwrap();
    assert_eq!(result, source);
}

// add / remove / list / count / clear

#[test]
fn add_and_list() {
    let mut p = PendingChanges::new();
    p.add(make_change_tmp("a", NixValue::Bool(true)));
    p.add(make_change_tmp("b", NixValue::Int(42)));
    assert_eq!(p.count(), 2);
    let paths: Vec<&str> = p.list().iter().map(|c| c.option_path.as_str()).collect();
    assert!(paths.contains(&"a"));
    assert!(paths.contains(&"b"));
}

#[test]
fn add_same_path_replaces() {
    let mut p = PendingChanges::new();
    p.add(make_change_tmp("enable", NixValue::Bool(false)));
    p.add(make_change_tmp("enable", NixValue::Bool(true)));
    assert_eq!(p.count(), 1);
    assert_eq!(p.list()[0].new_value, NixValue::Bool(true));
}

#[test]
fn remove_existing() {
    let mut p = PendingChanges::new();
    p.add(make_change_tmp("a", NixValue::Bool(true)));
    p.add(make_change_tmp("b", NixValue::Bool(false)));
    p.remove("a");
    assert_eq!(p.count(), 1);
    assert_eq!(p.list()[0].option_path, "b");
}

#[test]
fn remove_missing_is_no_op() {
    let mut p = PendingChanges::new();
    p.add(make_change_tmp("a", NixValue::Bool(true)));
    p.remove("nonexistent");
    assert_eq!(p.count(), 1);
}

#[test]
fn clear_empties_buffer() {
    let mut p = PendingChanges::new();
    p.add(make_change_tmp("a", NixValue::Bool(true)));
    p.add(make_change_tmp("b", NixValue::Bool(false)));
    p.clear();
    assert_eq!(p.count(), 0);
    assert!(p.list().is_empty());
}

// apply_changes_to_source

#[test]
fn apply_insert_new_option() {
    let source = "{\n  enable = true;\n}";
    let change = make_change_tmp("port", NixValue::Int(8080));
    let result = apply_changes_to_source(source, &[&change]).unwrap();
    assert!(result.contains("port = 8080;"));
    assert!(result.contains("enable = true;"));
}

#[test]
fn apply_multiple_inserts() {
    let source = "{\n}";
    let c1 = make_change_tmp("enable", NixValue::Bool(true));
    let c2 = make_change_tmp("port", NixValue::Int(80));
    let result = apply_changes_to_source(source, &[&c1, &c2]).unwrap();
    assert!(result.contains("enable = true;"));
    assert!(result.contains("port = 80;"));
}

fn ranged(path: &str, value: NixValue, start: usize, end: usize) -> PendingChange {
    let mut c = make_change(path, value);
    c.range = Some(TextRange::new(start, end));
    c
}

#[test]
fn apply_replacements_in_any_order() {
    // "{ a = 1; b = 2; }": `1` at 6..7, `2` at 13..14.
    let source = "{ a = 1; b = 2; }";
    let first = ranged("a", NixValue::Int(100), 6, 7);
    let second = ranged("b", NixValue::String("two".into()), 13, 14);
    let result = apply_changes_to_source(source, &[&first, &second]).unwrap();
    assert_eq!(result, "{ a = 100; b = \"two\"; }");
    let result = apply_changes_to_source(source, &[&second, &first]).unwrap();
    assert_eq!(result, "{ a = 100; b = \"two\"; }");
}

#[test]
fn apply_replacement_then_insertion() {
    let source = "{\n    enable = true;\n}";
    let update = ranged("enable", NixValue::Bool(false), 15, 19);
    let insert = make_change("port", NixValue::Int(22));
    let result = apply_changes_to_source(source, &[&insert, &update]).unwrap();
    assert_eq!(result, "{\n    enable = false;\n    port = 22;\n}");
}

#[test]
fn apply_bad_range_is_a_write_error() {
    let source = "{ a = 1; }";
    let bad = ranged("a", NixValue::Int(2), 50, 60);
    match apply_changes_to_source(source, &[&bad]) {
        Err(ConfigError::WriteError(WriteError::InvalidRange)) => {}
        other => panic!("expected InvalidRange, got {:?}", other),
    }
}

#[test]
fn apply_replacement_that_breaks_syntax_is_rejected() {
    let source = "{ a = 1; }";
    let bad = ranged("a", NixValue::Expression("(".into()), 6, 7);
    match apply_changes_to_source(source, &[&bad]) {
        Err(ConfigError::WriteError(WriteError::ValidationFailed(m))) => assert!(m.starts_with("syntax error at 1:")),
        other => panic!("expected ValidationFailed, got {:?}", other),
    }
}

#[test]
fn group_by_file_keeps_first_appearance_order() {
    let mut a = make_change("a", NixValue::Null);
    a.file = "/b.nix".into();
    let mut b = make_change("b", NixValue::Null);
    b.file = "/a.nix".into();
    let mut c = make_change("c", NixValue::Null);
    c.file = "/b.nix".into();
    let changes = vec![a, b, c];
    let groups = group_by_file(&changes);
    assert_eq!(groups.len(), 2);
    assert_eq!(groups[0].0, "/b.nix");
    let paths: Vec<&str> = groups[0].1.iter().map(|c| c.option_path.as_str()).collect();
    assert_eq!(paths, ["a", "c"]);
    assert_eq!(groups[1].0, "/a.nix");
    assert_eq!(groups[1].1.len(), 1);
    assert_eq!(groups[1].1[0].option_path, "b");
}

#[test]
fn add_then_remove_leaves_other_changes() {
    let mut p = PendingChanges::new();
    p.add(make_change("a", NixValue::Int(1)));
    p.add(make_change("b", NixValue::Int(2)));
    p.add(make_change("a", NixValue::Int(3)));
    assert_eq!(p.count(), 2);
    assert_eq!(p.list()[0].option_path, "a");
    assert_eq!(p.list()[0].new_value, NixValue::Int(3));
    p.remove("a");
    assert_eq!(p.count(), 1);
    assert_eq!(p.list()[0].option_path, "b");
    assert_eq!(p.list()[0].new_value, NixValue::Int(2));
}

#[test]
fn config_error_messages() {
    let e = ConfigError::ValidationFailed(vec!["first".into(), "second".into()]);
    assert_eq!(e.message(), "validation failed: first; second");
    assert_eq!(ConfigError::ParseError("x".into()).message(), "parse error: x");
    assert_eq!(ConfigError::WriteError(WriteError::InvalidRange).message(), "write error: invalid text range");
    assert_eq!(ConfigError::IoError("gone".into()).message(), "I/O error: gone");
}

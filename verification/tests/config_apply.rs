//! Flushing the buffer: each file is edited and checked, and the files are
//! written only once every one of them has passed.
use nixman_core::config::apply::{ApplyAction, ApplyRun};
use nixman_core::config::types::{ConfigError, PendingChange, ValidationResult};
use nixman_core::nix::format::NixValue;

fn insertion(file: &str, path: &str, value: NixValue) -> PendingChange {
    PendingChange {
        option_path: path.to_string(),
        file: file.to_string(),
        old_value: None,
        new_value: value,
        range: None,
        timestamp: 0,
    }
}

#[test]
fn apply_run_with_nothing_pending_is_done() {
    let changes: Vec<PendingChange> = Vec::new();
    let (_run, action) = ApplyRun::start(&changes);
    assert!(matches!(action, ApplyAction::Done));
}

#[test]
fn apply_run_writes_every_file_after_all_pass() {
    let changes = vec![
        insertion("/cfg/a.nix", "a", NixValue::Int(1)),
        insertion("/cfg/b.nix", "b", NixValue::Bool(true)),
    ];
    let (mut run, action) = ApplyRun::start(&changes);
    match action {
        ApplyAction::Read(f) => assert_eq!(f, "/cfg/a.nix"),
        other => panic!("expected a read, got {other:?}"),
    }
    let action = run.text_read("{\n}\n");
    match &action {
        ApplyAction::Check(f, m) => {
            assert_eq!(f, "/cfg/a.nix");
            assert_eq!(m, "{\n  a = 1;\n}\n");
        }
        other => panic!("expected a check, got {other:?}"),
    }
    match run.checked(ValidationResult::Valid) {
        ApplyAction::Read(f) => assert_eq!(f, "/cfg/b.nix"),
        other => panic!("expected a read, got {other:?}"),
    }
    run.text_read("{ }");
    match run.checked(ValidationResult::Valid) {
        ApplyAction::WriteAll(ws) => {
            assert_eq!(ws.len(), 2);
            assert_eq!(ws[0], ("/cfg/a.nix".to_string(), "{\n  a = 1;\n}\n".to_string()));
            assert_eq!(ws[1].0, "/cfg/b.nix");
            assert!(ws[1].1.contains("b = true;"));
        }
        other => panic!("expected the writes, got {other:?}"),
    }
}

#[test]
fn apply_run_stops_on_a_failed_check_without_writing() {
    let changes = vec![
        insertion("/cfg/a.nix", "a", NixValue::Int(1)),
        insertion("/cfg/b.nix", "b", NixValue::Int(2)),
    ];
    let (mut run, _) = ApplyRun::start(&changes);
    run.text_read("{\n}\n");
    match run.checked(ValidationResult::Invalid { errors: vec!["bad".to_string()] }) {
        ApplyAction::Fail(ConfigError::ValidationFailed(es)) => assert_eq!(es, vec!["bad".to_string()]),
        other => panic!("expected a failure, got {other:?}"),
    }
    assert!(run.ready.is_empty());
}

#[test]
fn apply_run_reports_an_edit_that_cannot_be_made() {
    let changes = vec![insertion("/cfg/a.nix", "a", NixValue::Int(1))];
    let (mut run, _) = ApplyRun::start(&changes);
    match run.text_read("[ 1 2 ]") {
        ApplyAction::Fail(ConfigError::WriteError(_)) => {}
        other => panic!("expected a write error, got {other:?}"),
    }
}

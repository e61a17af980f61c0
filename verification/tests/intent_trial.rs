//! The decisions of a proposal and injecting changes into source text.
use nixman_core::intent::plan::{all_changes, first_trial, plan_of};
use nixman_core::intent::trial::{copy_entry, inject_change, parse_nix_value_str, CopyEntry};
use nixman_core::intent::types::{Implication, IntentError, ProposedChange, TrialResult};
use nixman_core::nix::format::NixValue;

fn change(path: &str, value: &str) -> ProposedChange {
    ProposedChange { path: path.to_string(), value: value.to_string(), reason: None }
}

fn trial(success: bool, stderr: &str, ms: u64) -> TrialResult {
    TrialResult { success, stderr: stderr.to_string(), stdout: String::new(), eval_time_ms: ms, exit_code: if success { 0 } else { 1 } }
}

const GDM_SDDM: &str = "error:\n       Failed assertions:\n       - services.xserver.displayManager.gdm.enable and services.xserver.displayManager.sddm.enable cannot both be enabled\n";

#[test]
fn first_trial_resolves_mutual_exclusion() {
    let changes = vec![change("services.xserver.displayManager.gdm.enable", "true")];
    let first = first_trial(&changes, &trial(false, GDM_SDDM, 10));
    assert_eq!(first.conflicts.len(), 1);
    assert!(first.conflicts[0].resolved);
    assert_eq!(first.resolutions.len(), 1);
    assert_eq!(first.resolutions[0].path, "services.xserver.displayManager.sddm.enable");
    assert_eq!(first.resolutions[0].value, "false");
    let all = all_changes(&changes, &first.resolutions);
    assert_eq!(all.len(), 2);
    assert_eq!(all[1].path, "services.xserver.displayManager.sddm.enable");
}

#[test]
fn successful_trial_has_no_conflicts() {
    let first = first_trial(&vec![change("a.enable", "true")], &trial(true, "error: Failed assertions:\n- x", 5));
    assert!(first.conflicts.is_empty());
    assert!(first.resolutions.is_empty());
}

#[test]
fn plan_uses_retry_when_there_is_one() {
    let first = trial(false, GDM_SDDM, 10);
    let retry = trial(true, "", 7);
    let implication = Implication { path: "x".into(), value: "true".into(), reason: None };
    let plan = plan_of(vec![change("a", "1")], &first, vec![], Some(&retry), vec![implication]);
    assert!(plan.valid);
    assert_eq!(plan.eval_time_ms, 17);
    assert!(plan.conflicts.is_empty());
    assert_eq!(plan.implications.len(), 1);
    let plan = plan_of(vec![], &first, vec![], None, vec![Implication { path: "x".into(), value: "1".into(), reason: None }]);
    assert!(!plan.valid);
    assert_eq!(plan.eval_time_ms, 10);
    assert!(plan.implications.is_empty());
    assert!(plan.warnings.is_empty());
}

#[test]
fn change_values_are_read_as_nix() {
    assert_eq!(parse_nix_value_str("true").unwrap(), NixValue::Bool(true));
    assert_eq!(parse_nix_value_str("42").unwrap(), NixValue::Int(42));
    assert_eq!(parse_nix_value_str("\"hi\"").unwrap(), NixValue::String("hi".into()));
    match parse_nix_value_str("(") {
        Err(IntentError::AstError(m)) => assert!(m.starts_with("invalid value '(': syntax error at 1:"), "{m}"),
        other => panic!("unexpected {:?}", other),
    }
}

#[test]
fn changes_are_injected() {
    let src = "{\n  a.enable = true;\n}\n";
    let set = inject_change(&change("a.enable", "false"), &NixValue::Bool(false), "/c.nix", true, src).unwrap();
    assert_eq!(set, "{\n  a.enable = false;\n}\n");
    let add = inject_change(&change("b.port", "22"), &NixValue::Int(22), "/c.nix", false, src).unwrap();
    assert_eq!(add, "{\n  a.enable = true;\n  b.port = 22;\n}\n");
    match inject_change(&change("c", "1"), &NixValue::Int(1), "/c.nix", true, src) {
        Err(IntentError::AstError(m)) => assert_eq!(m, "option 'c' unexpectedly missing after locate"),
        other => panic!("unexpected {:?}", other),
    }
    match inject_change(&change("c", "1"), &NixValue::Int(1), "/c.nix", true, "{ a = ; }") {
        Err(IntentError::AstError(m)) => assert!(m.starts_with("failed to parse '/c.nix': syntax error at 1:"), "{m}"),
        other => panic!("unexpected {:?}", other),
    }
    match inject_change(&change("", "1"), &NixValue::Int(1), "/c.nix", false, src) {
        Err(IntentError::InjectionFailed(m)) => assert_eq!(m, "failed to add '' = '1': serialization failed: empty option path"),
        other => panic!("unexpected {:?}", other),
    }
}

#[test]
fn copy_entry_keeps_nix_files_and_the_lock_only() {
    assert_eq!(copy_entry("configuration.nix", false), CopyEntry::Copy);
    assert_eq!(copy_entry("flake.lock", false), CopyEntry::Copy);
    assert_eq!(copy_entry("README.md", false), CopyEntry::Skip);
    assert_eq!(copy_entry(".git", true), CopyEntry::Skip);
    assert_eq!(copy_entry(".hidden.nix", false), CopyEntry::Skip);
    assert_eq!(copy_entry("result", true), CopyEntry::Skip);
    assert_eq!(copy_entry("node_modules", true), CopyEntry::Skip);
    assert_eq!(copy_entry("target", false), CopyEntry::Skip);
    assert_eq!(copy_entry("modules", true), CopyEntry::Descend);
}

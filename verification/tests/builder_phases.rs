//! Build-phase detection from `nixos-rebuild` output lines.
use nixman_core::builder::{
    detect, flake_arg, hm_summary, hostname_from, rebuild_run_summary, rebuild_summary, stream_line, BuildError, BuildMode, BuildPhase,
    BuilderError, RunSummary,
};

#[test]
fn detects_evaluating() {
    assert!(matches!(detect("evaluating derivation"), Some(BuildPhase::Evaluating)));
    assert!(matches!(
        detect("these derivations will be built:"),
        Some(BuildPhase::Evaluating)
    ));
}

#[test]
fn detects_fetching() {
    assert!(matches!(detect("copying path '/nix/store/abc'"), Some(BuildPhase::Fetching)));
    assert!(matches!(detect("fetching /nix/store/xyz"), Some(BuildPhase::Fetching)));
}

#[test]
fn detects_building() {
    assert!(matches!(
        detect("building '/nix/store/abc-foo-1.0.drv'"),
        Some(BuildPhase::Building)
    ));
}

#[test]
fn detects_activating() {
    assert!(matches!(
        detect("activating the configuration..."),
        Some(BuildPhase::Activating)
    ));
    assert!(matches!(detect("setting up /etc..."), Some(BuildPhase::Activating)));
}

#[test]
fn returns_none_for_unrecognised_lines() {
    assert!(detect("this is just some log output").is_none());
    assert!(detect("").is_none());
}

// Evaluating phase

/// The word "evaluating" anywhere in the line signals the Evaluating phase.
#[test]
fn test_phase_detection_evaluating() {
    assert!(matches!(
        detect("evaluating derivation"),
        Some(BuildPhase::Evaluating)
    ));
}

/// The "these derivations will be built" marker also signals Evaluating.
#[test]
fn test_phase_detection_evaluating_derivations_marker() {
    assert!(matches!(
        detect("these derivations will be built:"),
        Some(BuildPhase::Evaluating)
    ));
}

/// Detection is case-insensitive.
#[test]
fn test_phase_detection_evaluating_case_insensitive() {
    assert!(matches!(
        detect("Evaluating flake inputs..."),
        Some(BuildPhase::Evaluating)
    ));
}

// Fetching phase

/// Lines containing "copying" signal the Fetching phase.
#[test]
fn test_phase_detection_fetching_copying() {
    assert!(matches!(
        detect("copying path '/nix/store/abc123'"),
        Some(BuildPhase::Fetching)
    ));
}

/// Lines containing "fetching" also signal the Fetching phase.
#[test]
fn test_phase_detection_fetching_keyword() {
    assert!(matches!(
        detect("fetching /nix/store/xyz"),
        Some(BuildPhase::Fetching)
    ));
}

// Building phase

/// The "building '" pattern (with single-quote) signals the Building phase.
#[test]
fn test_phase_detection_building() {
    assert!(matches!(
        detect("building '/nix/store/abc-foo-1.0.drv'"),
        Some(BuildPhase::Building)
    ));
}

/// A realistic multi-component store path is detected correctly.
#[test]
fn test_phase_detection_building_long_path() {
    assert!(matches!(
        detect("building '/nix/store/zzzzzzzzzz-nixos-system-myhost-23.11.drv'"),
        Some(BuildPhase::Building)
    ));
}

// Activating phase

/// "activating the configuration" signals the Activating phase.
#[test]
fn test_phase_detection_activating() {
    assert!(matches!(
        detect("activating the configuration..."),
        Some(BuildPhase::Activating)
    ));
}

/// "setting up" (e.g. "setting up /etc...") also signals Activating.
#[test]
fn test_phase_detection_activating_setting_up() {
    assert!(matches!(
        detect("setting up /etc..."),
        Some(BuildPhase::Activating)
    ));
}

/// Case-insensitive match for activating.
#[test]
fn test_phase_detection_activating_case_insensitive() {
    assert!(matches!(
        detect("Activating The Configuration"),
        Some(BuildPhase::Activating)
    ));
}

// Non-phase lines → None

/// Ordinary log output that does not match any phase returns `None`.
#[test]
fn test_phase_detection_none() {
    assert!(detect("this is just some log output").is_none());
}

/// An empty string returns `None`.
#[test]
fn test_phase_detection_empty_line() {
    assert!(detect("").is_none());
}

/// A line with only whitespace returns `None`.
#[test]
fn test_phase_detection_whitespace_only() {
    assert!(detect("   ").is_none());
}

/// A line about a warning unrelated to any known phase returns `None`.
#[test]
fn test_phase_detection_warning_line() {
    assert!(detect("warning: Git tree '/etc/nixos' is dirty").is_none());
}

#[test]
fn build_mode_names() {
    assert_eq!(BuildMode::Switch.as_str(), "switch");
    assert_eq!(BuildMode::Boot.as_str(), "boot");
    assert_eq!(BuildMode::Test.as_str(), "test");
}

#[test]
fn stream_line_strips_terminators_and_detects() {
    assert_eq!(stream_line("building '/nix/store/x.drv'\r\n"), ("building '/nix/store/x.drv'".to_string(), Some(BuildPhase::Building)));
    assert_eq!(stream_line("plain\n\n"), ("plain".to_string(), None));
    assert_eq!(stream_line("a\r\r\n"), ("a".to_string(), None));
}

#[test]
fn hostname_and_flake_argument() {
    assert_eq!(hostname_from(Some("myhost\n")), "myhost");
    assert_eq!(hostname_from(None), "nixos");
    assert_eq!(flake_arg("/etc/nixos", "myhost"), "/etc/nixos#myhost");
}

#[test]
fn rebuild_outcomes() {
    let out = vec!["a".to_string(), "b".to_string()];
    let err = vec!["c".to_string()];
    assert_eq!(rebuild_summary(Some(126), &out, &err), Err(BuildError::PrivilegeEscalationFailed));
    assert_eq!(rebuild_summary(Some(127), &out, &err), Err(BuildError::PrivilegeEscalationFailed));
    assert_eq!(
        rebuild_summary(Some(0), &out, &err),
        Ok(RunSummary { success: true, output: "a\nb\nc".to_string(), error: None })
    );
    assert_eq!(
        rebuild_summary(Some(1), &out, &vec![]),
        Ok(RunSummary { success: false, output: "a\nb".to_string(), error: Some("nixos-rebuild exited with code 1".to_string()) })
    );
    assert_eq!(
        rebuild_summary(None, &vec![], &vec![]),
        Ok(RunSummary { success: false, output: String::new(), error: Some("nixos-rebuild exited with code -1".to_string()) })
    );
    assert_eq!(
        hm_summary(Some(2), &vec![], &err).error,
        Some("home-manager exited with code 2".to_string())
    );
}

#[test]
fn builder_error_texts() {
    assert_eq!(BuildError::PrivilegeEscalationFailed.message(), "Privilege escalation failed or was cancelled");
    assert_eq!(BuildError::SpawnFailed("x".into()).message(), "Failed to spawn nixos-rebuild: x");
    assert_eq!(BuilderError::BuildFailed("out".into()).message(), "out");
    assert_eq!(BuilderError::CommandNotFound.message(), "home-manager not found \u{2014} ensure it is on PATH");
}

#[test]
fn detect_ignores_the_case_of_ascii_letters() {
    for line in ["evaluating derivation 'x'", "Building '/nix/store/abc'", "copying path", "nothing here"] {
        let d = nixman_core::builder::detect(line);
        assert_eq!(nixman_core::builder::detect(&line.to_ascii_uppercase()), d);
        assert_eq!(nixman_core::builder::detect(&line.to_ascii_lowercase()), d);
    }
}

#[test]
fn completion_summary_also_for_failed_escalation() {
    let out = vec!["a".to_string()];
    assert_eq!(
        rebuild_run_summary(Some(126), &out, &vec![]),
        RunSummary { success: false, output: "a".to_string(), error: Some("nixos-rebuild exited with code 126".to_string()) }
    );
}

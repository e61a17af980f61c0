//! Assertion parsing, implication guesses and conflict resolution of the
//! intent engine.
use nixman_core::intent::assertions::{extract_option_paths, is_assertion_failure, is_eval_error, parse_assertions};
use nixman_core::intent::implications::{build_batch_eval_expr, suggest_related_paths};
use nixman_core::intent::resolver::{is_mutual_exclusion, resolve_conflicts};
use nixman_core::intent::types::{Conflict, ProposedChange};

#[test]
fn test_parse_simple_assertions() {
    let stderr = r#"error: Failed assertions:
- GDM and SDDM cannot both be enabled.
- The firewall module requires networking to be enabled."#;

    let conflicts = parse_assertions(stderr);
    assert_eq!(conflicts.len(), 2);
    assert_eq!(conflicts[0].message, "GDM and SDDM cannot both be enabled.");
    assert_eq!(conflicts[1].message, "The firewall module requires networking to be enabled.");
}

#[test]
fn test_parse_indented_assertions() {
    let stderr = r#"error:
   Failed assertions:
   - services.xserver.displayManager.gdm.enable and services.xserver.displayManager.sddm.enable are mutually exclusive."#;

    let conflicts = parse_assertions(stderr);
    assert_eq!(conflicts.len(), 1);
    assert!(conflicts[0].message.contains("mutually exclusive"));
}

#[test]
fn test_extract_option_paths() {
    let msg = "services.xserver.displayManager.gdm.enable and services.xserver.displayManager.sddm.enable are mutually exclusive";
    let paths = extract_option_paths(msg);
    assert!(paths.contains(&"services.xserver.displayManager.gdm.enable".to_string()));
    assert!(paths.contains(&"services.xserver.displayManager.sddm.enable".to_string()));
}

#[test]
fn test_no_assertions_in_type_error() {
    let stderr = "error: attribute 'foo' missing at /nix/store/...";
    let conflicts = parse_assertions(stderr);
    assert!(conflicts.is_empty());
}

#[test]
fn test_is_assertion_failure() {
    assert!(is_assertion_failure("error: Failed assertions:\n- foo"));
    assert!(!is_assertion_failure("error: attribute missing"));
}

#[test]
fn test_empty_stderr() {
    let conflicts = parse_assertions("");
    assert!(conflicts.is_empty());
}

#[test]
fn test_suggest_related_paths_hyprland() {
    let changes = vec![ProposedChange {
        path: "programs.hyprland.enable".to_string(),
        value: "true".to_string(),
        reason: None,
    }];
    let related = suggest_related_paths(&changes);
    assert!(related.contains(&"programs.xwayland.enable".to_string()));
    assert!(related.contains(&"security.polkit.enable".to_string()));
}

#[test]
fn test_suggest_related_paths_gdm() {
    let changes = vec![ProposedChange {
        path: "services.xserver.displayManager.gdm.enable".to_string(),
        value: "true".to_string(),
        reason: None,
    }];
    let related = suggest_related_paths(&changes);
    assert!(related.contains(
        &"services.xserver.displayManager.gdm.wayland".to_string()
    ));
}

#[test]
fn test_build_batch_eval_expr() {
    let expr = build_batch_eval_expr(
        "myhost",
        &["services.xserver.enable", "programs.hyprland.enable"],
    );
    assert!(expr.contains("myhost"));
    assert!(expr.contains("services.xserver.enable"));
    assert!(expr.contains("builtins.tryEval"));
}

#[test]
fn test_suggest_related_paths_deduplicates() {
    // Two hyprland changes shouldn't produce duplicate related paths
    let changes = vec![
        ProposedChange {
            path: "programs.hyprland.enable".to_string(),
            value: "true".to_string(),
            reason: None,
        },
        ProposedChange {
            path: "programs.hyprland.xwayland.enable".to_string(),
            value: "true".to_string(),
            reason: None,
        },
    ];
    let related = suggest_related_paths(&changes);
    let polkit_count = related
        .iter()
        .filter(|p| p.as_str() == "security.polkit.enable")
        .count();
    assert_eq!(polkit_count, 1);
}

#[test]
fn test_suggest_related_paths_excludes_explicit() {
    // suggest_related_paths doesn't filter explicit changes — that's done
    // in detect_implications. Verify the function itself just returns paths.
    let changes = vec![ProposedChange {
        path: "programs.hyprland.enable".to_string(),
        value: "true".to_string(),
        reason: None,
    }];
    let related = suggest_related_paths(&changes);
    assert!(!related.is_empty());
}

#[test]
fn test_resolve_mutual_exclusion() {
    let mut conflicts = vec![Conflict {
        message: "services.xserver.displayManager.gdm.enable and services.xserver.displayManager.sddm.enable cannot both be enabled".to_string(),
        related_options: vec![
            "services.xserver.displayManager.gdm.enable".to_string(),
            "services.xserver.displayManager.sddm.enable".to_string(),
        ],
        resolved: false,
        resolution: None,
    }];

    let proposed = vec![ProposedChange {
        path: "services.xserver.displayManager.gdm.enable".to_string(),
        value: "true".to_string(),
        reason: None,
    }];

    let additional = resolve_conflicts(&mut conflicts, &proposed);

    assert_eq!(additional.len(), 1);
    assert_eq!(additional[0].path, "services.xserver.displayManager.sddm.enable");
    assert_eq!(additional[0].value, "false");
    assert!(conflicts[0].resolved);
}

#[test]
fn test_no_resolution_when_both_proposed() {
    let mut conflicts = vec![Conflict {
        message: "X and Y cannot both be enabled".to_string(),
        related_options: vec![
            "services.x.enable".to_string(),
            "services.y.enable".to_string(),
        ],
        resolved: false,
        resolution: None,
    }];

    let proposed = vec![
        ProposedChange { path: "services.x.enable".to_string(), value: "true".to_string(), reason: None },
        ProposedChange { path: "services.y.enable".to_string(), value: "true".to_string(), reason: None },
    ];

    let additional = resolve_conflicts(&mut conflicts, &proposed);
    assert!(additional.is_empty());
    assert!(!conflicts[0].resolved);
}

#[test]
fn test_no_resolution_without_enable_options() {
    let mut conflicts = vec![Conflict {
        message: "Something is wrong".to_string(),
        related_options: vec!["some.other.option".to_string()],
        resolved: false,
        resolution: None,
    }];

    let proposed = vec![];
    let additional = resolve_conflicts(&mut conflicts, &proposed);
    assert!(additional.is_empty());
}

#[test]
fn test_is_mutual_exclusion() {
    assert!(is_mutual_exclusion("GDM and SDDM cannot both be enabled"));
    assert!(is_mutual_exclusion("These options are mutually exclusive"));
    assert!(is_mutual_exclusion("Only one display manager can be active"));
    assert!(!is_mutual_exclusion("The option requires networking"));
}

#[test]
fn eval_error_detection() {
    assert!(is_eval_error("error: attribute 'foo' missing"));
    assert!(!is_eval_error("warning: something"));
}

#[test]
fn resolution_names_the_other_option() {
    let mut conflicts = vec![Conflict {
        message: "a and b are mutually exclusive".to_string(),
        related_options: vec!["services.a.enable".to_string(), "services.b.enable".to_string()],
        resolved: false,
        resolution: None,
    }];
    let proposed = vec![ProposedChange { path: "services.b.enable".to_string(), value: "true".to_string(), reason: None }];
    let additional = resolve_conflicts(&mut conflicts, &proposed);
    assert_eq!(additional.len(), 1);
    assert_eq!(additional[0].path, "services.a.enable");
    assert_eq!(additional[0].value, "false");
    assert!(conflicts[0].resolved);
    assert!(conflicts[0].resolution.is_some());
}

#[test]
fn batch_eval_output_read_as_option_values() {
    let out = "{\"services.b.enable\":true,\"a.port\":8080,\"c.name\":\"x\",\"d\":[1,2],\"e\":null}";
    let v = nixman_core::intent::implications::batch_eval_values(out).unwrap();
    assert_eq!(
        v,
        vec![
            ("a.port".to_string(), "8080".to_string()),
            ("c.name".to_string(), "\"x\"".to_string()),
            ("d".to_string(), "[1,2]".to_string()),
            ("e".to_string(), "null".to_string()),
            ("services.b.enable".to_string(), "true".to_string()),
        ]
    );
    assert!(nixman_core::intent::implications::batch_eval_values("[1]").is_none());
    assert!(nixman_core::intent::implications::batch_eval_values("error: oops").is_none());
}

#[test]
fn single_eval_attr_and_value() {
    assert_eq!(
        nixman_core::intent::implications::single_eval_attr("host", "services.x.enable"),
        ".#nixosConfigurations.host.config.services.x.enable"
    );
    assert_eq!(nixman_core::intent::implications::single_eval_value("  true\n"), "true");
}

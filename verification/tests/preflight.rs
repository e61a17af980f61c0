//! The runtime check that Nix has flakes enabled.
use nixman_core::preflight::flakes_check_outcome;

#[test]
fn flakes_check_outcomes() {
    assert_eq!(flakes_check_outcome(true, "anything"), Ok(()));
    let disabled = flakes_check_outcome(false, "error: experimental Nix feature 'flakes' is disabled").unwrap_err();
    assert!(disabled.starts_with("Nix flakes are not enabled on this system.\n\nTo enable them"));
    assert!(disabled.contains("  nix.settings.experimental-features = [ \"nix-command\" \"flakes\" ];"));
    assert!(disabled.ends_with("  sudo systemctl restart nix-daemon"));
    assert_eq!(flakes_check_outcome(false, "  boom \n"), Err("nix flake check failed: boom".to_string()));
}

//! Commit-message suggestions from the options a change touched.
use nixman_core::git::commit::{describe_option, humanise, suggest_message};
use nixman_core::git::types::GitError;

#[test]
fn suggest_message_empty_slice() {
    assert_eq!(suggest_message(&[]), "nixman: update configuration");
}

#[test]
fn suggest_message_nginx_enable() {
    let opts = vec!["services.nginx.enable".to_string()];
    let msg = suggest_message(&opts);
    assert!(msg.starts_with("nixman:"), "prefix missing: {msg}");
    assert!(msg.contains("nginx"), "nginx not in: {msg}");
}

#[test]
fn suggest_message_three_options() {
    let opts = vec![
        "services.nginx.enable".to_string(),
        "networking.firewall.allowedTCPPorts".to_string(),
        "environment.systemPackages".to_string(),
    ];
    let msg = suggest_message(&opts);
    assert!(msg.starts_with("nixman:"), "{msg}");
    assert!(!msg.contains("more"), "unexpected truncation: {msg}");
}

#[test]
fn suggest_message_truncates_beyond_three() {
    let opts: Vec<String> = (0..5).map(|i| format!("services.svc{i}.enable")).collect();
    let msg = suggest_message(&opts);
    assert!(msg.contains("and 2 more"), "expected truncation suffix: {msg}");
}

#[test]
fn suggest_message_meaningful_for_firewall() {
    let opts = vec!["networking.firewall.allowedTCPPorts".to_string()];
    let msg = suggest_message(&opts);
    assert!(msg.contains("firewall"), "{msg}");
}

#[test]
fn humanise_hyphen_separated() {
    assert_eq!(humanise("systemd-boot"), "systemd boot");
}

#[test]
fn humanise_plain_lowercase() {
    assert_eq!(humanise("firewall"), "firewall");
}

#[test]
fn suggest_message_exact_texts() {
    assert_eq!(suggest_message(&["services.nginx.enable".to_string()]), "nixman: enable nginx");
    let opts: Vec<String> = (0..5).map(|i| format!("services.svc{i}.enable")).collect();
    assert_eq!(suggest_message(&opts), "nixman: enable svc0, enable svc1, enable svc2, and 2 more");
    assert_eq!(describe_option("networking.firewall.allowedTCPPorts"), "update firewall allowed ports");
    assert_eq!(describe_option("networking.firewall.allowedUDPPorts"), "update firewall allowed udp ports");
    assert_eq!(describe_option("services.nginx.enable"), "enable nginx");
    assert_eq!(describe_option("boot.loader.systemd-boot.enable"), "configure systemd-boot bootloader");
    assert_eq!(describe_option("boot.loader.grub"), "configure grub bootloader");
    assert_eq!(describe_option("environment.systemPackages"), "update system packages");
    assert_eq!(describe_option("programs.git.enable"), "enable git program");
    assert_eq!(describe_option("time.timeZone"), "time zone time");
}

#[test]
fn git_error_messages() {
    assert_eq!(GitError::NotARepo.message(), "path is not inside a git repository");
    assert_eq!(GitError::CommitFailed("x".into()).message(), "commit failed: x");
}

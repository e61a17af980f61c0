//! Direct flake inputs from the structure of `flake.lock`.
use nixman_core::flake::metadata::{list_inputs_in, parse_locked_input, url_of};
use nixman_core::flake::types::{FlakeError, LockFile, LockNode, LockedInput};

fn locked(ty: &str, owner: &str, repo: &str, git_ref: Option<&str>, rev: &str, nar: &str, ts: i64) -> LockedInput {
    LockedInput {
        input_type: Some(ty.to_string()),
        owner: Some(owner.to_string()),
        repo: Some(repo.to_string()),
        git_ref: git_ref.map(|r| r.to_string()),
        url: None,
        rev: Some(rev.to_string()),
        nar_hash: Some(nar.to_string()),
        last_modified: Some(ts),
    }
}

fn node(locked: LockedInput) -> Option<LockNode> {
    Some(LockNode { inputs: None, locked: Some(locked) })
}

fn root(inputs: &[(&str, &str)]) -> Option<LockNode> {
    Some(LockNode {
        inputs: Some(inputs.iter().map(|(n, t)| (n.to_string(), Some(t.to_string()))).collect()),
        locked: None,
    })
}

/// The sample lock file: `nixpkgs` and `home-manager`, keys in order.
fn sample_lock() -> LockFile {
    LockFile {
        nodes: Some(vec![
            (
                "home-manager".to_string(),
                node(locked("github", "nix-community", "home-manager", None, "cafebabe5678", "sha256-def456", 1714000000)),
            ),
            (
                "nixpkgs".to_string(),
                node(locked("github", "NixOS", "nixpkgs", None, "deadbeef1234", "sha256-abc123", 1715000000)),
            ),
            ("root".to_string(), root(&[("home-manager", "home-manager"), ("nixpkgs", "nixpkgs")])),
        ]),
        root: Some("root".to_string()),
    }
}

#[test]
fn test_list_inputs_parses_direct_inputs() {
    let inputs = list_inputs_in(&sample_lock(), 0).unwrap();
    assert_eq!(inputs.len(), 2);

    let nixpkgs = inputs.iter().find(|i| i.name == "nixpkgs").unwrap();
    assert_eq!(nixpkgs.rev, "deadbeef1234");
    assert_eq!(nixpkgs.url, "github:NixOS/nixpkgs");
    assert_eq!(nixpkgs.nar_hash, "sha256-abc123");
    assert_eq!(nixpkgs.last_modified, 1715000000);

    let hm = inputs.iter().find(|i| i.name == "home-manager").unwrap();
    assert_eq!(hm.rev, "cafebabe5678");
    assert_eq!(hm.url, "github:nix-community/home-manager");
}

#[test]
fn test_list_inputs_empty_root_inputs() {
    let lock = LockFile {
        nodes: Some(vec![("root".to_string(), Some(LockNode { inputs: None, locked: None }))]),
        root: Some("root".to_string()),
    };
    let inputs = list_inputs_in(&lock, 0).unwrap();
    assert!(inputs.is_empty());
}

#[test]
fn test_list_inputs_url_with_ref() {
    let lock = LockFile {
        nodes: Some(vec![
            (
                "nixpkgs".to_string(),
                node(locked("github", "NixOS", "nixpkgs", Some("nixos-24.05"), "aabbcc", "sha256-xyz", 1715000000)),
            ),
            ("root".to_string(), root(&[("nixpkgs", "nixpkgs")])),
        ]),
        root: Some("root".to_string()),
    };
    let inputs = list_inputs_in(&lock, 0).unwrap();
    assert_eq!(inputs[0].url, "github:NixOS/nixpkgs/nixos-24.05");
}

#[test]
fn missing_nodes_and_root_are_parse_errors() {
    let lock = LockFile { nodes: None, root: None };
    match list_inputs_in(&lock, 0) {
        Err(FlakeError::ParseError(m)) => assert_eq!(m, "missing \"nodes\" field"),
        other => panic!("unexpected {:?}", other),
    }
    let lock = LockFile { nodes: Some(vec![]), root: None };
    match list_inputs_in(&lock, 0) {
        Err(FlakeError::ParseError(m)) => assert_eq!(m, "missing root node"),
        other => panic!("unexpected {:?}", other),
    }
    assert_eq!(
        FlakeError::ParseError("x".into()).message(),
        "failed to parse flake.lock: x"
    );
    assert_eq!(FlakeError::LockNotFound.message(), "flake.lock not found in workspace");
}

#[test]
fn inputs_without_locked_node_are_skipped_and_now_fills_time() {
    let mut l = locked("path", "o", "r", None, "rev", "nar", 0);
    l.last_modified = None;
    let lock = LockFile {
        nodes: Some(vec![
            ("a".to_string(), Some(LockNode { inputs: None, locked: Some(l) })),
            ("b".to_string(), Some(LockNode { inputs: None, locked: None })),
            (
                "root".to_string(),
                Some(LockNode {
                    inputs: Some(vec![
                        ("a".to_string(), Some("a".to_string())),
                        ("b".to_string(), Some("b".to_string())),
                        ("c".to_string(), None),
                    ]),
                    locked: None,
                }),
            ),
        ]),
        root: None,
    };
    let inputs = list_inputs_in(&lock, 42).unwrap();
    assert_eq!(inputs.len(), 1);
    assert_eq!(inputs[0].name, "a");
    assert_eq!(inputs[0].url, "path:o/r");
    assert_eq!(inputs[0].last_modified, 42);
}

#[test]
fn git_and_unknown_urls() {
    let mut l = locked("git", "", "", None, "r", "n", 1);
    l.url = Some("https://example.com/repo.git".to_string());
    assert_eq!(url_of(&l), "https://example.com/repo.git");
    let mut l = locked("x", "o", "r", None, "r", "n", 1);
    l.input_type = None;
    assert_eq!(url_of(&l), "unknown:o/r");
}

#[test]
fn commit_time_kept_only_within_chronos_date_range() {
    let at = |ts: i64| parse_locked_input("x", &locked("github", "o", "r", None, "abc", "h", ts), 42).last_modified;
    // 262142-12-31T23:59:59Z is chrono's last second; one more is out of range.
    let last = (95_745_399 - 719_163) * 86_400 + 86_399;
    assert_eq!(at(last), last);
    assert_eq!(at(last + 1), 42);
    // -262143-01-01T00:00:00Z is chrono's first second; one less is out of range.
    let first = (-95_746_129 - 719_163) * 86_400;
    assert_eq!(at(first), first);
    assert_eq!(at(first - 1), 42);
    assert_eq!(at(1_700_000_000), 1_700_000_000);
}

//! Scored option search over an option index, and the index cache's
//! file names, lock hashing and staleness check.
use nixman_core::options::cache::{cache_file_name, hash_flake_lock_bytes, hm_cache_file_name, is_valid};
use nixman_core::options::search::query;
use nixman_core::options::types::{OptionIndex, OptionMeta, OptionType};

fn meta(path: &str, description: &str) -> OptionMeta {
    OptionMeta {
        path: path.to_string(),
        option_type: OptionType::Bool,
        default: None,
        description: description.to_string(),
        declared_in: String::new(),
        example: None,
    }
}

fn index(opts: Vec<OptionMeta>) -> OptionIndex {
    OptionIndex {
        options: opts,
        flake_lock_hash: "test".to_string(),
        built_at: chrono::Utc::now().timestamp(),
        nixpkgs_rev: "test".to_string(),
    }
}

#[test]
fn empty_query_returns_first_n() {
    let idx = index(vec![meta("a", ""), meta("b", ""), meta("c", "")]);
    assert_eq!(query(&idx, "", 2).len(), 2);
    assert_eq!(query(&idx, "", 10).len(), 3);
}

#[test]
fn exact_match_scores_highest() {
    let idx = index(vec![
        meta("nginx.enable", ""),
        meta("nginx", ""),
        meta("nginx.package", ""),
    ]);
    let results = query(&idx, "nginx", 10);
    assert_eq!(results[0].path, "nginx");
}

#[test]
fn prefix_scores_higher_than_contains() {
    let idx = index(vec![
        meta("services.foo.enable", ""),
        meta("foo.bar", ""),
    ]);
    let results = query(&idx, "foo", 10);
    assert_eq!(results.len(), 2);
    // "foo.bar" starts with "foo" → score 80; "services.foo.enable" contains "foo" → score 60
    assert_eq!(results[0].path, "foo.bar");
}

#[test]
fn description_match_is_included() {
    let idx = index(vec![
        meta("some.option", "Enables the nginx web server"),
    ]);
    let results = query(&idx, "nginx", 10);
    assert_eq!(results.len(), 1);
    assert_eq!(results[0].path, "some.option");
}

#[test]
fn no_match_returns_empty() {
    let idx = index(vec![meta("services.nginx.enable", "")]);
    assert!(query(&idx, "zzz_no_match", 10).is_empty());
}

#[test]
fn search_is_case_insensitive() {
    let idx = index(vec![meta("Services.Nginx.Enable", "")]);
    assert_eq!(query(&idx, "services", 10).len(), 1);
    assert_eq!(query(&idx, "NGINX", 10).len(), 1);
}

#[test]
fn limit_is_respected() {
    let opts: Vec<OptionMeta> = (0..20)
        .map(|i| meta(&format!("opt.{:02}", i), ""))
        .collect();
    let idx = index(opts);
    assert_eq!(query(&idx, "opt", 5).len(), 5);
}

#[test]
fn tie_break_is_alphabetical_by_path() {
    let idx = index(vec![
        meta("zzz.opt", ""),
        meta("aaa.opt", ""),
        meta("mmm.opt", ""),
    ]);
    let results = query(&idx, "opt", 10);
    // All score 60 (path contains "opt") → sorted by path ascending.
    assert_eq!(results[0].path, "aaa.opt");
    assert_eq!(results[1].path, "mmm.opt");
    assert_eq!(results[2].path, "zzz.opt");
}

#[test]
fn zero_limit_returns_empty() {
    let idx = index(vec![meta("services.nginx.enable", "")]);
    assert!(query(&idx, "nginx", 0).is_empty());
}

// Search — query

/// Searching "nginx" should find `services.nginx.*` options.
#[test]
fn test_search_exact_match() {
    let idx = index(vec![
        meta("services.nginx.enable", "Enable the nginx web server"),
        meta("services.nginx.package", "The nginx package"),
        meta("services.nginx.virtualHosts", "Virtual hosts config"),
        meta("services.openssh.enable", "Enable openssh"),
    ]);

    let results = query(&idx, "services.nginx.enable", 10);
    // Exact path match → score 100 → first result.
    assert!(!results.is_empty());
    assert_eq!(results[0].path, "services.nginx.enable");
}

/// A partial query "nginx" should match all `services.nginx.*` paths.
#[test]
fn test_search_partial_match() {
    let idx = index(vec![
        meta("services.nginx.enable", ""),
        meta("services.nginx.package", ""),
        meta("services.openssh.enable", ""),
    ]);

    let results = query(&idx, "nginx", 10);
    assert_eq!(results.len(), 2);
    // Both nginx options must be present.
    let paths: Vec<&str> = results.iter().map(|o| o.path.as_str()).collect();
    assert!(paths.contains(&"services.nginx.enable"));
    assert!(paths.contains(&"services.nginx.package"));
    // openssh is not in results.
    assert!(!paths.contains(&"services.openssh.enable"));
}

/// Searching "fire" should find `networking.firewall.*` via path contains.
#[test]
fn test_search_partial_match_firewall() {
    let idx = index(vec![
        meta("networking.firewall.enable", ""),
        meta("networking.firewall.allowedTCPPorts", ""),
        meta("networking.hostName", ""),
    ]);

    let results = query(&idx, "fire", 10);
    assert_eq!(results.len(), 2);
    let paths: Vec<&str> = results.iter().map(|o| o.path.as_str()).collect();
    assert!(paths.contains(&"networking.firewall.enable"));
    assert!(paths.contains(&"networking.firewall.allowedTCPPorts"));
}

/// An empty query returns the first `limit` results without scoring.
#[test]
fn test_search_empty_query() {
    let idx = index(vec![
        meta("a.opt", ""),
        meta("b.opt", ""),
        meta("c.opt", ""),
    ]);

    let results = query(&idx, "", 10);
    // All three returned (limit > count).
    assert_eq!(results.len(), 3);

    // Empty query with limit=2 returns only 2.
    let limited = query(&idx, "", 2);
    assert_eq!(limited.len(), 2);
}

/// Empty query with limit=0 returns nothing.
#[test]
fn test_search_empty_query_zero_limit() {
    let idx = index(vec![meta("a", "")]);
    assert!(query(&idx, "", 0).is_empty());
}

/// A query with no match returns an empty vector.
#[test]
fn test_search_no_match() {
    let idx = index(vec![meta("services.nginx.enable", "")]);
    assert!(query(&idx, "zzz_no_match_xyz", 10).is_empty());
}

/// Search is case-insensitive.
#[test]
fn test_search_case_insensitive() {
    let idx = index(vec![meta("Services.Nginx.Enable", "")]);
    assert_eq!(query(&idx, "nginx", 10).len(), 1);
    assert_eq!(query(&idx, "NGINX", 10).len(), 1);
    assert_eq!(query(&idx, "services", 10).len(), 1);
}

/// Description-only match is included with a lower score than path matches.
#[test]
fn test_search_description_match() {
    let idx = index(vec![
        meta("some.option", "Enables the nginx web server"),
        meta("services.nginx.enable", ""),
    ]);

    let results = query(&idx, "nginx", 10);
    assert_eq!(results.len(), 2);
    // Path match scores higher than description match.
    assert_eq!(results[0].path, "services.nginx.enable");
    assert_eq!(results[1].path, "some.option");
}

/// Prefix-match scores higher than contains-match.
#[test]
fn test_search_prefix_beats_contains() {
    let idx = index(vec![
        meta("services.foo.enable", ""), // "foo" contained in path
        meta("foo.bar.setting", ""),     // "foo" at start → prefix
    ]);

    let results = query(&idx, "foo", 10);
    assert_eq!(results.len(), 2);
    assert_eq!(results[0].path, "foo.bar.setting"); // higher score
}


#[test]
fn test_cache_hash_computation() {
    let content = b"{ \"nodes\": {}, \"root\": \"root\", \"version\": 7 }";
    let hash_a = hash_flake_lock_bytes(content);
    let hash_b = hash_flake_lock_bytes(content);
    assert_eq!(hash_a, hash_b, "identical content must produce identical hash");
    assert!(!hash_a.is_empty());
    assert!(hash_a.chars().all(|c| c.is_ascii_hexdigit()));
}

#[test]
fn test_cache_hash_different_content() {
    let hash_a = hash_flake_lock_bytes(b"content A");
    let hash_b = hash_flake_lock_bytes(b"content B");
    assert_ne!(hash_a, hash_b, "different content must produce different hashes");
}

#[test]
fn hash_is_sha256_hex() {
    assert_eq!(
        hash_flake_lock_bytes(b""),
        "e3b0c44298fc1c149afbf4c8996fb92427ae41e4649b934ca495991b7852b855"
    );
    assert_eq!(
        hash_flake_lock_bytes(b"abc"),
        "ba7816bf8f01cfea414140de5dae2223b00361a396177a9cb410ff61f20015ad"
    );
}

#[test]
fn cache_file_names() {
    assert_eq!(cache_file_name("abc"), "options-abc.json");
    assert_eq!(hm_cache_file_name("abc"), "hm-options-abc.json");
}

#[test]
fn is_valid_checks_hash_and_presence() {
    let mut idx = index(vec![]);
    idx.flake_lock_hash = "h1".to_string();
    assert!(is_valid(Some("h1"), Some(idx)));
    let mut idx = index(vec![]);
    idx.flake_lock_hash = "h1".to_string();
    assert!(!is_valid(Some("h2"), Some(idx)));
    assert!(!is_valid(Some("h1"), None));
    assert!(!is_valid(None, Some(index(vec![]))));
}

#[test]
fn search_scores_order_exact_prefix_contains_description() {
    let idx = index(vec![
        meta("x.nginx", ""),
        meta("other", "about nginx"),
        meta("nginx.y", ""),
        meta("nginx", ""),
    ]);
    let paths: Vec<&str> = query(&idx, "nginx", 10).iter().map(|o| o.path.as_str()).collect();
    assert_eq!(paths, ["nginx", "nginx.y", "x.nginx", "other"]);
}

#[test]
fn is_valid_returns_false_when_no_flake_lock() {
    // No flake.lock: its hash cannot be computed.
    assert!(!is_valid(None, None));
}

#[test]
fn is_valid_returns_false_when_no_cache_file() {
    // A flake.lock of `{}` hashes, but no cached index was read back.
    let hash = hash_flake_lock_bytes(b"{}");
    assert!(!is_valid(Some(hash.as_str()), None));
}

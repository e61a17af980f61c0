//! Replacing option values and removing options in Nix source.
use nixman_core::nix::format::NixValue;
use nixman_core::nix::reader::parse_string;
use nixman_core::nix::traversal::{find_option, TextRange};
use nixman_core::nix::writer::{remove_option, set_value, WriteError};

fn source_range(source: &str, path: &str) -> TextRange {
    let nix = parse_string(source).unwrap();
    let node = find_option(&nix, path).unwrap();
    node.text_range()
}


#[test]
fn set_value_replaces_bool() {
    let src = "{ enable = true; }";
    let range = source_range(src, "enable");
    let result = set_value(src, range, &NixValue::Bool(false)).unwrap();
    assert_eq!(result, "{ enable = false; }");
}

#[test]
fn set_value_replaces_integer() {
    let src = "{ port = 8080; }";
    let range = source_range(src, "port");
    let result = set_value(src, range, &NixValue::Int(443)).unwrap();
    assert_eq!(result, "{ port = 443; }");
}

#[test]
fn set_value_replaces_string() {
    let src = r#"{ hostname = "old"; }"#;
    let range = source_range(src, "hostname");
    let result = set_value(src, range, &NixValue::String("new".into())).unwrap();
    assert_eq!(result, r#"{ hostname = "new"; }"#);
}

#[test]
fn set_value_preserves_surrounding_text() {
    let src = "# header\n{ enable = true; # inline\n}";
    let range = source_range(src, "enable");
    let result = set_value(src, range, &NixValue::Bool(false)).unwrap();
    assert_eq!(result, "# header\n{ enable = false; # inline\n}");
}

#[test]
fn set_value_invalid_range_out_of_bounds() {
    let src = "{ enable = true; }";
    let range = TextRange::new(100, 110);
    assert!(matches!(
        set_value(src, range, &NixValue::Bool(false)),
        Err(WriteError::InvalidRange)
    ));
}

#[test]
fn set_value_invalid_range_start_equals_end_but_out_of_bounds() {
    let src = "{ enable = true; }";
    // A zero-length range entirely out of bounds.
    let range = TextRange::new(200, 200);
    assert!(matches!(
        set_value(src, range, &NixValue::Bool(false)),
        Err(WriteError::InvalidRange)
    ));
}

// round-trip

#[test]
fn round_trip_identical() {
    // Parsing and immediately writing back must produce the same bytes.
    // This is a property of set_value (we only touch the target bytes).
    let src = "{ config, pkgs, ... }:\n{\n  services.nginx.enable = true;\n  boot.loader.grub.enable = false;\n}";
    let _nix = parse_string(src).unwrap();
    // Replace a value with its current value — output must equal input.
    let range = source_range(src, "services.nginx.enable");
    let result = set_value(src, range, &NixValue::Bool(true)).unwrap();
    assert_eq!(result, src);
}


#[test]
fn remove_option_simple() {
    let src = "{\n  enable = true;\n  port = 8080;\n}";
    let result = remove_option(src, "enable").unwrap();
    // The enable line is gone; port remains.
    assert!(!result.contains("enable"));
    assert!(result.contains("port = 8080"));
    parse_string(&result).expect("result should parse");
}

#[test]
fn remove_option_last_entry() {
    let src = "{\n  enable = true;\n}";
    let result = remove_option(src, "enable").unwrap();
    assert!(!result.contains("enable"));
    parse_string(&result).expect("result should parse");
}

#[test]
fn remove_option_flat_dotted_key() {
    let src = "{\n  services.nginx.enable = true;\n  services.nginx.port = 8080;\n}";
    let result = remove_option(src, "services.nginx.enable").unwrap();
    assert!(!result.contains("services.nginx.enable"));
    assert!(result.contains("services.nginx.port"));
    parse_string(&result).expect("result should parse");
}

#[test]
fn remove_option_missing_path_returns_error() {
    let src = "{ enable = true; }";
    assert!(matches!(
        remove_option(src, "nonexistent"),
        Err(WriteError::InsertionPointNotFound)
    ));
}

#[test]
fn remove_option_cascade_empty_parent() {
    // Removing the only entry inside a nested AttrSet should also remove
    // the now-empty parent binding.
    let src = "{\n  services = {\n    enable = true;\n  };\n}";
    let result = remove_option(src, "services.enable").unwrap();
    assert!(!result.contains("services"));
    assert!(!result.contains("enable"));
    parse_string(&result).expect("result should parse");
}

#[test]
fn remove_option_no_cascade_when_sibling_exists() {
    let src = "{\n  services = {\n    enable = true;\n    port = 80;\n  };\n}";
    let result = remove_option(src, "services.enable").unwrap();
    // Parent `services` block should survive (it still has `port`).
    assert!(result.contains("services"));
    assert!(result.contains("port"));
    assert!(!result.contains("enable"));
    parse_string(&result).expect("result should parse");
}

#[test]
fn remove_option_keeps_comments_around_the_binding() {
    let src = "# top\n{\n  # keep me\n  a = 1;\n  b = 2; # trailing\n}\n";
    let result = remove_option(src, "a").unwrap();
    assert_eq!(result, "# top\n{\n  # keep me\n  b = 2; # trailing\n}\n");
}

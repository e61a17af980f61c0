//! Finding option values in parsed Nix files.
use nixman_core::nix::format::NixValue;
use nixman_core::nix::reader::{parse_string, NixFile};
use nixman_core::nix::traversal::{find_option, iterate_attr_set};

// Helper: parse a string, panic on error.
fn nix(src: &str) -> NixFile {
    parse_string(src).expect("test source should parse")
}

// find_option — nested attr sets

#[test]
fn find_simple_bool() {
    let f = nix("{ enable = true; }");
    let node = find_option(&f, "enable").expect("should find enable");
    assert_eq!(node.to_nix_value(), NixValue::Bool(true));
}

#[test]
fn find_nested_attr_set() {
    let src = "{ services = { nginx = { enable = true; }; }; }";
    let f = nix(src);
    let node = find_option(&f, "services.nginx.enable").expect("should find path");
    assert_eq!(node.to_nix_value(), NixValue::Bool(true));
}

#[test]
fn find_flat_dotted_key() {
    let src = "{ services.nginx.enable = true; }";
    let f = nix(src);
    let node = find_option(&f, "services.nginx.enable").expect("should find path");
    assert_eq!(node.to_nix_value(), NixValue::Bool(true));
}

#[test]
fn find_through_lambda() {
    let src = "{ config, pkgs, ... }:\n{ services.nginx.enable = true; }";
    let f = nix(src);
    let node = find_option(&f, "services.nginx.enable").expect("should find path");
    assert_eq!(node.to_nix_value(), NixValue::Bool(true));
}

#[test]
fn find_missing_key_returns_none() {
    let f = nix("{ enable = true; }");
    assert!(find_option(&f, "nonexistent").is_none());
}

#[test]
fn find_empty_path_returns_none() {
    let f = nix("{ enable = true; }");
    assert!(find_option(&f, "").is_none());
}

// NixValue extraction

#[test]
fn value_bool_false() {
    let f = nix("{ enable = false; }");
    let node = find_option(&f, "enable").unwrap();
    assert_eq!(node.to_nix_value(), NixValue::Bool(false));
}

#[test]
fn value_null() {
    let f = nix("{ x = null; }");
    let node = find_option(&f, "x").unwrap();
    assert_eq!(node.to_nix_value(), NixValue::Null);
}

#[test]
fn value_integer() {
    let f = nix("{ port = 8080; }");
    let node = find_option(&f, "port").unwrap();
    assert_eq!(node.to_nix_value(), NixValue::Int(8080));
}

#[test]
fn value_string() {
    let f = nix(r#"{ hostname = "myhost"; }"#);
    let node = find_option(&f, "hostname").unwrap();
    assert_eq!(node.to_nix_value(), NixValue::String("myhost".into()));
}

#[test]
fn value_list() {
    let f = nix("{ items = [ 1 2 3 ]; }");
    let node = find_option(&f, "items").unwrap();
    assert_eq!(
        node.to_nix_value(),
        NixValue::List(vec![
            NixValue::Int(1),
            NixValue::Int(2),
            NixValue::Int(3),
        ])
    );
}

#[test]
fn value_nested_attrset_as_value() {
    let src = "{ services = { nginx = { enable = true; }; }; }";
    let f = nix(src);
    let node = find_option(&f, "services").unwrap();
    // The value of "services" is an AttrSet whose single entry is
    // key "nginx" → another nested AttrSet.
    match node.to_nix_value() {
        NixValue::AttrSet(entries) => {
            assert_eq!(entries.len(), 1);
            let (key, val) = entries.into_iter().next().unwrap();
            assert_eq!(key, "nginx");
            match val {
                NixValue::AttrSet(inner) => {
                    assert_eq!(inner.len(), 1);
                    assert_eq!(inner[0].0, "enable");
                    assert_eq!(inner[0].1, NixValue::Bool(true));
                }
                other => panic!("expected nested AttrSet, got {:?}", other),
            }
        }
        other => panic!("expected AttrSet, got {:?}", other),
    }
}

// iterate_attr_set

#[test]
fn iterate_returns_all_keys() {
    let f = nix("{ a = 1; b = 2; c = 3; }");
    let pairs = iterate_attr_set(&f);
    let keys: Vec<&str> = pairs.iter().map(|(k, _)| k.as_str()).collect();
    assert_eq!(keys, ["a", "b", "c"]);
}

#[test]
fn parsed_node_text_round_trips() {
    let f = nix("{ enable = true; }");
    let node = find_option(&f, "enable").unwrap();
    assert_eq!(node.text(), "true");
}

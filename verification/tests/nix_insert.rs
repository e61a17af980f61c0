//! Inserting new option bindings into Nix source.
use nixman_core::nix::format::NixValue;
use nixman_core::nix::insert::add_option;
use nixman_core::nix::reader::parse_string;

// add_option — basic insertion

#[test]
fn add_option_to_root_attrset() {
    let src = "{\n  enable = true;\n}";
    let result = add_option(src, "port", &NixValue::Int(8080), "  ").unwrap();
    assert!(result.contains("port = 8080;"));
    assert!(result.contains("enable = true;"));
    parse_string(&result).expect("result should be valid Nix");
}

#[test]
fn add_option_preserves_existing_content() {
    let src = "# My NixOS config\n{\n  services.nginx.enable = true;\n}";
    let result =
        add_option(src, "services.nginx.port", &NixValue::Int(443), "  ").unwrap();
    assert!(result.starts_with("# My NixOS config\n"));
    assert!(result.contains("services.nginx.enable = true;"));
    assert!(result.contains("services.nginx.port = 443;"));
    parse_string(&result).expect("result should be valid Nix");
}

#[test]
fn add_option_string_value() {
    let src = "{\n}";
    let result = add_option(
        src,
        "networking.hostname",
        &NixValue::String("myhost".into()),
        "  ",
    )
    .unwrap();
    assert!(result.contains(r#"networking.hostname = "myhost";"#));
    parse_string(&result).expect("result should be valid Nix");
}

#[test]
fn add_option_bool_value() {
    let src = "{\n}";
    let result = add_option(src, "boot.loader.grub.enable", &NixValue::Bool(true), "  ")
        .unwrap();
    assert!(result.contains("boot.loader.grub.enable = true;"));
    parse_string(&result).expect("result should be valid Nix");
}

#[test]
fn add_option_list_value() {
    let src = "{\n}";
    let result = add_option(
        src,
        "environment.systemPackages",
        &NixValue::List(vec![
            NixValue::Expression("pkgs.vim".into()),
            NixValue::Expression("pkgs.git".into()),
        ]),
        "  ",
    )
    .unwrap();
    assert!(result.contains("environment.systemPackages = [ pkgs.vim pkgs.git ];"));
    parse_string(&result).expect("result should be valid Nix");
}

#[test]
fn add_option_inserts_before_closing_brace() {
    let src = "{\n  enable = true;\n}";
    let result = add_option(src, "port", &NixValue::Int(80), "  ").unwrap();
    // The new line must appear before the closing `}`.
    let brace_pos = result.rfind('}').unwrap();
    let port_pos = result.find("port = 80").unwrap();
    assert!(port_pos < brace_pos);
}

#[test]
fn add_option_finds_nested_attrset() {
    // If an existing nested AttrSet matches a prefix of the path,
    // insert inside that AttrSet using only the remaining key.
    let src = "{\n  services = {\n    enable = true;\n  };\n}";
    let result = add_option(src, "services.port", &NixValue::Int(80), "    ").unwrap();
    // The new entry should be inside `services = { ... }`.
    assert!(result.contains("port = 80;"));
    parse_string(&result).expect("result should be valid Nix");
}

#[test]
fn add_option_through_lambda() {
    let src = "{ config, pkgs, ... }:\n{\n  services.nginx.enable = true;\n}";
    let result = add_option(src, "services.nginx.port", &NixValue::Int(80), "  ").unwrap();
    assert!(result.contains("services.nginx.port = 80;"));
    // Lambda header must be preserved.
    assert!(result.starts_with("{ config, pkgs, ... }:"));
    parse_string(&result).expect("result should be valid Nix");
}

#[test]
fn add_option_with_tab_indent() {
    let src = "{\n\tenable = true;\n}";
    let result = add_option(src, "port", &NixValue::Int(22), "\t").unwrap();
    assert!(result.contains("\tport = 22;"));
    parse_string(&result).expect("result should be valid Nix");
}

#[test]
fn add_option_inserts_at_one_place_only() {
    let src = "# top\n{\n  # keep me\n  a = 1;\n}\n";
    let result = add_option(src, "b", &NixValue::Int(2), "  ").unwrap();
    assert_eq!(result, "# top\n{\n  # keep me\n  a = 1;\n  b = 2;\n}\n");
}

#[test]
fn add_option_then_remove_option_restores_the_source() {
    let src = "# top\n{\n  # keep me\n  a = 1;\n}\n";
    let with_b = add_option(src, "b.c", &NixValue::Bool(true), "  ").unwrap();
    assert_eq!(nixman_core::nix::writer::remove_option(&with_b, "b.c").unwrap(), src);
}

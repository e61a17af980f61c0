//! Indentation detection and serialisation of values to Nix syntax.
use nixman_core::nix::format::{detect_indent, value_to_nix, NixValue};

// detect_indent

#[test]
fn detect_two_spaces() {
    let src = "{\n  enable = true;\n  port = 8080;\n}";
    assert_eq!(detect_indent(src), "  ");
}

#[test]
fn detect_four_spaces() {
    let src = "{\n    enable = true;\n    port = 8080;\n}";
    assert_eq!(detect_indent(src), "    ");
}

#[test]
fn detect_tabs() {
    let src = "{\n\tenable = true;\n\tport = 8080;\n}";
    assert_eq!(detect_indent(src), "\t");
}

#[test]
fn detect_defaults_to_two_spaces_for_no_indent() {
    assert_eq!(detect_indent("{ enable = true; }"), "  ");
}

#[test]
fn detect_gcd_of_mixed_levels() {
    // Lines indented 2, 4, 6 → GCD = 2.
    let src = "{\n  a = 1;\n    b = 2;\n      c = 3;\n}";
    assert_eq!(detect_indent(src), "  ");
}

// value_to_nix

#[test]
fn serialize_bool_true() {
    assert_eq!(value_to_nix(&NixValue::Bool(true)), "true");
}

#[test]
fn serialize_bool_false() {
    assert_eq!(value_to_nix(&NixValue::Bool(false)), "false");
}

#[test]
fn serialize_integer() {
    assert_eq!(value_to_nix(&NixValue::Int(42)), "42");
    assert_eq!(value_to_nix(&NixValue::Int(-7)), "-7");
}

#[test]
fn serialize_string_simple() {
    assert_eq!(
        value_to_nix(&NixValue::String("hello".into())),
        r#""hello""#
    );
}

#[test]
fn serialize_string_escapes() {
    assert_eq!(
        value_to_nix(&NixValue::String("say \"hi\"".into())),
        r#""say \"hi\"""#
    );
    assert_eq!(
        value_to_nix(&NixValue::String("back\\slash".into())),
        r#""back\\slash""#
    );
}

#[test]
fn serialize_null() {
    assert_eq!(value_to_nix(&NixValue::Null), "null");
}

#[test]
fn serialize_path() {
    assert_eq!(
        value_to_nix(&NixValue::Path("/etc/nixos".into())),
        "/etc/nixos"
    );
}

#[test]
fn serialize_empty_list() {
    assert_eq!(value_to_nix(&NixValue::List(vec![])), "[ ]");
}

#[test]
fn serialize_list() {
    let v = NixValue::List(vec![
        NixValue::Int(1),
        NixValue::Int(2),
        NixValue::Int(3),
    ]);
    assert_eq!(value_to_nix(&v), "[ 1 2 3 ]");
}

#[test]
fn serialize_empty_attrset() {
    assert_eq!(value_to_nix(&NixValue::AttrSet(vec![])), "{ }");
}

#[test]
fn serialize_attrset() {
    let v = NixValue::AttrSet(vec![
        ("enable".into(), NixValue::Bool(true)),
        ("port".into(), NixValue::Int(80)),
    ]);
    assert_eq!(value_to_nix(&v), "{ enable = true; port = 80; }");
}

#[test]
fn serialize_expression_passthrough() {
    let expr = "pkgs.lib.mkIf condition value".to_string();
    assert_eq!(value_to_nix(&NixValue::Expression(expr.clone())), expr);
}

#[test]
fn serialize_nested_list() {
    let v = NixValue::List(vec![
        NixValue::String("a".into()),
        NixValue::String("b".into()),
    ]);
    assert_eq!(value_to_nix(&v), r#"[ "a" "b" ]"#);
}

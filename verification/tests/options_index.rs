//! Reading option types, descriptions and raw `options.json` entries.
use nixman_core::options::index::{
    clean_description, extract_declaration, parse_enum_variants, parse_option_type, value_to_string, RawDeclaration,
    RawValue,
};
use nixman_core::options::types::OptionType;

#[test]
fn type_boolean() {
    assert!(matches!(parse_option_type("boolean"), OptionType::Bool));
}

#[test]
fn type_string() {
    assert!(matches!(parse_option_type("string"), OptionType::String));
    assert!(matches!(
        parse_option_type("non-empty string"),
        OptionType::String
    ));
}

#[test]
fn type_signed_integer() {
    assert!(matches!(parse_option_type("signed integer"), OptionType::Int));
}

#[test]
fn type_sized_unsigned_integer() {
    assert!(matches!(
        parse_option_type("16 bit unsigned integer; between 0 and 65535 (both inclusive)"),
        OptionType::Int
    ));
}

#[test]
fn type_float() {
    assert!(matches!(
        parse_option_type("floating point number"),
        OptionType::Float
    ));
}

#[test]
fn type_path() {
    assert!(matches!(parse_option_type("path"), OptionType::Path));
}

#[test]
fn type_package() {
    assert!(matches!(parse_option_type("package"), OptionType::Package));
}

#[test]
fn type_submodule() {
    assert!(matches!(
        parse_option_type("submodule"),
        OptionType::Submodule
    ));
}

#[test]
fn type_list_of_string() {
    match parse_option_type("list of string") {
        OptionType::ListOf(inner) => assert!(matches!(*inner, OptionType::String)),
        other => panic!("expected ListOf, got {:?}", other),
    }
}

#[test]
fn type_list_of_package_parenthesised() {
    match parse_option_type("list of (package)") {
        OptionType::ListOf(inner) => assert!(matches!(*inner, OptionType::Package)),
        other => panic!("expected ListOf, got {:?}", other),
    }
}

#[test]
fn type_attribute_set_of_string() {
    match parse_option_type("attribute set of string") {
        OptionType::AttrsOf(inner) => assert!(matches!(*inner, OptionType::String)),
        other => panic!("expected AttrsOf, got {:?}", other),
    }
}

#[test]
fn type_enum() {
    match parse_option_type(r#"one of "tcp", "udp""#) {
        OptionType::Enum(variants) => assert_eq!(variants, vec!["tcp", "udp"]),
        other => panic!("expected Enum, got {:?}", other),
    }
}

#[test]
fn type_unknown_is_unspecified() {
    assert!(matches!(
        parse_option_type("some weird composite type"),
        OptionType::Unspecified
    ));
}

#[test]
fn type_empty_is_unspecified() {
    assert!(matches!(parse_option_type(""), OptionType::Unspecified));
}

#[test]
fn value_null_returns_none() {
    assert_eq!(value_to_string(&RawValue::Null), None);
}

#[test]
fn value_literal_expression_unwrapped() {
    let v = RawValue::Literal("false".to_string());
    assert_eq!(value_to_string(&v), Some("false".to_string()));
}

#[test]
fn value_md_doc_unwrapped() {
    let v = RawValue::Literal("some markdown".to_string());
    assert_eq!(value_to_string(&v), Some("some markdown".to_string()));
}

#[test]
fn value_plain_bool() {
    assert_eq!(
        value_to_string(&RawValue::Other("true".to_string())),
        Some("true".to_string())
    );
}

#[test]
fn value_plain_string() {
    assert_eq!(
        value_to_string(&RawValue::Str("hello".to_string())),
        Some("hello".to_string())
    );
}

#[test]
fn strips_xml_tags() {
    let raw = "<para>Enable <emphasis>nginx</emphasis>.</para>";
    assert_eq!(clean_description(raw), "Enable nginx.");
}

#[test]
fn plain_text_unchanged() {
    let raw = "Whether to enable nginx.";
    assert_eq!(clean_description(raw), "Whether to enable nginx.");
}

#[test]
fn preserves_literal_angle_operators() {
    let raw = "someOption < 5 and someOption > 10";
    assert_eq!(
        clean_description(raw),
        "someOption < 5 and someOption > 10"
    );
}

#[test]
fn preserves_nix_expression_gt_operator() {
    let raw = "This only works with NixOS >= 24.11.";
    assert_eq!(clean_description(raw), "This only works with NixOS >= 24.11.");
}

#[test]
fn strips_self_closing_tags() {
    let raw = "Some text<para/>more text";
    assert_eq!(clean_description(raw), "Some textmore text");
}

#[test]
fn strips_tags_with_attributes() {
    let raw = r#"<emphasis role="bold">Important</emphasis>"#;
    assert_eq!(clean_description(raw), "Important");
}

#[test]
fn handles_mixed_known_tags_and_literal_operators() {
    let raw = "<para>Set to <literal>1</literal> if value > 10</para>";
    assert_eq!(clean_description(raw), "Set to 1 if value > 10");
}

#[test]
fn strips_unknown_tag_content() {
    // Unknown tags like <foobar> are NOT stripped (they pass through as literal)
    let raw = "some <custom> text";
    assert_eq!(clean_description(raw), "some <custom> text");
}

#[test]
fn enum_variants_parsed() {
    let variants = parse_enum_variants(r#""tcp", "udp", "sctp""#);
    assert_eq!(variants, vec!["tcp", "udp", "sctp"]);
}

#[test]
fn declaration_bare_string() {
    let decls = vec![RawDeclaration::Path("nixos/modules/foo.nix".to_string())];
    assert_eq!(extract_declaration(&decls), "nixos/modules/foo.nix");
}

#[test]
fn declaration_object_form() {
    let decls = vec![RawDeclaration::Object(Some("nixos/modules/bar.nix".to_string()))];
    assert_eq!(extract_declaration(&decls), "nixos/modules/bar.nix");
}

#[test]
fn declaration_empty_returns_default() {
    assert_eq!(extract_declaration(&[]), "");
}

fn raw(type_str: &str) -> nixman_core::options::index::RawOption {
    nixman_core::options::index::RawOption {
        declarations: Vec::new(),
        description: nixman_core::options::index::RawValue::Null,
        default: nixman_core::options::index::RawValue::Null,
        example: nixman_core::options::index::RawValue::Null,
        type_str: type_str.to_string(),
    }
}

#[test]
fn raw_options_come_out_sorted_by_path_and_all_kept() {
    let entries = vec![
        ("services.nginx.enable".to_string(), raw("boolean")),
        ("boot.loader.grub.enable".to_string(), raw("boolean")),
        ("networking.hostName".to_string(), raw("string")),
        ("boot.kernelParams".to_string(), raw("list of string")),
    ];
    let metas = nixman_core::options::index::raw_options_to_meta(&entries);
    let paths: Vec<&str> = metas.iter().map(|m| m.path.as_str()).collect();
    assert_eq!(
        paths,
        vec!["boot.kernelParams", "boot.loader.grub.enable", "networking.hostName", "services.nginx.enable"]
    );
}

//! Parsing Nix source and reporting syntax-error positions.
use nixman_core::nix::reader::{byte_offset_to_line_col, parse_string, NixParseError};

#[test]
fn parse_valid_attr_set() {
    let src = "{ enable = true; }";
    let nix_file = parse_string(src).expect("should parse");
    assert_eq!(nix_file.source, src);
}

#[test]
fn parse_valid_nix_module() {
    let src = "{ config, pkgs, ... }:\n{\n  services.nginx.enable = true;\n}";
    let nix_file = parse_string(src).expect("should parse");
    assert_eq!(nix_file.source, src);
}

#[test]
fn parse_syntax_error_reports_position() {
    let src = "{ enable = ; }"; // missing value
    let err = parse_string(src).expect_err("should fail");
    match err {
        NixParseError::SyntaxError { line, column, .. } => {
            // Line 1, somewhere past the `=`
            assert_eq!(line, 1);
            assert!(column > 1);
        }
        other => panic!("unexpected error kind: {:?}", other),
    }
}

#[test]
fn byte_offset_first_line() {
    // Offset 0 → line 1, col 1
    assert_eq!(byte_offset_to_line_col("hello", 0), (1, 1));
}

#[test]
fn byte_offset_second_line() {
    let src = "line1\nline2";
    // Offset 6 is the start of "line2"
    assert_eq!(byte_offset_to_line_col(src, 6), (2, 1));
}

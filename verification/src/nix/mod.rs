//! Reading and editing Nix source files.
pub mod ast;
pub mod format;
pub mod insert;
pub mod modules;
pub mod reader;
pub mod resolver;
pub mod syntax;
pub mod traversal;
pub mod writer;

//! NixOS system generations: reading what the nix tools print about them,
//! and comparing their package sets.
pub mod diff;
pub mod parse;
pub mod types;

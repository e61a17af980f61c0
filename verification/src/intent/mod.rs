//! The intent engine's pure part: reading assertion failures out of
//! `nix eval` output, resolving the conflicts they describe, and guessing
//! which options a change may set by implication.
pub mod assertions;
pub mod implications;
pub mod plan;
pub mod resolver;
pub mod trial;
pub mod types;

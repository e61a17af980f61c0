//! Package lists of a configuration: reading, adding to and removing from
//! `environment.systemPackages` and lists like it, in the Nix source.
pub mod manage;
pub mod query;
pub mod types;

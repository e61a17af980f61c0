//! The NixOS option index: reading the evaluated option set, searching it,
//! and keying its cache by the flake lock.
pub mod cache;
pub mod index;
pub mod search;
pub mod types;

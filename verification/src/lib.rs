//! Domain logic for NixOS configuration management: Nix source editing,
//! option metadata, package lists, generation bookkeeping and the intent
//! engine's text analysis, each stated and proved with Verus.
pub mod text;
pub mod builder;
pub mod nix;
pub mod intent;
pub mod git;
pub mod generations;
pub mod options;
pub mod packages;
pub mod config;
pub mod flake;
pub mod preflight;

//! Flake input inspection: the direct inputs of a flake and their pinned
//! metadata, read from the structure of its `flake.lock`.
pub mod metadata;
pub mod types;

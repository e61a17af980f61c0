//! Editing NixOS configuration options: queued changes, applying them to
//! source text, and the pure parts of reading, setting and removing
//! options.
pub mod pending;
pub mod types;
pub mod validate;
pub mod editor;
pub mod apply;

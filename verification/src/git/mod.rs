//! Git awareness for configuration workspaces: commit messages that say
//! which options changed, and the values a repository's state is reported in.
pub mod commit;
pub mod types;

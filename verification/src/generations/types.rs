//! Values describing generations and the outcome of operations on them.
use vstd::prelude::*;
use vstd::string::*;
use crate::text::{chars_of, dec, dec_i64, dec_u64, push_all, string_from};

verus! {

/// Metadata of one NixOS system generation (`system-N-link` under
/// `/nix/var/nix/profiles/`).
#[derive(Debug, Clone)]
pub struct Generation {
    /// Generation number, from the `system-N-link` name.
    pub number: u32,
    /// Creation time, in seconds since the Unix epoch (UTC): the symlink's
    /// modification time.
    pub date: i64,
    /// Contents of `<store-path>/nixos-version`, or `unknown`.
    pub nixos_version: String,
    /// Kernel version, from the `<store-path>/kernel` symlink target.
    pub kernel_version: String,
    /// The store path the generation symlink resolves to.
    pub path: String,
    /// This generation is the active one.
    pub is_current: bool,
}

/// The result of comparing two generations' package sets.
#[derive(Debug, Clone)]
pub struct GenerationDiff {
    /// Packages in the newer generation only.
    pub added_packages: Vec<String>,
    /// Packages in the older generation only.
    pub removed_packages: Vec<String>,
    /// Packages in both at different versions: name, old version, new
    /// version.
    pub changed_packages: Vec<(String, String, String)>,
}

/// Summary of a garbage-collection run.
#[derive(Debug, Clone)]
pub struct GcResult {
    /// Bytes freed, as reported by `nix-collect-garbage`.
    pub freed_bytes: u64,
    /// Generation numbers deleted before the collection.
    pub deleted_generations: Vec<u32>,
}

/// Errors of generation operations.
#[derive(Debug)]
pub enum GenerationError {
    /// An I/O error, by its message.
    IoError(String),
    /// A value could not be parsed from the filesystem or command output.
    ParseError(String),
    /// A nix command exited with a non-zero status.
    CommandFailed { exit_code: i32, stderr: String },
    /// The requested generation does not exist.
    GenerationNotFound(u32),
}

/// The display text of a generation error.
pub open spec fn generation_error_text(e: GenerationError) -> Seq<char> {
    match e {
        GenerationError::IoError(m) => "I/O error: "@ + m@,
        GenerationError::ParseError(m) => "parse error: "@ + m@,
        GenerationError::CommandFailed { exit_code, stderr } => "command failed (exit "@
            + crate::text::dec_int(exit_code as int) + "): "@ + stderr@,
        GenerationError::GenerationNotFound(n) => "generation "@ + dec(n as nat) + " not found"@,
    }
}

impl GenerationError {
    /// The error's display text.
    pub fn message(&self) -> (r: String)
        ensures
            r@ == generation_error_text(*self),
    {
        let v = match self {
            GenerationError::IoError(m) => {
                let mut v = chars_of("I/O error: ");
                push_all(&mut v, &chars_of(m.as_str()));
                v
            },
            GenerationError::ParseError(m) => {
                let mut v = chars_of("parse error: ");
                push_all(&mut v, &chars_of(m.as_str()));
                v
            },
            GenerationError::CommandFailed { exit_code, stderr } => {
                let mut v = chars_of("command failed (exit ");
                push_all(&mut v, &dec_i64(*exit_code as i64));
                push_all(&mut v, &chars_of("): "));
                push_all(&mut v, &chars_of(stderr.as_str()));
                v
            },
            GenerationError::GenerationNotFound(n) => {
                let mut v = chars_of("generation ");
                push_all(&mut v, &dec_u64(*n as u64));
                push_all(&mut v, &chars_of(" not found"));
                v
            },
        };
        string_from(&v)
    }
}

} // verus!

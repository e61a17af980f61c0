//! The values the configuration editor works with: queued changes, edit
//! operations, validation outcomes, per-file diffs and errors.
use vstd::prelude::*;
use vstd::string::*;
use crate::text::{chars_of, join, join_exec, push_all, string_from, string_views};
use crate::nix::format::NixValue;
use crate::nix::resolver::{resolve_error_text, ResolveError};
use crate::nix::traversal::TextRange;
use crate::nix::writer::{write_error_text, WriteError};

verus! {

/// A change to a configuration option that has been queued but not yet
/// written to disk.
#[derive(Debug)]
pub struct PendingChange {
    /// Dotted option path, such as `services.nginx.enable`.
    pub option_path: String,
    /// The file the change will be applied to.
    pub file: String,
    /// The value before the edit, when the option was already set.
    pub old_value: Option<NixValue>,
    /// The value to write.
    pub new_value: NixValue,
    /// Byte range of the existing value in `file`; `None` when the option
    /// is new and will be inserted.
    pub range: Option<TextRange>,
    /// When the change was queued, in seconds since the Unix epoch (UTC).
    pub timestamp: i64,
}

/// A high-level description of an edit.
#[derive(Debug)]
pub enum EditOperation {
    /// Replace the value of an existing option.
    SetValue { path: String, value: NixValue },
    /// Remove an option entirely.
    Remove { path: String },
    /// Insert a new option.
    Insert { path: String, value: NixValue },
}

/// The result of a syntax check of a source file.
#[derive(Debug)]
pub enum ValidationResult {
    /// The source is valid Nix.
    Valid,
    /// `nix-instantiate --parse` reported errors, one line each.
    Invalid { errors: Vec<String> },
}

/// A file's text before and after the pending changes.
#[derive(Debug)]
pub struct FileDiff {
    /// The file.
    pub file: String,
    /// Its current content.
    pub original: String,
    /// Its content with all pending changes applied.
    pub modified: String,
}

/// Errors of the configuration editor.
#[derive(Debug)]
pub enum ConfigError {
    /// The module graph could not be resolved.
    ResolveError(ResolveError),
    /// A file could not be parsed, or an option was not where expected.
    ParseError(String),
    /// The edit itself failed.
    WriteError(WriteError),
    /// The edited file failed validation, with the reported lines.
    ValidationFailed(Vec<String>),
    /// An I/O failure, by its message.
    IoError(String),
}

/// The display text of a configuration error.
pub open spec fn config_error_text(e: ConfigError) -> Seq<char> {
    match e {
        ConfigError::ResolveError(r) => "resolve error: "@ + resolve_error_text(r),
        ConfigError::ParseError(m) => "parse error: "@ + m@,
        ConfigError::WriteError(w) => "write error: "@ + write_error_text(w),
        ConfigError::ValidationFailed(es) => "validation failed: "@ + join(string_views(es@), "; "@),
        ConfigError::IoError(m) => "I/O error: "@ + m@,
    }
}

impl ConfigError {
    /// The error's display text.
    pub fn message(&self) -> (r: String)
        ensures
            r@ == config_error_text(*self),
    {
        let (head, tail) = match self {
            ConfigError::ResolveError(e) => (chars_of("resolve error: "), chars_of(e.message().as_str())),
            ConfigError::ParseError(m) => (chars_of("parse error: "), chars_of(m.as_str())),
            ConfigError::WriteError(e) => (chars_of("write error: "), chars_of(e.message().as_str())),
            ConfigError::ValidationFailed(es) => {
                let mut parts: Vec<Vec<char>> = Vec::new();
                let mut i: usize = 0;
                while i < es.len()
                    invariant
                        0 <= i <= es@.len(),
                        parts@.map_values(|p: Vec<char>| p@) == string_views(es@).take(i as int),
                    decreases es@.len() - i,
                {
                    let ghost prev = parts@.map_values(|p: Vec<char>| p@);
                    let c = chars_of(es[i].as_str());
                    parts.push(c);
                    assert(string_views(es@)[i as int] == es@[i as int]@);
                    assert(string_views(es@).take(i + 1) =~= string_views(es@).take(i as int).push(c@));
                    assert(parts@.map_values(|p: Vec<char>| p@) =~= prev.push(c@));
                    i += 1;
                }
                assert(string_views(es@).take(es@.len() as int) =~= string_views(es@));
                (chars_of("validation failed: "), join_exec(&parts, &chars_of("; ")))
            },
            ConfigError::IoError(m) => (chars_of("I/O error: "), chars_of(m.as_str())),
        };
        let mut out = head;
        push_all(&mut out, &tail);
        string_from(&out)
    }
}

} // verus!

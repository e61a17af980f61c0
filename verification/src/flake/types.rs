//! The values of flake inspection: the pinned inputs, the parts of
//! `flake.lock` that are read, and errors.
use vstd::prelude::*;
use vstd::string::*;

verus! {

/// A direct input of a flake, with its pinned metadata.
#[derive(Debug, Clone)]
pub struct FlakeInput {
    /// The input's name in `flake.nix`, such as `nixpkgs`.
    pub name: String,
    /// The reconstructed flake URL, such as `github:NixOS/nixpkgs`.
    pub url: String,
    /// The pinned revision.
    pub rev: String,
    /// When the pinned commit was made, in seconds since the Unix epoch.
    pub last_modified: i64,
    /// The NAR hash of the fetched source tree.
    pub nar_hash: String,
}

/// The `locked` object of a lock-file node; each field present when it is
/// there with the JSON type read (a string, or an integer for
/// `lastModified`).
#[derive(Debug, Clone)]
pub struct LockedInput {
    pub input_type: Option<String>,
    pub owner: Option<String>,
    pub repo: Option<String>,
    pub git_ref: Option<String>,
    pub url: Option<String>,
    pub rev: Option<String>,
    pub nar_hash: Option<String>,
    pub last_modified: Option<i64>,
}

/// A node of the lock file that is a JSON object: its `inputs` when they
/// are an object (each input's target when it is a string), and its
/// `locked` object when there is one.
#[derive(Debug, Clone)]
pub struct LockNode {
    pub inputs: Option<Vec<(String, Option<String>)>>,
    pub locked: Option<LockedInput>,
}

/// The parts of `flake.lock` that are read: the `nodes` object when there
/// is one (each node, `None` when it is not an object), in the order of
/// its keys, and the `root` key when it is a string.
#[derive(Debug, Clone)]
pub struct LockFile {
    pub nodes: Option<Vec<(String, Option<LockNode>)>>,
    pub root: Option<String>,
}

/// Errors of flake operations.
#[derive(Debug)]
pub enum FlakeError {
    /// There is no `flake.lock` in the workspace.
    LockNotFound,
    /// The lock file is not valid JSON or lacks required fields.
    ParseError(String),
    /// An I/O error, by its message.
    IoError(String),
}

/// The display text of a flake error.
pub open spec fn flake_error_text(e: FlakeError) -> Seq<char> {
    match e {
        FlakeError::LockNotFound => "flake.lock not found in workspace"@,
        FlakeError::ParseError(m) => "failed to parse flake.lock: "@ + m@,
        FlakeError::IoError(m) => "I/O error reading flake.lock: "@ + m@,
    }
}

impl FlakeError {
    /// The error's display text.
    pub fn message(&self) -> (r: String)
        ensures
            r@ == flake_error_text(*self),
    {
        match self {
            FlakeError::LockNotFound => String::from_str("flake.lock not found in workspace"),
            FlakeError::ParseError(m) => {
                let mut r = String::from_str("failed to parse flake.lock: ");
                r.append(m.as_str());
                r
            },
            FlakeError::IoError(m) => {
                let mut r = String::from_str("I/O error reading flake.lock: ");
                r.append(m.as_str());
                r
            },
        }
    }
}

} // verus!

//! Values reported about a git repository.
use vstd::prelude::*;
use vstd::string::*;

verus! {

/// Current state of a git repository.
#[derive(Debug, Clone)]
pub struct GitStatus {
    /// Short name of the checked-out branch, such as `main`.
    pub branch: String,
    /// There are uncommitted changes in the index or working tree.
    pub is_dirty: bool,
    /// Number of files with uncommitted changes.
    pub changed_files: u32,
    /// Commits the local branch is ahead of its upstream.
    pub ahead: u32,
    /// Commits the local branch is behind its upstream.
    pub behind: u32,
}

/// A git branch and its upstream tracking reference, if any.
#[derive(Debug, Clone)]
pub struct GitBranch {
    /// Short branch name.
    pub name: String,
    /// Full name of the upstream, such as `origin/main`.
    pub upstream: Option<String>,
}

/// Request to stage a set of files and create a commit.
#[derive(Debug, Clone)]
pub struct CommitRequest {
    /// Commit message.
    pub message: String,
    /// Paths of the files to stage: absolute (within the worktree) or
    /// relative to the repository root.
    pub files: Vec<String>,
}

/// Errors of git operations.
#[derive(Debug, Clone)]
pub enum GitError {
    /// The path is not inside a git repository.
    NotARepo,
    /// HEAD is detached, not on a named branch.
    HeadDetached,
    /// The repository has no commits yet.
    NoCommits,
    /// A file could not be staged.
    StagingFailed(String),
    /// The commit could not be created.
    CommitFailed(String),
}

/// The display text of a git error.
pub open spec fn git_error_text(e: GitError) -> Seq<char> {
    match e {
        GitError::NotARepo => "path is not inside a git repository"@,
        GitError::HeadDetached => "HEAD is in detached state"@,
        GitError::NoCommits => "repository has no commits yet"@,
        GitError::StagingFailed(m) => "staging failed: "@ + m@,
        GitError::CommitFailed(m) => "commit failed: "@ + m@,
    }
}

impl GitError {
    /// The error's display text.
    pub fn message(&self) -> (r: String)
        ensures
            r@ == git_error_text(*self),
    {
        match self {
            GitError::NotARepo => String::from_str("path is not inside a git repository"),
            GitError::HeadDetached => String::from_str("HEAD is in detached state"),
            GitError::NoCommits => String::from_str("repository has no commits yet"),
            GitError::StagingFailed(m) => {
                let mut r = String::from_str("staging failed: ");
                r.append(m.as_str());
                r
            },
            GitError::CommitFailed(m) => {
                let mut r = String::from_str("commit failed: ");
                r.append(m.as_str());
                r
            },
        }
    }
}

} // verus!

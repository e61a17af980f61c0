//! Values passed through the intent engine.
use vstd::prelude::*;
use vstd::string::*;
use crate::text::string_views;

verus! {

/// The characters of an optional string.
pub open spec fn opt_view(o: Option<String>) -> Option<Seq<char>> {
    match o {
        Some(s) => Some(s@),
        None => None,
    }
}

/// A change proposed by the user or agent.
#[derive(Debug, Clone)]
pub struct ProposedChange {
    /// NixOS option path, such as `programs.hyprland.enable`.
    pub path: String,
    /// Value to set, as Nix source (`true`, `"hello"`, ...).
    pub value: String,
    /// Optional human-readable reason.
    pub reason: Option<String>,
}

/// A proposed change as plain values.
pub struct ChangeModel {
    pub path: Seq<char>,
    pub value: Seq<char>,
    pub reason: Option<Seq<char>>,
}

impl View for ProposedChange {
    type V = ChangeModel;

    open spec fn view(&self) -> ChangeModel {
        ChangeModel { path: self.path@, value: self.value@, reason: opt_view(self.reason) }
    }
}

/// Result of a trial evaluation.
#[derive(Debug, Clone)]
pub struct TrialResult {
    /// The evaluation succeeded (no assertion failures, no errors).
    pub success: bool,
    /// Raw stderr of `nix eval`.
    pub stderr: String,
    /// Raw stdout of `nix eval`.
    pub stdout: String,
    /// How long the evaluation took, in milliseconds.
    pub eval_time_ms: u64,
    /// Exit code of the nix process.
    pub exit_code: i32,
}

/// How a conflict was resolved.
#[derive(Debug, Clone)]
pub struct Resolution {
    /// The change made to resolve the conflict.
    pub change: ProposedChange,
    /// Explanation.
    pub explanation: String,
}

/// A resolution as plain values.
pub struct ResolutionModel {
    pub change: ChangeModel,
    pub explanation: Seq<char>,
}

impl View for Resolution {
    type V = ResolutionModel;

    open spec fn view(&self) -> ResolutionModel {
        ResolutionModel { change: self.change@, explanation: self.explanation@ }
    }
}

/// A conflict detected from an assertion failure.
#[derive(Debug, Clone)]
pub struct Conflict {
    /// The assertion message from NixOS.
    pub message: String,
    /// Options that are likely involved, read from the message.
    pub related_options: Vec<String>,
    /// Whether the conflict was resolved automatically.
    pub resolved: bool,
    /// How it was resolved, if it was.
    pub resolution: Option<Resolution>,
}

/// A conflict as plain values.
pub struct ConflictModel {
    pub message: Seq<char>,
    pub related_options: Seq<Seq<char>>,
    pub resolved: bool,
    pub resolution: Option<ResolutionModel>,
}

impl View for Conflict {
    type V = ConflictModel;

    open spec fn view(&self) -> ConflictModel {
        ConflictModel {
            message: self.message@,
            related_options: string_views(self.related_options@),
            resolved: self.resolved,
            resolution: match self.resolution {
                Some(r) => Some(r@),
                None => None,
            },
        }
    }
}

/// An option that the module system set as a consequence of a change.
#[derive(Debug, Clone)]
pub struct Implication {
    /// Option path that was set.
    pub path: String,
    /// Value it was set to.
    pub value: String,
    /// Why, when that can be told.
    pub reason: Option<String>,
}

/// The complete change plan of a proposal.
#[derive(Debug, Clone)]
pub struct ChangePlan {
    /// The changes to apply: the user's and the conflict resolutions.
    pub changes: Vec<ProposedChange>,
    /// Conflicts detected during the trial evaluation.
    pub conflicts: Vec<Conflict>,
    /// Options set by the module system as a consequence.
    pub implications: Vec<Implication>,
    /// Non-blocking warnings.
    pub warnings: Vec<String>,
    /// The plan evaluates without errors after all resolutions.
    pub valid: bool,
    /// Total evaluation time in milliseconds.
    pub eval_time_ms: u64,
}

/// Errors from the intent engine.
#[derive(Debug)]
pub enum IntentError {
    /// Workspace not found or invalid.
    WorkspaceError(String),
    /// Failed to create the temporary config copy.
    TempCopyFailed(String),
    /// Failed to inject changes into the config.
    InjectionFailed(String),
    /// The `nix eval` command could not run.
    EvalCommandFailed(String),
    /// Syntax-tree reading or writing error.
    AstError(String),
    /// I/O error, by its message.
    IoError(String),
}

/// The display text of an intent error.
pub open spec fn intent_error_text(e: IntentError) -> Seq<char> {
    match e {
        IntentError::WorkspaceError(m) => "workspace error: "@ + m@,
        IntentError::TempCopyFailed(m) => "temp copy failed: "@ + m@,
        IntentError::InjectionFailed(m) => "injection failed: "@ + m@,
        IntentError::EvalCommandFailed(m) => "eval command failed: "@ + m@,
        IntentError::AstError(m) => "AST error: "@ + m@,
        IntentError::IoError(m) => "IO error: "@ + m@,
    }
}

impl IntentError {
    /// The error's display text.
    pub fn message(&self) -> (r: String)
        ensures
            r@ == intent_error_text(*self),
    {
        let (prefix, m) = match self {
            IntentError::WorkspaceError(m) => ("workspace error: ", m),
            IntentError::TempCopyFailed(m) => ("temp copy failed: ", m),
            IntentError::InjectionFailed(m) => ("injection failed: ", m),
            IntentError::EvalCommandFailed(m) => ("eval command failed: ", m),
            IntentError::AstError(m) => ("AST error: ", m),
            IntentError::IoError(m) => ("IO error: ", m),
        };
        let mut r = String::from_str(prefix);
        r.append(m.as_str());
        r
    }
}

} // verus!

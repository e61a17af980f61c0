//! `nixos-rebuild` / `home-manager` build vocabulary and output-phase
//! detection.
use vstd::prelude::*;
use crate::text::{
    all_ascii, ascii_lower, ascii_lowered, ascii_upper, ascii_uppered, chars_of, contains, contains_str, dec_i64, dec_int, join, join_exec, lowercase, push_all, string_from,
    string_views, to_lowercase, trim, trim_chars, trim_end_char, trim_end_char_exec,
};

verus! {

/// The `nixos-rebuild` sub-command to run.
#[derive(Debug, Clone, Copy, PartialEq, Eq)]
pub enum BuildMode {
    Switch,
    Boot,
    Test,
    Build,
}

/// The command-line word for each build mode.
pub open spec fn mode_word(m: BuildMode) -> Seq<char> {
    match m {
        BuildMode::Switch => "switch"@,
        BuildMode::Boot => "boot"@,
        BuildMode::Test => "test"@,
        BuildMode::Build => "build"@,
    }
}

impl BuildMode {
    /// The `nixos-rebuild` sub-command for this mode.
    pub fn as_str(&self) -> (s: &'static str)
        ensures
            s@ == mode_word(*self),
    {
        match self {
            BuildMode::Switch => "switch",
            BuildMode::Boot => "boot",
            BuildMode::Test => "test",
            BuildMode::Build => "build",
        }
    }
}

/// The phase a build is in, as recognised from its output.
#[derive(Debug, Clone, Copy, PartialEq, Eq)]
pub enum BuildPhase {
    Evaluating,
    Fetching,
    Building,
    Activating,
}

/// Errors of a `nixos-rebuild` run.
#[derive(Debug, Clone, PartialEq, Eq)]
pub enum BuildError {
    /// `pkexec` exited with 126 or 127.
    PrivilegeEscalationFailed,
    /// `pkexec` or `nixos-rebuild` is not on `PATH`.
    CommandNotFound,
    /// The process could not be spawned; the text of the I/O error.
    SpawnFailed(String),
    /// The flake path is not valid UTF-8.
    FlakePathInvalid,
}

/// The human-readable text of each build error.
pub open spec fn build_error_text(e: BuildError) -> Seq<char> {
    match e {
        BuildError::PrivilegeEscalationFailed => "Privilege escalation failed or was cancelled"@,
        BuildError::CommandNotFound => "pkexec or nixos-rebuild not found \u{2014} ensure both are on PATH"@,
        BuildError::SpawnFailed(m) => "Failed to spawn nixos-rebuild: "@ + m@,
        BuildError::FlakePathInvalid => "Flake path contains invalid UTF-8 characters"@,
    }
}

impl BuildError {
    /// The error's display text.
    pub fn message(&self) -> (r: String)
        ensures
            r@ == build_error_text(*self),
    {
        let v = match self {
            BuildError::PrivilegeEscalationFailed => chars_of("Privilege escalation failed or was cancelled"),
            BuildError::CommandNotFound => chars_of("pkexec or nixos-rebuild not found \u{2014} ensure both are on PATH"),
            BuildError::SpawnFailed(m) => {
                let mut v = chars_of("Failed to spawn nixos-rebuild: ");
                push_all(&mut v, &chars_of(m.as_str()));
                v
            },
            BuildError::FlakePathInvalid => chars_of("Flake path contains invalid UTF-8 characters"),
        };
        string_from(&v)
    }
}

/// Errors of a `home-manager` run.
#[derive(Debug, Clone, PartialEq, Eq)]
pub enum BuilderError {
    /// `home-manager` is not on `PATH`.
    CommandNotFound,
    /// The process could not be spawned; the text of the I/O error.
    SpawnFailed(String),
    /// The build failed; its output.
    BuildFailed(String),
}

/// The human-readable text of each home-manager build error.
pub open spec fn builder_error_text(e: BuilderError) -> Seq<char> {
    match e {
        BuilderError::CommandNotFound => "home-manager not found \u{2014} ensure it is on PATH"@,
        BuilderError::SpawnFailed(m) => "Failed to spawn home-manager: "@ + m@,
        BuilderError::BuildFailed(m) => m@,
    }
}

impl BuilderError {
    /// The error's display text.
    pub fn message(&self) -> (r: String)
        ensures
            r@ == builder_error_text(*self),
    {
        let v = match self {
            BuilderError::CommandNotFound => chars_of("home-manager not found \u{2014} ensure it is on PATH"),
            BuilderError::SpawnFailed(m) => {
                let mut v = chars_of("Failed to spawn home-manager: ");
                push_all(&mut v, &chars_of(m.as_str()));
                v
            },
            BuilderError::BuildFailed(m) => chars_of(m.as_str()),
        };
        string_from(&v)
    }
}

/// The phase announced by an (already lowercased) output line, checked in
/// the order evaluating, fetching, building, activating.
pub open spec fn phase_of(lower: Seq<char>) -> Option<BuildPhase> {
    if contains(lower, "evaluating"@) || contains(lower, "these derivations will be built"@) {
        Some(BuildPhase::Evaluating)
    } else if contains(lower, "copying"@) || contains(lower, "fetching"@) {
        Some(BuildPhase::Fetching)
    } else if contains(lower, "building '"@) {
        Some(BuildPhase::Building)
    } else if contains(lower, "activating the configuration"@) || contains(lower, "setting up"@) {
        Some(BuildPhase::Activating)
    } else {
        None
    }
}

/// The build phase announced by a lowercased output line, if any.
pub fn detect_lowercased(lower: &Vec<char>) -> (r: Option<BuildPhase>)
    ensures
        r == phase_of(lower@),
{
    if contains_str(lower, "evaluating") || contains_str(lower, "these derivations will be built") {
        return Some(BuildPhase::Evaluating);
    }
    if contains_str(lower, "copying") || contains_str(lower, "fetching") {
        return Some(BuildPhase::Fetching);
    }
    if contains_str(lower, "building '") {
        return Some(BuildPhase::Building);
    }
    if contains_str(lower, "activating the configuration") || contains_str(lower, "setting up") {
        return Some(BuildPhase::Activating);
    }
    None
}

/// The build phase announced by an output line of `nixos-rebuild`, matched
/// case-insensitively.
pub fn detect(line: &str) -> (r: Option<BuildPhase>)
    ensures
        r == phase_of(lowercase(line@)),
        all_ascii(line@) ==> r == phase_of(ascii_lowered(line@)),
{
    let lower = to_lowercase(line);
    detect_lowercased(&lower)
}

/// The phase of an ASCII line does not depend on the case of its letters:
/// the line, its upper-case and its lower-case forms all lower-case alike
/// (so [`detect`] gives all three the same phase), and stay ASCII.
pub proof fn law_detect_ignores_ascii_case(line: Seq<char>)
    requires
        all_ascii(line),
    ensures
        all_ascii(ascii_uppered(line)),
        all_ascii(ascii_lowered(line)),
        phase_of(ascii_lowered(ascii_uppered(line))) == phase_of(ascii_lowered(line)),
        phase_of(ascii_lowered(ascii_lowered(line))) == phase_of(ascii_lowered(line)),
{
    assert forall|i: int| 0 <= i < line.len() implies ascii_lower(#[trigger] ascii_upper(line[i])) == ascii_lower(line[i])
        && ascii_lower(ascii_lower(line[i])) == ascii_lower(line[i]) && (ascii_upper(line[i]) as u32) < 128
        && (ascii_lower(line[i]) as u32) < 128 by {
        let c = line[i];
        let u = c as u32;
        assert(u < 128);
    }
    assert(ascii_lowered(ascii_uppered(line)) =~= ascii_lowered(line));
    assert(ascii_lowered(ascii_lowered(line)) =~= ascii_lowered(line));
}

// ---------------------------------------------------------------------------
// A build run's output and outcome
// ---------------------------------------------------------------------------

/// One line read from a build's output, without its line terminator
/// (trailing `\n`s, then trailing `\r`s), and the phase it announces.
pub fn stream_line(raw: &str) -> (r: (String, Option<BuildPhase>))
    ensures
        r.0@ == trim_end_char(trim_end_char(raw@, '\n'), '\r'),
        r.1 == phase_of(lowercase(r.0@)),
{
    let a = trim_end_char_exec(&chars_of(raw), '\n');
    let b = trim_end_char_exec(&a, '\r');
    let line = string_from(&b);
    let phase = detect(line.as_str());
    (line, phase)
}

/// The host name from the contents of `/etc/hostname`, trimmed, or `nixos`
/// when it could not be read.
pub fn hostname_from(contents: Option<&str>) -> (r: String)
    ensures
        r@ == match contents {
            Some(c) => trim(c@),
            None => "nixos"@,
        },
{
    match contents {
        Some(c) => string_from(&trim_chars(&chars_of(c))),
        None => String::from_str("nixos"),
    }
}

/// The `--flake` argument: the flake path, `#`, and the host name.
pub fn flake_arg(flake_path: &str, host: &str) -> (r: String)
    ensures
        r@ == flake_path@ + "#"@ + host@,
{
    let mut r = String::from_str(flake_path);
    r.append("#");
    r.append(host);
    r
}

/// What a finished build reports, without its duration.
#[derive(Debug, Clone, PartialEq, Eq)]
pub struct RunSummary {
    /// The process exited with status 0.
    pub success: bool,
    /// All output lines, standard output first, joined by newlines.
    pub output: String,
    /// On failure, `<tool> exited with code <code>`.
    pub error: Option<String>,
}

/// The exit code to report: the process's, or -1 when it had none (it was
/// killed by a signal).
pub open spec fn reported_code(exit_code: Option<i32>) -> int {
    match exit_code {
        Some(c) => c as int,
        None => -1,
    }
}

/// The summary of a run of `tool` that exited with `exit_code` and printed
/// `out` and then `err`.
pub open spec fn summary_of(tool: Seq<char>, exit_code: Option<i32>, out: Seq<Seq<char>>, err: Seq<Seq<char>>) -> (bool, Seq<char>, Option<Seq<char>>) {
    let success = exit_code == Some(0i32);
    (success, join(out + err, "\n"@), if success {
        None
    } else {
        Some(tool + " exited with code "@ + dec_int(reported_code(exit_code)))
    })
}

/// The model of a summary.
pub open spec fn summary_model(s: RunSummary) -> (bool, Seq<char>, Option<Seq<char>>) {
    (s.success, s.output@, match s.error {
        Some(e) => Some(e@),
        None => None,
    })
}

fn summarize(tool: &str, exit_code: Option<i32>, out: &Vec<String>, err: &Vec<String>) -> (r: RunSummary)
    ensures
        summary_model(r) == summary_of(tool@, exit_code, string_views(out@), string_views(err@)),
{
    let ghost all = string_views(out@) + string_views(err@);
    let mut parts: Vec<Vec<char>> = Vec::new();
    let mut i: usize = 0;
    while i < out.len()
        invariant
            0 <= i <= out@.len(),
            parts@.map_values(|p: Vec<char>| p@) == string_views(out@).take(i as int),
        decreases out@.len() - i,
    {
        let ghost prev = parts@.map_values(|p: Vec<char>| p@);
        let c = chars_of(out[i].as_str());
        parts.push(c);
        assert(string_views(out@).take(i + 1) =~= string_views(out@).take(i as int).push(c@));
        assert(parts@.map_values(|p: Vec<char>| p@) =~= prev.push(c@));
        i += 1;
    }
    let mut j: usize = 0;
    while j < err.len()
        invariant
            0 <= j <= err@.len(),
            parts@.map_values(|p: Vec<char>| p@) == string_views(out@) + string_views(err@).take(j as int),
        decreases err@.len() - j,
    {
        let ghost prev = parts@.map_values(|p: Vec<char>| p@);
        let c = chars_of(err[j].as_str());
        parts.push(c);
        assert(string_views(err@).take(j + 1) =~= string_views(err@).take(j as int).push(c@));
        assert(parts@.map_values(|p: Vec<char>| p@) =~= prev.push(c@));
        j += 1;
    }
    assert(string_views(err@).take(err@.len() as int) =~= string_views(err@));
    assert(string_views(out@).take(out@.len() as int) =~= string_views(out@));
    let output = string_from(&join_exec(&parts, &chars_of("\n")));
    let success = match exit_code {
        Some(c) => c == 0,
        None => false,
    };
    let error = if success {
        None
    } else {
        let code: i64 = match exit_code {
            Some(c) => c as i64,
            None => -1,
        };
        let mut e = chars_of(tool);
        push_all(&mut e, &chars_of(" exited with code "));
        push_all(&mut e, &dec_i64(code));
        Some(string_from(&e))
    };
    RunSummary { success, output, error }
}

/// The outcome of a `nixos-rebuild` run under `pkexec` that exited with
/// `exit_code` (none when killed by a signal) and printed `stdout_lines`
/// and `stderr_lines`: exit codes 126 and 127 mean the privilege
/// escalation failed or was cancelled; otherwise the run's summary.
pub fn rebuild_summary(exit_code: Option<i32>, stdout_lines: &Vec<String>, stderr_lines: &Vec<String>) -> (r: Result<RunSummary, BuildError>)
    ensures
        (exit_code == Some(126i32) || exit_code == Some(127i32)) ==> r == Err::<RunSummary, BuildError>(BuildError::PrivilegeEscalationFailed),
        !(exit_code == Some(126i32) || exit_code == Some(127i32)) ==> (r matches Ok(s)
            && summary_model(s) == summary_of("nixos-rebuild"@, exit_code, string_views(stdout_lines@), string_views(stderr_lines@))),
{
    match exit_code {
        Some(c) => if c == 126 || c == 127 {
            return Err(BuildError::PrivilegeEscalationFailed);
        },
        None => {},
    }
    Ok(summarize("nixos-rebuild", exit_code, stdout_lines, stderr_lines))
}

/// The summary of a `nixos-rebuild` run that exited with `exit_code` and
/// printed `stdout_lines` and `stderr_lines`, whatever the exit code: what
/// the one completion event of a run reports, also when the privilege
/// escalation failed.
pub fn rebuild_run_summary(exit_code: Option<i32>, stdout_lines: &Vec<String>, stderr_lines: &Vec<String>) -> (r: RunSummary)
    ensures
        summary_model(r) == summary_of("nixos-rebuild"@, exit_code, string_views(stdout_lines@), string_views(stderr_lines@)),
{
    summarize("nixos-rebuild", exit_code, stdout_lines, stderr_lines)
}

/// The outcome of a `home-manager` run that exited with `exit_code` and
/// printed `stdout_lines` and `stderr_lines`.
pub fn hm_summary(exit_code: Option<i32>, stdout_lines: &Vec<String>, stderr_lines: &Vec<String>) -> (r: RunSummary)
    ensures
        summary_model(r) == summary_of("home-manager"@, exit_code, string_views(stdout_lines@), string_views(stderr_lines@)),
{
    summarize("home-manager", exit_code, stdout_lines, stderr_lines)
}

} // verus!

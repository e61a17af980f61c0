//! Reading the outcome of a syntax check (`nix-instantiate --parse`): its
//! exit status and its standard error become a [`ValidationResult`].
use vstd::prelude::*;
use vstd::string::*;
use crate::text::{chars_of, lines, lines_exec, string_from, trim, trim_chars};
use crate::config::types::{ConfigError, ValidationResult};

verus! {

/// The lines of `s` that are not blank.
pub open spec fn nonblank_lines(ls: Seq<Seq<char>>) -> Seq<Seq<char>>
    decreases ls.len(),
{
    if ls.len() == 0 {
        ls
    } else {
        let r = nonblank_lines(ls.drop_last());
        if trim(ls.last()).len() > 0 {
            r.push(ls.last())
        } else {
            r
        }
    }
}

/// The error reported when `nix-instantiate --parse` failed without saying why.
pub open spec fn silent_failure_message() -> Seq<char> {
    "nix-instantiate exited with a non-zero status"@
}

/// The errors of a failed check with standard error `stderr`: its
/// non-blank lines, or the silent-failure message when there are none.
pub open spec fn reported_errors(stderr: Seq<char>) -> Seq<Seq<char>> {
    let ls = nonblank_lines(lines(stderr));
    if ls.len() == 0 {
        seq![silent_failure_message()]
    } else {
        ls
    }
}

/// The result of a syntax check that exited successfully or not, with
/// standard error `stderr`: valid on success, else invalid with the
/// non-blank lines of `stderr` (or a fixed message when there are none).
pub fn check_outcome(success: bool, stderr: &str) -> (r: ValidationResult)
    ensures
        success ==> r is Valid,
        !success ==> (r matches ValidationResult::Invalid { errors } && errors@.map_values(|e: String| e@) == reported_errors(stderr@)),
{
    if success {
        return ValidationResult::Valid;
    }
    let ls = lines_exec(&chars_of(stderr));
    let ghost lv = ls@.map_values(|p: Vec<char>| p@);
    let mut errors: Vec<String> = Vec::new();
    let mut i: usize = 0;
    while i < ls.len()
        invariant
            0 <= i <= ls@.len(),
            lv == ls@.map_values(|p: Vec<char>| p@),
            errors@.map_values(|e: String| e@) == nonblank_lines(lv.take(i as int)),
        decreases ls@.len() - i,
    {
        assert(lv.take(i + 1).drop_last() =~= lv.take(i as int));
        assert(lv.take(i + 1).last() == ls@[i as int]@);
        let ghost before = errors@.map_values(|e: String| e@);
        if trim_chars(&ls[i]).len() > 0 {
            errors.push(string_from(&ls[i]));
            assert(errors@.map_values(|e: String| e@) =~= before.push(ls@[i as int]@));
        }
        i += 1;
    }
    assert(lv.take(ls@.len() as int) =~= lv);
    if errors.len() == 0 {
        let mut only: Vec<String> = Vec::new();
        only.push(String::from_str("nix-instantiate exited with a non-zero status"));
        assert(only@.map_values(|e: String| e@) =~= seq![silent_failure_message()]);
        return ValidationResult::Invalid { errors: only };
    }
    ValidationResult::Invalid { errors }
}

/// Turn a check's result into the editor's outcome: nothing on success,
/// `ValidationFailed` with the reported lines otherwise.
pub fn require_valid(result: ValidationResult) -> (r: Result<(), ConfigError>)
    ensures
        match result {
            ValidationResult::Valid => r is Ok,
            ValidationResult::Invalid { errors } => r matches Err(ConfigError::ValidationFailed(es)) && es == errors,
        },
{
    match result {
        ValidationResult::Valid => Ok(()),
        ValidationResult::Invalid { errors } => Err(ConfigError::ValidationFailed(errors)),
    }
}

} // verus!

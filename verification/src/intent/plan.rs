//! The decisions of a proposal: which conflicts a trial evaluation shows,
//! which resolutions to add, whether to evaluate again, and the plan that
//! results. Running the evaluations is the caller's part.
use vstd::prelude::*;
use crate::intent::assertions::{assertion_messages, conflict_of, parse_assertions};
use crate::intent::resolver::{copy_change, proposed_paths, resolution_changes, resolve_conflicts, resolve_one};
use crate::intent::types::{ChangeModel, ChangePlan, Conflict, ConflictModel, Implication, ProposedChange, TrialResult};

verus! {

/// The conflicts a trial evaluation shows: those of its failed assertions
/// when it failed, none when it succeeded.
pub open spec fn trial_conflicts(t: TrialResult) -> Seq<ConflictModel> {
    if t.success {
        Seq::<ConflictModel>::empty()
    } else {
        assertion_messages(t.stderr@).map_values(|m: Seq<char>| conflict_of(m))
    }
}

/// The models of a sequence of changes.
pub open spec fn change_models(cs: Seq<ProposedChange>) -> Seq<ChangeModel> {
    cs.map_values(|c: ProposedChange| c@)
}

/// The models of a sequence of conflicts.
pub open spec fn conflict_models(cs: Seq<Conflict>) -> Seq<ConflictModel> {
    cs.map_values(|c: Conflict| c@)
}

/// What the first trial of a proposal gives: its conflicts, each resolved
/// where a mutual exclusion allows, and the changes those resolutions add.
pub struct FirstTrial {
    pub conflicts: Vec<Conflict>,
    pub resolutions: Vec<ProposedChange>,
}

/// The conflicts of the first trial of `changes` and their resolutions.
pub fn first_trial(changes: &Vec<ProposedChange>, trial: &TrialResult) -> (r: FirstTrial)
    ensures
        conflict_models(r.conflicts@) == trial_conflicts(*trial).map_values(
            |c: ConflictModel| resolve_one(c, proposed_paths(change_models(changes@))),
        ),
        change_models(r.resolutions@) == resolution_changes(trial_conflicts(*trial), proposed_paths(change_models(changes@))),
{
    let mut conflicts = if !trial.success {
        parse_assertions(trial.stderr.as_str())
    } else {
        let v: Vec<Conflict> = Vec::new();
        assert(conflict_models(v@) =~= trial_conflicts(*trial));
        v
    };
    let resolutions = resolve_conflicts(&mut conflicts, changes);
    FirstTrial { conflicts, resolutions }
}

/// The changes of a plan: the user's, then the resolutions.
pub fn all_changes(changes: &Vec<ProposedChange>, resolutions: &Vec<ProposedChange>) -> (r: Vec<ProposedChange>)
    ensures
        change_models(r@) == change_models(changes@) + change_models(resolutions@),
{
    let mut r: Vec<ProposedChange> = Vec::new();
    let mut i: usize = 0;
    while i < changes.len()
        invariant
            0 <= i <= changes@.len(),
            change_models(r@) == change_models(changes@.take(i as int)),
        decreases changes@.len() - i,
    {
        let ghost prev = change_models(r@);
        let c = copy_change(&changes[i]);
        r.push(c);
        assert(change_models(changes@.take(i + 1)) =~= change_models(changes@.take(i as int)).push(changes@[i as int]@));
        assert(change_models(r@) =~= prev.push(c@));
        i += 1;
    }
    let mut j: usize = 0;
    while j < resolutions.len()
        invariant
            0 <= j <= resolutions@.len(),
            change_models(r@) == change_models(changes@) + change_models(resolutions@.take(j as int)),
        decreases resolutions@.len() - j,
    {
        let ghost prev = change_models(r@);
        let c = copy_change(&resolutions[j]);
        r.push(c);
        assert(change_models(resolutions@.take(j + 1)) =~= change_models(resolutions@.take(j as int)).push(resolutions@[j as int]@));
        assert(change_models(r@) =~= prev.push(c@));
        j += 1;
    }
    assert(changes@.take(changes@.len() as int) =~= changes@);
    assert(resolutions@.take(resolutions@.len() as int) =~= resolutions@);
    r
}

/// The plan of a proposal. When resolutions were added, the plan rests on
/// the second trial (of the changes with the resolutions): its success,
/// its conflicts, and the time of both trials; otherwise on the first
/// trial and its conflicts. Implications are only looked for in a valid
/// plan; `implications` are those found, if they were looked for.
pub fn plan_of(
    all: Vec<ProposedChange>,
    first: &TrialResult,
    first_conflicts: Vec<Conflict>,
    retry: Option<&TrialResult>,
    implications: Vec<Implication>,
) -> (r: ChangePlan)
    requires
        retry matches Some(t) ==> first.eval_time_ms + t.eval_time_ms <= u64::MAX,
    ensures
        change_models(r.changes@) == change_models(all@),
        r.warnings@.len() == 0,
        match retry {
            Some(t) => {
                &&& r.valid == t.success
                &&& r.eval_time_ms == first.eval_time_ms + t.eval_time_ms
                &&& conflict_models(r.conflicts@) == trial_conflicts(*t)
            },
            None => {
                &&& r.valid == first.success
                &&& r.eval_time_ms == first.eval_time_ms
                &&& r.conflicts@ == first_conflicts@
            },
        },
        r.valid ==> r.implications@ == implications@,
        !r.valid ==> r.implications@.len() == 0,
{
    let (valid, time, conflicts) = match retry {
        Some(t) => {
            let cs = if !t.success {
                parse_assertions(t.stderr.as_str())
            } else {
                let v: Vec<Conflict> = Vec::new();
                assert(conflict_models(v@) =~= trial_conflicts(*t));
                v
            };
            (t.success, first.eval_time_ms + t.eval_time_ms, cs)
        },
        None => (first.success, first.eval_time_ms, first_conflicts),
    };
    let implications = if valid {
        implications
    } else {
        Vec::new()
    };
    ChangePlan { changes: all, conflicts, implications, warnings: Vec::new(), valid, eval_time_ms: time }
}

} // verus!

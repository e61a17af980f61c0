//! Automatic resolution of common NixOS assertion conflicts.
use vstd::prelude::*;
use vstd::string::*;
use crate::text::{
    chars_of, contains, copy_strings, ends_with_str, lowercase, string_in, string_views,
    to_lowercase, contains_str,
};
use crate::intent::types::{
    opt_view, ChangeModel, Conflict, ConflictModel, ProposedChange, Resolution, ResolutionModel,
};

verus! {

/// The options of `opts` whose path ends in `.enable`, in order.
pub open spec fn enable_options(opts: Seq<Seq<char>>) -> Seq<Seq<char>>
    decreases opts.len(),
{
    if opts.len() == 0 {
        Seq::<Seq<char>>::empty()
    } else {
        let r = enable_options(opts.drop_last());
        if ".enable"@.is_suffix_of(opts.last()) {
            r.push(opts.last())
        } else {
            r
        }
    }
}

/// The options of `opts` that are not among `paths`, in order.
pub open spec fn unproposed(opts: Seq<Seq<char>>, paths: Seq<Seq<char>>) -> Seq<Seq<char>>
    decreases opts.len(),
{
    if opts.len() == 0 {
        Seq::<Seq<char>>::empty()
    } else {
        let r = unproposed(opts.drop_last(), paths);
        if paths.contains(opts.last()) {
            r
        } else {
            r.push(opts.last())
        }
    }
}

/// Some option of `opts` is among `paths`.
pub open spec fn some_proposed(opts: Seq<Seq<char>>, paths: Seq<Seq<char>>) -> bool {
    exists|i: int| 0 <= i < opts.len() && paths.contains(#[trigger] opts[i])
}

/// The paths of the proposed changes.
pub open spec fn proposed_paths(changes: Seq<ChangeModel>) -> Seq<Seq<char>> {
    changes.map_values(|c: ChangeModel| c.path)
}

/// The resolution of a "cannot both be enabled" conflict: when it names two
/// or more `.enable` options, some proposed and some not, the first one not
/// proposed is set to `false`.
pub open spec fn resolution_for(c: ConflictModel, paths: Seq<Seq<char>>) -> Option<ResolutionModel> {
    let en = enable_options(c.related_options);
    let np = unproposed(en, paths);
    if en.len() >= 2 && some_proposed(en, paths) && np.len() > 0 {
        Some(
            ResolutionModel {
                change: ChangeModel {
                    path: np[0],
                    value: "false"@,
                    reason: Some("Auto-resolved conflict: "@ + c.message),
                },
                explanation: "Disabled '"@ + np[0]
                    + "' because it conflicts with your requested change. "@ + c.message,
            },
        )
    } else {
        None
    }
}

/// A conflict after resolution: an unresolved conflict with a resolution is
/// marked resolved and carries it; any other is unchanged.
pub open spec fn resolve_one(c: ConflictModel, paths: Seq<Seq<char>>) -> ConflictModel {
    if c.resolved {
        c
    } else {
        match resolution_for(c, paths) {
            Some(r) => ConflictModel { resolved: true, resolution: Some(r), ..c },
            None => c,
        }
    }
}

/// The changes that resolve the unresolved conflicts of `cs`, in order.
pub open spec fn resolution_changes(cs: Seq<ConflictModel>, paths: Seq<Seq<char>>) -> Seq<ChangeModel>
    decreases cs.len(),
{
    if cs.len() == 0 {
        Seq::<ChangeModel>::empty()
    } else {
        let r = resolution_changes(cs.drop_last(), paths);
        let c = cs.last();
        if !c.resolved && resolution_for(c, paths) is Some {
            r.push(resolution_for(c, paths).unwrap().change)
        } else {
            r
        }
    }
}

proof fn lemma_enable_options(opts: Seq<Seq<char>>)
    ensures
        forall|k: int| 0 <= k < enable_options(opts).len() ==> opts.contains(#[trigger] enable_options(opts)[k])
            && ".enable"@.is_suffix_of(enable_options(opts)[k]),
    decreases opts.len(),
{
    if opts.len() > 0 {
        let d = opts.drop_last();
        lemma_enable_options(d);
        let r = enable_options(opts);
        assert forall|k: int| 0 <= k < r.len() implies opts.contains(#[trigger] r[k]) && ".enable"@.is_suffix_of(r[k]) by {
            if k < enable_options(d).len() {
                assert(r[k] == enable_options(d)[k]);
                let j = choose|j: int| 0 <= j < d.len() && d[j] == r[k];
                assert(opts[j] == d[j]);
            } else {
                assert(r[k] == opts.last());
                assert(opts[opts.len() - 1] == r[k]);
            }
        }
    }
}

proof fn lemma_unproposed(opts: Seq<Seq<char>>, paths: Seq<Seq<char>>)
    ensures
        forall|k: int| 0 <= k < unproposed(opts, paths).len() ==> opts.contains(#[trigger] unproposed(opts, paths)[k])
            && !paths.contains(unproposed(opts, paths)[k]),
    decreases opts.len(),
{
    if opts.len() > 0 {
        let d = opts.drop_last();
        lemma_unproposed(d, paths);
        let r = unproposed(opts, paths);
        assert forall|k: int| 0 <= k < r.len() implies opts.contains(#[trigger] r[k]) && !paths.contains(r[k]) by {
            if k < unproposed(d, paths).len() {
                assert(r[k] == unproposed(d, paths)[k]);
                let j = choose|j: int| 0 <= j < d.len() && d[j] == r[k];
                assert(opts[j] == d[j]);
            } else {
                assert(r[k] == opts.last());
                assert(opts[opts.len() - 1] == r[k]);
            }
        }
    }
}

/// Resolving keeps a conflict's message and options: an already resolved
/// conflict stays as it is, and an unresolved one becomes resolved, with its
/// resolution, exactly when it has one.
pub proof fn law_resolve_one_marks_resolution(c: ConflictModel, paths: Seq<Seq<char>>)
    ensures
        resolve_one(c, paths).message == c.message,
        resolve_one(c, paths).related_options == c.related_options,
        c.resolved ==> resolve_one(c, paths) == c,
        !c.resolved ==> (resolve_one(c, paths).resolved <==> resolution_for(c, paths) is Some),
        !c.resolved ==> resolve_one(c, paths).resolution == match resolution_for(c, paths) {
            Some(r) => Some(r),
            None => c.resolution,
        },
{
}

/// Whether `o` is a `.enable` option not among `paths`: one a resolution may
/// switch off.
pub open spec fn switchable(o: Seq<char>, paths: Seq<Seq<char>>) -> bool {
    ".enable"@.is_suffix_of(o) && !paths.contains(o)
}

proof fn lemma_switchable_listed(opts: Seq<Seq<char>>, paths: Seq<Seq<char>>)
    ensures
        forall|j: int| 0 <= j < opts.len() && switchable(#[trigger] opts[j], paths)
            ==> unproposed(enable_options(opts), paths).len() > 0,
        unproposed(enable_options(opts), paths).len() > 0 ==> exists|i: int| 0 <= i < opts.len()
            && opts[i] == unproposed(enable_options(opts), paths)[0]
            && forall|j: int| 0 <= j < i ==> !switchable(#[trigger] opts[j], paths),
    decreases opts.len(),
{
    if opts.len() > 0 {
        let d = opts.drop_last();
        lemma_switchable_listed(d, paths);
        let x = opts.last();
        let nd = unproposed(enable_options(d), paths);
        let n = unproposed(enable_options(opts), paths);
        let ed = enable_options(d);
        let e = enable_options(opts);
        if ".enable"@.is_suffix_of(x) {
            assert(e == ed.push(x));
            assert(e.drop_last() == ed);
        } else {
            assert(e == ed);
        }
        if switchable(x, paths) {
            assert(n == nd.push(x)) by {
                assert(e.drop_last() == ed && e.last() == x);
            }
        } else if ".enable"@.is_suffix_of(x) {
            assert(n == nd) by {
                assert(e.drop_last() == ed && e.last() == x);
            }
        } else {
            assert(n == nd);
        }
        assert forall|j: int| 0 <= j < opts.len() && switchable(#[trigger] opts[j], paths) implies n.len() > 0 by {
            if j < d.len() {
                assert(d[j] == opts[j]);
            }
        }
        if n.len() > 0 {
            if nd.len() > 0 {
                let i = choose|i: int| 0 <= i < d.len() && d[i] == nd[0]
                    && forall|j: int| 0 <= j < i ==> !switchable(#[trigger] d[j], paths);
                assert(opts[i] == d[i]);
                assert forall|j: int| 0 <= j < i implies !switchable(#[trigger] opts[j], paths) by {
                    assert(opts[j] == d[j]);
                }
            } else {
                assert(n[0] == x);
                let i = opts.len() - 1;
                assert(opts[i] == x);
                assert forall|j: int| 0 <= j < i implies !switchable(#[trigger] opts[j], paths) by {
                    assert(opts[j] == d[j]);
                    if switchable(d[j], paths) {
                        assert(nd.len() > 0);
                    }
                }
            }
        }
    }
}

/// The option a resolution switches off is the first `.enable` option of
/// the conflict that the user did not propose; and a conflict with two or
/// more `.enable` options, one of them proposed and one not, is always
/// resolved.
pub proof fn law_resolution_disables_first_unproposed(c: ConflictModel, paths: Seq<Seq<char>>)
    ensures
        resolution_for(c, paths) matches Some(r) ==> exists|i: int| 0 <= i < c.related_options.len()
            && c.related_options[i] == r.change.path
            && forall|j: int| 0 <= j < i ==> !switchable(#[trigger] c.related_options[j], paths),
        (enable_options(c.related_options).len() >= 2
            && (exists|i: int| 0 <= i < c.related_options.len() && ".enable"@.is_suffix_of(#[trigger] c.related_options[i])
                && paths.contains(c.related_options[i]))
            && (exists|i: int| 0 <= i < c.related_options.len() && switchable(#[trigger] c.related_options[i], paths)))
            ==> resolution_for(c, paths) is Some,
{
    let o = c.related_options;
    let en = enable_options(o);
    lemma_switchable_listed(o, paths);
    lemma_enable_options(o);
    if exists|i: int| 0 <= i < o.len() && ".enable"@.is_suffix_of(#[trigger] o[i]) && paths.contains(o[i]) {
        let i = choose|i: int| 0 <= i < o.len() && ".enable"@.is_suffix_of(#[trigger] o[i]) && paths.contains(o[i]);
        lemma_enable_complete(o, i);
        let k = choose|k: int| 0 <= k < en.len() && en[k] == o[i];
        assert(paths.contains(en[k]));
        assert(some_proposed(en, paths));
    }
    if exists|i: int| 0 <= i < o.len() && switchable(#[trigger] o[i], paths) {
        let i = choose|i: int| 0 <= i < o.len() && switchable(#[trigger] o[i], paths);
        assert(switchable(o[i], paths));
    }
}

proof fn lemma_enable_complete(opts: Seq<Seq<char>>, i: int)
    requires
        0 <= i < opts.len(),
        ".enable"@.is_suffix_of(opts[i]),
    ensures
        enable_options(opts).contains(opts[i]),
    decreases opts.len(),
{
    let d = opts.drop_last();
    if i < d.len() {
        lemma_enable_complete(d, i);
        assert(d[i] == opts[i]);
        let k = choose|k: int| 0 <= k < enable_options(d).len() && enable_options(d)[k] == d[i];
        if ".enable"@.is_suffix_of(opts.last()) {
            assert(enable_options(opts)[k] == d[i]);
        } else {
            assert(enable_options(opts)[k] == d[i]);
        }
    } else {
        assert(enable_options(opts) == enable_options(d).push(opts.last()));
        assert(enable_options(opts)[enable_options(d).len() as int] == opts[i]);
    }
}

/// A conflict is only ever resolved for a change the user asked for: a
/// resolution exists only when one of the conflict's `.enable` options was
/// proposed, and it disables a conflicting `.enable` option the user did
/// not propose. When none of the conflict's `.enable` options was proposed
/// the conflict is left as it is.
pub proof fn law_resolution_follows_a_proposed_option(c: ConflictModel, paths: Seq<Seq<char>>)
    ensures
        resolution_for(c, paths) is Some ==> exists|i: int| 0 <= i < c.related_options.len()
            && ".enable"@.is_suffix_of(#[trigger] c.related_options[i]) && paths.contains(c.related_options[i]),
        resolution_for(c, paths) matches Some(r) ==> {
            &&& !paths.contains(r.change.path)
            &&& c.related_options.contains(r.change.path)
            &&& ".enable"@.is_suffix_of(r.change.path)
            &&& r.change.value == "false"@
            &&& r.change.reason == Some("Auto-resolved conflict: "@ + c.message)
        },
        !(exists|i: int| 0 <= i < c.related_options.len()
            && ".enable"@.is_suffix_of(#[trigger] c.related_options[i]) && paths.contains(c.related_options[i]))
            ==> resolution_for(c, paths) is None && resolve_one(c, paths) == c,
{
    let en = enable_options(c.related_options);
    let np = unproposed(en, paths);
    lemma_enable_options(c.related_options);
    lemma_unproposed(en, paths);
    if some_proposed(en, paths) {
        let k = choose|k: int| 0 <= k < en.len() && paths.contains(#[trigger] en[k]);
        assert(c.related_options.contains(en[k]));
        let i = choose|i: int| 0 <= i < c.related_options.len() && c.related_options[i] == en[k];
        assert(".enable"@.is_suffix_of(c.related_options[i]) && paths.contains(c.related_options[i]));
    }
    if np.len() > 0 {
        assert(en.contains(np[0]));
        let j = choose|j: int| 0 <= j < en.len() && en[j] == np[0];
        assert(c.related_options.contains(en[j]));
    }
}

fn copy_opt_string(o: &Option<String>) -> (r: Option<String>)
    ensures
        opt_view(r) == opt_view(*o),
{
    match o {
        Some(s) => Some(s.clone()),
        None => None,
    }
}

/// A copy of a proposed change.
pub fn copy_change(c: &ProposedChange) -> (r: ProposedChange)
    ensures
        r@ == c@,
{
    ProposedChange { path: c.path.clone(), value: c.value.clone(), reason: copy_opt_string(&c.reason) }
}

fn proposed_path_list(changes: &Vec<ProposedChange>) -> (r: Vec<String>)
    ensures
        string_views(r@) == proposed_paths(changes@.map_values(|c: ProposedChange| c@)),
{
    let mut r: Vec<String> = Vec::new();
    for i in 0..changes.len()
        invariant
            string_views(r@) == proposed_paths(changes@.map_values(|c: ProposedChange| c@)).take(i as int),
    {
        let ghost prev = string_views(r@);
        r.push(changes[i].path.clone());
        assert(string_views(r@) =~= prev.push(changes@[i as int].path@));
        assert(proposed_paths(changes@.map_values(|c: ProposedChange| c@)).take(i + 1) =~= proposed_paths(
            changes@.map_values(|c: ProposedChange| c@),
        ).take(i as int).push(changes@[i as int].path@));
    }
    assert(proposed_paths(changes@.map_values(|c: ProposedChange| c@)).take(changes@.len() as int)
        =~= proposed_paths(changes@.map_values(|c: ProposedChange| c@)));
    r
}

fn try_mutual_exclusion_resolution(conflict: &Conflict, paths: &Vec<String>) -> (r: Option<Resolution>)
    ensures
        r matches Some(res) ==> resolution_for(conflict@, string_views(paths@)) == Some(res@),
        r is None ==> resolution_for(conflict@, string_views(paths@)) is None,
{
    let ghost pv = string_views(paths@);
    let ghost opts = string_views(conflict.related_options@);
    let mut en: Vec<String> = Vec::new();
    let mut np: Vec<String> = Vec::new();
    let mut any = false;
    for i in 0..conflict.related_options.len()
        invariant
            opts == string_views(conflict.related_options@),
            pv == string_views(paths@),
            string_views(en@) == enable_options(opts.take(i as int)),
            string_views(np@) == unproposed(enable_options(opts.take(i as int)), pv),
            any == some_proposed(enable_options(opts.take(i as int)), pv),
    {
        let ghost e0 = enable_options(opts.take(i as int));
        assert(opts.take(i + 1).drop_last() =~= opts.take(i as int));
        let p = &conflict.related_options[i];
        let pc = chars_of(p.as_str());
        if ends_with_str(&pc, ".enable") {
            let ghost e1 = e0.push(p@);
            assert(e1.drop_last() =~= e0);
            let ghost sn = string_views(en@);
            en.push(p.clone());
            assert(string_views(en@) =~= sn.push(p@));
            let inp = string_in(paths, p);
            if !inp {
                let ghost sp = string_views(np@);
                np.push(p.clone());
                assert(string_views(np@) =~= sp.push(p@));
            }
            proof {
                if any {
                    let k = choose|k: int| 0 <= k < e0.len() && pv.contains(#[trigger] e0[k]);
                    assert(e1[k] == e0[k]);
                }
                if some_proposed(e1, pv) && !any {
                    let k = choose|k: int| 0 <= k < e1.len() && pv.contains(#[trigger] e1[k]);
                    if k < e0.len() {
                        assert(e1[k] == e0[k]);
                    }
                }
                if inp {
                    assert(e1[e0.len() as int] == p@);
                }
            }
            any = any || inp;
        }
    }
    assert(opts.take(opts.len() as int) =~= opts);
    if en.len() >= 2 && any && np.len() > 0 {
        let to_disable = np[0].clone();
        let mut explanation = String::from_str("Disabled '");
        explanation.append(to_disable.as_str());
        explanation.append("' because it conflicts with your requested change. ");
        explanation.append(conflict.message.as_str());
        let mut reason = String::from_str("Auto-resolved conflict: ");
        reason.append(conflict.message.as_str());
        let change = ProposedChange { path: to_disable, value: String::from_str("false"), reason: Some(reason) };
        let res = Resolution { change, explanation };
        assert(res@.change.reason == Some("Auto-resolved conflict: "@ + conflict@.message));
        Some(res)
    } else {
        None
    }
}

/// Resolve the conflicts that follow a known pattern: an unresolved conflict
/// that names two or more `.enable` options, of which some were proposed and
/// some not, is resolved by setting the first option not proposed to
/// `false`; the conflict is marked resolved and carries its resolution.
/// Returns the changes so added, in the order of the conflicts.
pub fn resolve_conflicts(conflicts: &mut Vec<Conflict>, proposed_changes: &Vec<ProposedChange>) -> (r: Vec<ProposedChange>)
    ensures
        final(conflicts)@.map_values(|c: Conflict| c@) == old(conflicts)@.map_values(|c: Conflict| c@).map_values(
            |c: ConflictModel| resolve_one(c, proposed_paths(proposed_changes@.map_values(|p: ProposedChange| p@))),
        ),
        r@.map_values(|c: ProposedChange| c@) == resolution_changes(
            old(conflicts)@.map_values(|c: Conflict| c@),
            proposed_paths(proposed_changes@.map_values(|p: ProposedChange| p@)),
        ),
{
    let paths = proposed_path_list(proposed_changes);
    let ghost pv = string_views(paths@);
    let ghost start = conflicts@.map_values(|c: Conflict| c@);
    let mut additional: Vec<ProposedChange> = Vec::new();
    let n = conflicts.len();
    for i in 0..n
        invariant
            n == start.len(),
            pv == string_views(paths@),
            conflicts@.len() == n,
            forall|k: int| 0 <= k < i ==> (#[trigger] conflicts@[k])@ == resolve_one(start[k], pv),
            forall|k: int| i <= k < n ==> (#[trigger] conflicts@[k])@ == start[k],
            additional@.map_values(|c: ProposedChange| c@) == resolution_changes(start.take(i as int), pv),
    {
        assert(start.take(i + 1).drop_last() =~= start.take(i as int));
        assert(start.take(i + 1).last() == start[i as int]);
        if !conflicts[i].resolved {
            match try_mutual_exclusion_resolution(&conflicts[i], &paths) {
                Some(res) => {
                    let ghost prev = additional@.map_values(|c: ProposedChange| c@);
                    additional.push(copy_change(&res.change));
                    assert(additional@.map_values(|c: ProposedChange| c@) =~= prev.push(res@.change));
                    let updated = Conflict {
                        message: conflicts[i].message.clone(),
                        related_options: copy_strings(&conflicts[i].related_options),
                        resolved: true,
                        resolution: Some(res),
                    };
                    conflicts.set(i, updated);
                },
                None => {},
            }
        }
    }
    assert(start.take(n as int) =~= start);
    assert(conflicts@.map_values(|c: Conflict| c@) =~= start.map_values(|c: ConflictModel| resolve_one(c, pv)));
    additional
}

/// The words by which an assertion message names options that cannot be
/// set together.
pub open spec fn mutual_exclusion_text(lower: Seq<char>) -> bool {
    contains(lower, "cannot both"@) || contains(lower, "mutually exclusive"@) || contains(
        lower,
        "only one"@,
    ) || contains(lower, "conflicts with"@) || contains(lower, "incompatible"@)
}

/// Whether a message tells of options that cannot be set together: its
/// lowercase form holds "cannot both", "mutually exclusive", "only one",
/// "conflicts with" or "incompatible".
pub fn is_mutual_exclusion(message: &str) -> (b: bool)
    ensures
        b == mutual_exclusion_text(lowercase(message@)),
{
    let lower = to_lowercase(message);
    contains_str(&lower, "cannot both") || contains_str(&lower, "mutually exclusive") || contains_str(
        &lower,
        "only one",
    ) || contains_str(&lower, "conflicts with") || contains_str(&lower, "incompatible")
}

} // verus!

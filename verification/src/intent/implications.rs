//! Which options a change may set by implication, and how to tell from two
//! evaluations which ones it did set.
use vstd::prelude::*;
use vstd::string::*;
use crate::text::{
    chars_of, contains, contains_str, join, join_exec, push_all, slice_of, sort_dedup, split_on,
    split_on_exec, string_from, string_in, string_views, strictly_sorted, trim, trim_chars, views,
};
use crate::intent::types::{opt_view, ChangeModel, Implication, ProposedChange};

verus! {

/// The sibling options of `path` worth checking: `<parent>.wayland` and
/// `<parent>.autoSuspend`, for a path of two or more segments.
pub open spec fn sibling_paths(path: Seq<char>) -> Seq<Seq<char>> {
    let parts = split_on(path, '.');
    if parts.len() >= 2 {
        let prefix = join(parts.drop_last(), "."@);
        seq![prefix + ".wayland"@, prefix + ".autoSuspend"@]
    } else {
        Seq::<Seq<char>>::empty()
    }
}

/// The options known to follow from a change of `path`.
pub open spec fn known_implications(path: Seq<char>) -> Seq<Seq<char>> {
    if contains(path, "hyprland"@) {
        seq![
            "programs.xwayland.enable"@,
            "security.polkit.enable"@,
            "hardware.opengl.enable"@,
            "services.xserver.enable"@,
        ]
    } else if contains(path, "displayManager.gdm"@) {
        seq!["services.xserver.displayManager.gdm.wayland"@, "services.xserver.enable"@]
    } else if contains(path, "displayManager.sddm"@) {
        seq!["services.xserver.enable"@]
    } else if contains(path, "docker"@) {
        seq!["virtualisation.docker.enable"@, "virtualisation.oci-containers.backend"@]
    } else {
        Seq::<Seq<char>>::empty()
    }
}

/// The candidate related paths of the changes, in order, with repeats.
pub open spec fn related_candidates(changes: Seq<ChangeModel>) -> Seq<Seq<char>>
    decreases changes.len(),
{
    if changes.len() == 0 {
        Seq::<Seq<char>>::empty()
    } else {
        let p = changes.last().path;
        related_candidates(changes.drop_last()) + sibling_paths(p) + known_implications(p)
    }
}

proof fn lemma_candidates_cover(changes: Seq<ChangeModel>, k: int)
    requires
        0 <= k < changes.len(),
    ensures
        forall|x: Seq<char>| known_implications(changes[k].path).contains(x) ==> #[trigger] related_candidates(changes).contains(x),
    decreases changes.len(),
{
    let d = changes.drop_last();
    let p = changes.last().path;
    let rc = related_candidates(changes);
    assert(rc == related_candidates(d) + sibling_paths(p) + known_implications(p));
    if k < changes.len() - 1 {
        lemma_candidates_cover(d, k);
        assert(d[k] == changes[k]);
        assert forall|x: Seq<char>| known_implications(changes[k].path).contains(x) implies #[trigger] rc.contains(x) by {
            assert(known_implications(d[k].path).contains(x));
            assert(related_candidates(d).contains(x));
            let j = choose|j: int| 0 <= j < related_candidates(d).len() && related_candidates(d)[j] == x;
            assert(rc[j] == x);
        }
    } else {
        assert forall|x: Seq<char>| known_implications(changes[k].path).contains(x) implies #[trigger] rc.contains(x) by {
            let j = choose|j: int| 0 <= j < known_implications(p).len() && known_implications(p)[j] == x;
            let off = related_candidates(d).len() + sibling_paths(p).len();
            assert(rc[off + j] == x);
        }
    }
}

proof fn lemma_siblings_covered(changes: Seq<ChangeModel>, k: int)
    requires
        0 <= k < changes.len(),
    ensures
        forall|x: Seq<char>| sibling_paths(changes[k].path).contains(x) ==> #[trigger] related_candidates(changes).contains(x),
    decreases changes.len(),
{
    let d = changes.drop_last();
    let p = changes.last().path;
    let rc = related_candidates(changes);
    assert(rc == related_candidates(d) + sibling_paths(p) + known_implications(p));
    if k < changes.len() - 1 {
        lemma_siblings_covered(d, k);
        assert(d[k] == changes[k]);
        assert forall|x: Seq<char>| sibling_paths(changes[k].path).contains(x) implies #[trigger] rc.contains(x) by {
            assert(sibling_paths(d[k].path).contains(x));
            assert(related_candidates(d).contains(x));
            let j = choose|j: int| 0 <= j < related_candidates(d).len() && related_candidates(d)[j] == x;
            assert(rc[j] == x);
        }
    } else {
        assert forall|x: Seq<char>| sibling_paths(changes[k].path).contains(x) implies #[trigger] rc.contains(x) by {
            let j = choose|j: int| 0 <= j < sibling_paths(p).len() && sibling_paths(p)[j] == x;
            let off = related_candidates(d).len();
            assert(rc[off + j] == x);
        }
    }
}

/// One of the options known to follow from some change.
pub open spec fn known_option(x: Seq<char>) -> bool {
    x == "programs.xwayland.enable"@ || x == "security.polkit.enable"@ || x == "hardware.opengl.enable"@
        || x == "services.xserver.enable"@ || x == "services.xserver.displayManager.gdm.wayland"@
        || x == "virtualisation.docker.enable"@ || x == "virtualisation.oci-containers.backend"@
}

/// Nothing else is suggested: every candidate is a `wayland` or
/// `autoSuspend` setting beside a changed option, or one of the options
/// known to follow from a change.
pub proof fn law_candidates_are_siblings_or_known(changes: Seq<ChangeModel>)
    ensures
        forall|x: Seq<char>| #[trigger] related_candidates(changes).contains(x) ==> ".wayland"@.is_suffix_of(x)
            || ".autoSuspend"@.is_suffix_of(x) || known_option(x),
    decreases changes.len(),
{
    if changes.len() > 0 {
        let d = changes.drop_last();
        let p = changes.last().path;
        law_candidates_are_siblings_or_known(d);
        let rc = related_candidates(changes);
        let sb = sibling_paths(p);
        let ki = known_implications(p);
        assert(rc == related_candidates(d) + sb + ki);
        assert forall|x: Seq<char>| #[trigger] rc.contains(x) implies ".wayland"@.is_suffix_of(x)
            || ".autoSuspend"@.is_suffix_of(x) || known_option(x) by {
            let j = choose|j: int| 0 <= j < rc.len() && rc[j] == x;
            let a = related_candidates(d).len();
            if j < a {
                assert(related_candidates(d)[j] == x);
                assert(related_candidates(d).contains(x));
            } else if j < a + sb.len() {
                assert(sb[j - a] == x);
                let parts = split_on(p, '.');
                let prefix = join(parts.drop_last(), "."@);
                if j - a == 0 {
                    assert((prefix + ".wayland"@).subrange(prefix.len() as int, (prefix + ".wayland"@).len() as int) =~= ".wayland"@);
                } else {
                    assert((prefix + ".autoSuspend"@).subrange(prefix.len() as int, (prefix + ".autoSuspend"@).len() as int) =~= ".autoSuspend"@);
                }
            } else {
                assert(ki[j - a - sb.len()] == x);
            }
        }
    }
}

/// A change of option `<parent>.<name>` suggests the `wayland` and
/// `autoSuspend` settings beside it: `<parent>.wayland` and
/// `<parent>.autoSuspend`.
pub proof fn law_siblings_suggested(changes: Seq<ChangeModel>, k: int, parent: Seq<char>, name: Seq<char>)
    requires
        0 <= k < changes.len(),
        changes[k].path == parent + "."@ + name,
        !name.contains('.'),
    ensures
        related_candidates(changes).contains(parent + ".wayland"@),
        related_candidates(changes).contains(parent + ".autoSuspend"@),
{
    reveal_strlit(".");
    let path = changes[k].path;
    assert(parent + "."@ + name =~= parent.push('.') + name);
    crate::text::lemma_split_last_piece(parent, name, '.');
    crate::text::lemma_join_split(parent, '.');
    let parts = split_on(path, '.');
    assert(parts.drop_last() =~= split_on(parent, '.'));
    assert("."@ =~= seq!['.']);
    assert(join(parts.drop_last(), "."@) == parent);
    lemma_siblings_covered(changes, k);
    assert(sibling_paths(path)[0] == parent + ".wayland"@);
    assert(sibling_paths(path)[1] == parent + ".autoSuspend"@);
    assert(sibling_paths(path).contains(sibling_paths(path)[0]));
    assert(sibling_paths(path).contains(sibling_paths(path)[1]));
}

/// The options that follow from a change are always suggested: for a
/// change of a Hyprland option, `programs.xwayland.enable`,
/// `security.polkit.enable`, `hardware.opengl.enable` and
/// `services.xserver.enable`; of a GDM option (and not Hyprland), the GDM
/// Wayland switch and `services.xserver.enable`; of an SDDM option,
/// `services.xserver.enable`; of a Docker option (and none of those),
/// `virtualisation.docker.enable` and `virtualisation.oci-containers.backend`.
pub proof fn law_implied_options_suggested(changes: Seq<ChangeModel>, k: int)
    requires
        0 <= k < changes.len(),
    ensures
        ({
            let p = changes[k].path;
            let rc = related_candidates(changes);
            &&& contains(p, "hyprland"@) ==> rc.contains("programs.xwayland.enable"@) && rc.contains("security.polkit.enable"@)
                && rc.contains("hardware.opengl.enable"@) && rc.contains("services.xserver.enable"@)
            &&& (!contains(p, "hyprland"@) && contains(p, "displayManager.gdm"@))
                ==> rc.contains("services.xserver.displayManager.gdm.wayland"@) && rc.contains("services.xserver.enable"@)
            &&& (!contains(p, "hyprland"@) && !contains(p, "displayManager.gdm"@) && contains(p, "displayManager.sddm"@))
                ==> rc.contains("services.xserver.enable"@)
            &&& (!contains(p, "hyprland"@) && !contains(p, "displayManager.gdm"@) && !contains(p, "displayManager.sddm"@)
                && contains(p, "docker"@))
                ==> rc.contains("virtualisation.docker.enable"@) && rc.contains("virtualisation.oci-containers.backend"@)
        }),
{
    lemma_candidates_cover(changes, k);
    let ki = known_implications(changes[k].path);
    assert forall|j: int| 0 <= j < ki.len() implies related_candidates(changes).contains(#[trigger] ki[j]) by {
        assert(ki.contains(ki[j]));
    }
    if ki.len() > 0 {
        assert(related_candidates(changes).contains(ki[0]));
    }
    if ki.len() > 1 {
        assert(related_candidates(changes).contains(ki[1]));
    }
    if ki.len() > 2 {
        assert(related_candidates(changes).contains(ki[2]));
    }
    if ki.len() > 3 {
        assert(related_candidates(changes).contains(ki[3]));
    }
}

fn push_literal(out: &mut Vec<Vec<char>>, s: &str)
    ensures
        views(final(out)@) == views(old(out)@).push(s@),
{
    let ghost prev = views(out@);
    let v = chars_of(s);
    out.push(v);
    assert(views(out@) =~= prev.push(s@));
}

fn push_with_suffix(out: &mut Vec<Vec<char>>, prefix: &Vec<char>, suffix: &str)
    ensures
        views(final(out)@) == views(old(out)@).push(prefix@ + suffix@),
{
    let ghost prev = views(out@);
    let mut v = slice_of(prefix, 0, prefix.len());
    assert(v@ =~= prefix@);
    push_all(&mut v, &chars_of(suffix));
    out.push(v);
    assert(views(out@) =~= prev.push(prefix@ + suffix@));
}

fn candidates_of(path: &String, out: &mut Vec<Vec<char>>)
    ensures
        views(final(out)@) == views(old(out)@) + sibling_paths(path@) + known_implications(path@),
{
    let ghost start = views(out@);
    let p = chars_of(path.as_str());
    let parts = split_on_exec(&p, '.');
    if parts.len() >= 2 {
        let mut front: Vec<Vec<char>> = Vec::new();
        for i in 0..parts.len() - 1
            invariant
                parts@.len() >= 2,
                views(front@) == views(parts@).take(i as int),
        {
            let ghost prev = views(front@);
            let x = slice_of(&parts[i], 0, parts[i].len());
            assert(x@ =~= parts@[i as int]@);
            front.push(x);
            assert(views(front@) =~= prev.push(views(parts@)[i as int]));
            assert(views(parts@).take(i + 1) =~= views(parts@).take(i as int).push(views(parts@)[i as int]));
        }
        assert(views(parts@).take(parts@.len() - 1) =~= views(parts@).drop_last());
        let prefix = join_exec(&front, &chars_of("."));
        push_with_suffix(out, &prefix, ".wayland");
        push_with_suffix(out, &prefix, ".autoSuspend");
    }
    assert(views(out@) =~= start + sibling_paths(path@));
    let ghost mid = views(out@);
    if contains_str(&p, "hyprland") {
        push_literal(out, "programs.xwayland.enable");
        push_literal(out, "security.polkit.enable");
        push_literal(out, "hardware.opengl.enable");
        push_literal(out, "services.xserver.enable");
    } else if contains_str(&p, "displayManager.gdm") {
        push_literal(out, "services.xserver.displayManager.gdm.wayland");
        push_literal(out, "services.xserver.enable");
    } else if contains_str(&p, "displayManager.sddm") {
        push_literal(out, "services.xserver.enable");
    } else if contains_str(&p, "docker") {
        push_literal(out, "virtualisation.docker.enable");
        push_literal(out, "virtualisation.oci-containers.backend");
    }
    assert(views(out@) =~= mid + known_implications(path@));
}

/// Option paths that the changes may set by implication (`mkIf`
/// propagation): for each change, the `wayland` and `autoSuspend` siblings
/// of its option, and the options known to follow from it (Hyprland, GDM,
/// SDDM, Docker). The result is sorted and holds each path once.
pub fn suggest_related_paths(changes: &Vec<ProposedChange>) -> (r: Vec<String>)
    ensures
        strictly_sorted(string_views(r@)),
        forall|y: Seq<char>| string_views(r@).contains(y) <==> related_candidates(
            changes@.map_values(|c: ProposedChange| c@),
        ).contains(y),
{
    let ghost cm = changes@.map_values(|c: ProposedChange| c@);
    let mut cands: Vec<Vec<char>> = Vec::new();
    for i in 0..changes.len()
        invariant
            cm == changes@.map_values(|c: ProposedChange| c@),
            views(cands@) == related_candidates(cm.take(i as int)),
    {
        assert(cm.take(i + 1).drop_last() =~= cm.take(i as int));
        candidates_of(&changes[i].path, &mut cands);
    }
    assert(cm.take(changes@.len() as int) =~= cm);
    let sorted = sort_dedup(&cands);
    let mut r: Vec<String> = Vec::new();
    for i in 0..sorted.len()
        invariant
            string_views(r@) == views(sorted@).take(i as int),
    {
        let ghost prev = string_views(r@);
        r.push(string_from(&sorted[i]));
        assert(string_views(r@) =~= prev.push(views(sorted@)[i as int]));
        assert(views(sorted@).take(i + 1) =~= views(sorted@).take(i as int).push(views(sorted@)[i as int]));
    }
    assert(views(sorted@).take(sorted@.len() as int) =~= views(sorted@));
    r
}

/// The line of the batch expression that evaluates `path`.
pub open spec fn batch_line(path: Seq<char>) -> Seq<char> {
    "    \""@ + path + "\" = let r = builtins.tryEval config."@ + path
        + "; in if r.success then r.value else null;"@
}

/// A Nix expression that evaluates the options at `paths` of host
/// `hostname` at once: an attribute set from each path to its value, or
/// `null` where evaluating it fails.
pub open spec fn batch_eval_expr(hostname: Seq<char>, paths: Seq<Seq<char>>) -> Seq<char> {
    "let config = (builtins.getFlake (toString ./.)).nixosConfigurations."@ + hostname
        + ".config; in {\n"@ + join(paths.map_values(|p: Seq<char>| batch_line(p)), "\n"@) + "\n}"@
}

/// The members of `text` read as one JSON object, each with its value
/// written back as compact JSON text, in the order of serde_json's map
/// (sorted by name); none when `text` is not one JSON object.
pub uninterp spec fn json_object_texts(text: Seq<char>) -> Option<Seq<(Seq<char>, Seq<char>)>>;

/// Name–text pairs as plain values.
pub open spec fn pair_views(v: Seq<(String, String)>) -> Seq<(Seq<char>, Seq<char>)> {
    v.map_values(|p: (String, String)| (p.0@, p.1@))
}

/// `serde_json::from_str` into a `serde_json::Map<String, Value>`, each
/// member's value written back with `Value::to_string`.
#[verifier::external_body]
fn json_members(text: &str) -> (r: Option<Vec<(String, String)>>)
    ensures
        match r {
            Some(v) => json_object_texts(text@) == Some(pair_views(v@)),
            None => json_object_texts(text@) is None,
        },
{
    serde_json::from_str::<serde_json::Map<String, serde_json::Value>>(text)
        .ok()
        .map(|m| m.into_iter().map(|(k, v)| (k, v.to_string())).collect())
}

/// The option values of a batch evaluation (see [`build_batch_eval_expr`])
/// from the standard output of `nix eval --json`: each option path with its
/// value as JSON text; none when the output is not one JSON object.
pub fn batch_eval_values(stdout: &str) -> (r: Option<Vec<(String, String)>>)
    ensures
        match r {
            Some(v) => json_object_texts(stdout@) == Some(pair_views(v@)),
            None => json_object_texts(stdout@) is None,
        },
{
    json_members(stdout)
}

/// The flake attribute that evaluates one option of host `hostname`, used
/// when the batch evaluation fails.
pub fn single_eval_attr(hostname: &str, path: &str) -> (r: String)
    ensures
        r@ == ".#nixosConfigurations."@ + hostname@ + ".config."@ + path@,
{
    let mut r = String::from_str(".#nixosConfigurations.");
    r.append(hostname);
    r.append(".config.");
    r.append(path);
    r
}

/// The value of one evaluated option: the standard output of
/// `nix eval --json`, trimmed.
pub fn single_eval_value(stdout: &str) -> (r: String)
    ensures
        r@ == trim(stdout@),
{
    string_from(&trim_chars(&chars_of(stdout)))
}

/// Build the Nix expression that evaluates the options at `paths` of host
/// `hostname` at once.
pub fn build_batch_eval_expr(hostname: &str, paths: &[&str]) -> (r: String)
    ensures
        r@ == batch_eval_expr(hostname@, paths@.map_values(|p: &str| p@)),
{
    let ghost pv = paths@.map_values(|p: &str| p@);
    let mut lines: Vec<Vec<char>> = Vec::new();
    for i in 0..paths.len()
        invariant
            pv == paths@.map_values(|p: &str| p@),
            views(lines@) == pv.take(i as int).map_values(|p: Seq<char>| batch_line(p)),
    {
        let ghost prev = views(lines@);
        let p = chars_of(paths[i]);
        let mut l = chars_of("    \"");
        push_all(&mut l, &p);
        push_all(&mut l, &chars_of("\" = let r = builtins.tryEval config."));
        push_all(&mut l, &p);
        push_all(&mut l, &chars_of("; in if r.success then r.value else null;"));
        lines.push(l);
        assert(views(lines@) =~= prev.push(batch_line(pv[i as int])));
        assert(pv.take(i + 1).map_values(|p: Seq<char>| batch_line(p)) =~= pv.take(i as int).map_values(
            |p: Seq<char>| batch_line(p),
        ).push(batch_line(pv[i as int])));
    }
    assert(pv.take(paths@.len() as int) =~= pv);
    let body = join_exec(&lines, &chars_of("\n"));
    let mut e = chars_of("let config = (builtins.getFlake (toString ./.)).nixosConfigurations.");
    push_all(&mut e, &chars_of(hostname));
    push_all(&mut e, &chars_of(".config; in {\n"));
    push_all(&mut e, &body);
    push_all(&mut e, &chars_of("\n}"));
    string_from(&e)
}

/// The related paths that no change sets explicitly, in order.
pub open spec fn paths_to_check(explicit: Seq<Seq<char>>, related: Seq<Seq<char>>) -> Seq<Seq<char>>
    decreases related.len(),
{
    if related.len() == 0 {
        Seq::<Seq<char>>::empty()
    } else {
        let r = paths_to_check(explicit, related.drop_last());
        if explicit.contains(related.last()) {
            r
        } else {
            r.push(related.last())
        }
    }
}

/// The related paths worth evaluating: those that none of the proposed
/// changes sets explicitly, in order.
pub fn check_paths(proposed_changes: &Vec<ProposedChange>, related_paths: &Vec<String>) -> (r: Vec<String>)
    ensures
        string_views(r@) == paths_to_check(
            proposed_changes@.map_values(|c: ProposedChange| c@.path),
            string_views(related_paths@),
        ),
{
    let mut explicit: Vec<String> = Vec::new();
    for i in 0..proposed_changes.len()
        invariant
            string_views(explicit@) == proposed_changes@.map_values(|c: ProposedChange| c@.path).take(i as int),
    {
        let ghost prev = string_views(explicit@);
        explicit.push(proposed_changes[i].path.clone());
        assert(string_views(explicit@) =~= prev.push(proposed_changes@[i as int].path@));
        assert(proposed_changes@.map_values(|c: ProposedChange| c@.path).take(i + 1)
            =~= proposed_changes@.map_values(|c: ProposedChange| c@.path).take(i as int).push(
            proposed_changes@[i as int].path@,
        ));
    }
    assert(proposed_changes@.map_values(|c: ProposedChange| c@.path).take(proposed_changes@.len() as int)
        =~= proposed_changes@.map_values(|c: ProposedChange| c@.path));
    let ghost rv = string_views(related_paths@);
    let mut r: Vec<String> = Vec::new();
    for i in 0..related_paths.len()
        invariant
            rv == string_views(related_paths@),
            string_views(r@) == paths_to_check(string_views(explicit@), rv.take(i as int)),
    {
        assert(rv.take(i + 1).drop_last() =~= rv.take(i as int));
        if !string_in(&explicit, &related_paths[i]) {
            let ghost prev = string_views(r@);
            r.push(related_paths[i].clone());
            assert(string_views(r@) =~= prev.push(rv[i as int]));
        }
    }
    assert(rv.take(related_paths@.len() as int) =~= rv);
    r
}

/// The value of an option in an evaluation's result: its JSON text, or
/// `null` where the evaluation gave none.
pub open spec fn value_or_null(v: Option<Seq<char>>) -> Seq<char> {
    match v {
        Some(s) => s,
        None => "null"@,
    }
}

/// The implications shown by two evaluations of the same paths: each path
/// whose value differs, with its value after the change, in order.
pub open spec fn implications_between(
    paths: Seq<Seq<char>>,
    before: Seq<Option<Seq<char>>>,
    after: Seq<Option<Seq<char>>>,
) -> Seq<(Seq<char>, Seq<char>)>
    decreases paths.len(),
{
    if paths.len() == 0 {
        Seq::<(Seq<char>, Seq<char>)>::empty()
    } else {
        let n = paths.len() - 1;
        let r = implications_between(paths.drop_last(), before.take(n), after.take(n));
        if value_or_null(before[n]) != value_or_null(after[n]) {
            r.push((paths[n], value_or_null(after[n])))
        } else {
            r
        }
    }
}

fn value_or_null_exec(v: &Option<String>) -> (r: String)
    ensures
        r@ == value_or_null(opt_view(*v)),
{
    match v {
        Some(s) => s.clone(),
        None => String::from_str("null"),
    }
}

/// The options that a change set by implication, from the values of the
/// checked `paths` before and after it (`before[i]` and `after[i]` are the
/// value of `paths[i]`, absent where the evaluation gave none): each path
/// whose value differs, with its new value and no reason.
pub fn diff_implications(paths: &Vec<String>, before: &Vec<Option<String>>, after: &Vec<Option<String>>) -> (r: Vec<Implication>)
    requires
        before@.len() == paths@.len(),
        after@.len() == paths@.len(),
    ensures
        r@.map_values(|i: Implication| (i.path@, i.value@)) == implications_between(
            string_views(paths@),
            before@.map_values(|o: Option<String>| opt_view(o)),
            after@.map_values(|o: Option<String>| opt_view(o)),
        ),
        forall|k: int| 0 <= k < r@.len() ==> (#[trigger] r@[k]).reason is None,
{
    let ghost pv = string_views(paths@);
    let ghost bv = before@.map_values(|o: Option<String>| opt_view(o));
    let ghost av = after@.map_values(|o: Option<String>| opt_view(o));
    let mut r: Vec<Implication> = Vec::new();
    for i in 0..paths.len()
        invariant
            before@.len() == paths@.len(),
            after@.len() == paths@.len(),
            pv == string_views(paths@),
            bv == before@.map_values(|o: Option<String>| opt_view(o)),
            av == after@.map_values(|o: Option<String>| opt_view(o)),
            r@.map_values(|i: Implication| (i.path@, i.value@)) == implications_between(
                pv.take(i as int),
                bv.take(i as int),
                av.take(i as int),
            ),
            forall|k: int| 0 <= k < r@.len() ==> (#[trigger] r@[k]).reason is None,
    {
        assert(pv.take(i + 1).drop_last() =~= pv.take(i as int));
        assert(bv.take(i + 1).take(i as int) =~= bv.take(i as int));
        assert(av.take(i + 1).take(i as int) =~= av.take(i as int));
        let b = value_or_null_exec(&before[i]);
        let a = value_or_null_exec(&after[i]);
        if b != a {
            let ghost prev = r@.map_values(|i: Implication| (i.path@, i.value@));
            r.push(Implication { path: paths[i].clone(), value: a, reason: None });
            assert(r@.map_values(|i: Implication| (i.path@, i.value@)) =~= prev.push((pv[i as int], av[i as int].unwrap_or("null"@))));
        }
    }
    assert(pv.take(paths@.len() as int) =~= pv);
    assert(bv.take(paths@.len() as int) =~= bv);
    assert(av.take(paths@.len() as int) =~= av);
    r
}

} // verus!

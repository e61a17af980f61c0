//! Comparing generations: the package sets of two generations, and the
//! order generations are listed in.
use vstd::prelude::*;
use crate::text::{
    chars_eq, chars_of, lex_lt, slice_of, sort_dedup, string_from, string_views, strictly_sorted,
    views,
};
use crate::generations::types::{Generation, GenerationDiff};

verus! {

/// The version of `name` in a package list, as a map built from the list
/// holds it: that of the last entry with that name.
pub open spec fn version_in(pkgs: Seq<(Seq<char>, Seq<char>)>, name: Seq<char>) -> Option<Seq<char>>
    decreases pkgs.len(),
{
    if pkgs.len() == 0 {
        None
    } else if pkgs.last().0 == name {
        Some(pkgs.last().1)
    } else {
        version_in(pkgs.drop_last(), name)
    }
}

/// A package list as characters.
pub open spec fn pkg_views(pkgs: Seq<(String, String)>) -> Seq<(Seq<char>, Seq<char>)> {
    pkgs.map_values(|p: (String, String)| (p.0@, p.1@))
}

fn version_lookup(pkgs: &Vec<(String, String)>, name: &Vec<char>) -> (r: Option<Vec<char>>)
    ensures
        match r {
            Some(v) => version_in(pkg_views(pkgs@), name@) == Some(v@),
            None => version_in(pkg_views(pkgs@), name@) is None,
        },
{
    let ghost pv = pkg_views(pkgs@);
    let mut i: usize = pkgs.len();
    assert(pv.take(pv.len() as int) =~= pv);
    while i > 0
        invariant
            0 <= i <= pkgs@.len(),
            pv == pkg_views(pkgs@),
            version_in(pv, name@) == version_in(pv.take(i as int), name@),
        decreases i,
    {
        assert(pv.take(i as int).drop_last() =~= pv.take(i - 1));
        let n = chars_of(pkgs[i - 1].0.as_str());
        if chars_eq(&n, name) {
            return Some(chars_of(pkgs[i - 1].1.as_str()));
        }
        i -= 1;
    }
    None
}

fn names_of(pkgs: &Vec<(String, String)>) -> (r: Vec<Vec<char>>)
    ensures
        strictly_sorted(views(r@)),
        forall|y: Seq<char>| views(r@).contains(y) <==> version_in(pkg_views(pkgs@), y) is Some,
{
    let ghost pv = pkg_views(pkgs@);
    let mut all: Vec<Vec<char>> = Vec::new();
    for i in 0..pkgs.len()
        invariant
            pv == pkg_views(pkgs@),
            views(all@) == pv.take(i as int).map_values(|p: (Seq<char>, Seq<char>)| p.0),
    {
        let ghost prev = views(all@);
        all.push(chars_of(pkgs[i].0.as_str()));
        assert(views(all@) =~= prev.push(pv[i as int].0));
        assert(pv.take(i + 1).map_values(|p: (Seq<char>, Seq<char>)| p.0) =~= pv.take(i as int).map_values(
            |p: (Seq<char>, Seq<char>)| p.0,
        ).push(pv[i as int].0));
    }
    assert(pv.take(pkgs@.len() as int) =~= pv);
    proof { lemma_names_version(pv); }
    sort_dedup(&all)
}

proof fn lemma_names_version(pv: Seq<(Seq<char>, Seq<char>)>)
    ensures
        forall|y: Seq<char>| pv.map_values(|p: (Seq<char>, Seq<char>)| p.0).contains(y) <==> version_in(pv, y) is Some,
    decreases pv.len(),
{
    if pv.len() > 0 {
        lemma_names_version(pv.drop_last());
        let a = pv.drop_last().map_values(|p: (Seq<char>, Seq<char>)| p.0);
        let b = pv.map_values(|p: (Seq<char>, Seq<char>)| p.0);
        assert(b =~= a.push(pv.last().0));
        assert forall|y: Seq<char>| b.contains(y) <==> version_in(pv, y) is Some by {
            assert(a.contains(y) <==> version_in(pv.drop_last(), y) is Some);
            if b.contains(y) {
                let k = choose|k: int| 0 <= k < b.len() && b[k] == y;
                if k < a.len() {
                    assert(a[k] == y);
                }
            }
            if a.contains(y) {
                let k = choose|k: int| 0 <= k < a.len() && a[k] == y;
                assert(b[k] == y);
            }
            if y == pv.last().0 {
                assert(b[b.len() - 1] == y);
            }
        }
    }
}

/// A subsequence (by increasing positions) of a strictly sorted sequence is
/// strictly sorted.
proof fn lemma_sorted_pick(s: Seq<Seq<char>>, idx: Seq<int>, t: Seq<Seq<char>>)
    requires
        strictly_sorted(s),
        idx.len() == t.len(),
        forall|j: int| 0 <= j < idx.len() ==> 0 <= #[trigger] idx[j] < s.len() && t[j] == s[idx[j]],
        forall|j: int, k: int| 0 <= j < k < idx.len() ==> #[trigger] idx[j] < #[trigger] idx[k],
    ensures
        strictly_sorted(t),
{
    assert forall|i: int, j: int| 0 <= i < j < t.len() implies lex_lt(#[trigger] t[i], #[trigger] t[j]) by {
        assert(idx[i] < idx[j]);
    }
}

/// What changed between the package lists of an older and a newer
/// generation (each list read as a map from name to the version of its last
/// entry): the names only in the newer, the names only in the older, and
/// the names in both at different versions with the old and new version;
/// each list sorted by name, each name once.
pub fn diff_packages(older: &Vec<(String, String)>, newer: &Vec<(String, String)>) -> (r: GenerationDiff)
    ensures
        strictly_sorted(string_views(r.added_packages@)),
        forall|y: Seq<char>| string_views(r.added_packages@).contains(y) <==> (version_in(
            pkg_views(newer@),
            y,
        ) is Some && version_in(pkg_views(older@), y) is None),
        strictly_sorted(string_views(r.removed_packages@)),
        forall|y: Seq<char>| string_views(r.removed_packages@).contains(y) <==> (version_in(
            pkg_views(older@),
            y,
        ) is Some && version_in(pkg_views(newer@), y) is None),
        strictly_sorted(r.changed_packages@.map_values(|c: (String, String, String)| c.0@)),
        forall|y: Seq<char>| r.changed_packages@.map_values(|c: (String, String, String)| c.0@).contains(y) <==> (
            version_in(pkg_views(older@), y) is Some && version_in(pkg_views(newer@), y) is Some
                && version_in(pkg_views(older@), y) != version_in(pkg_views(newer@), y)),
        forall|k: int| 0 <= k < r.changed_packages@.len() ==> {
            let c = #[trigger] r.changed_packages@[k];
            Some(c.1@) == version_in(pkg_views(older@), c.0@) && Some(c.2@) == version_in(pkg_views(newer@), c.0@)
        },
{
    let ghost ov = pkg_views(older@);
    let ghost nv = pkg_views(newer@);
    let names_new = names_of(newer);
    let ghost bn = views(names_new@);
    let mut added: Vec<String> = Vec::new();
    let mut changed: Vec<(String, String, String)> = Vec::new();
    let ghost mut added_idx: Seq<int> = Seq::empty();
    let ghost mut changed_idx: Seq<int> = Seq::empty();
    for i in 0..names_new.len()
        invariant
            bn == views(names_new@),
            strictly_sorted(bn),
            ov == pkg_views(older@),
            nv == pkg_views(newer@),
            forall|y: Seq<char>| bn.contains(y) <==> version_in(nv, y) is Some,
            added_idx.len() == added@.len(),
            forall|j: int| 0 <= j < added_idx.len() ==> 0 <= #[trigger] added_idx[j] < i && string_views(added@)[j] == bn[added_idx[j]],
            forall|j: int, k: int| 0 <= j < k < added_idx.len() ==> #[trigger] added_idx[j] < #[trigger] added_idx[k],
            forall|y: Seq<char>| string_views(added@).contains(y) <==> (bn.take(i as int).contains(y) && version_in(ov, y) is None),
            changed_idx.len() == changed@.len(),
            forall|j: int| 0 <= j < changed_idx.len() ==> 0 <= #[trigger] changed_idx[j] < i
                && changed@.map_values(|c: (String, String, String)| c.0@)[j] == bn[changed_idx[j]],
            forall|j: int, k: int| 0 <= j < k < changed_idx.len() ==> #[trigger] changed_idx[j] < #[trigger] changed_idx[k],
            forall|y: Seq<char>| changed@.map_values(|c: (String, String, String)| c.0@).contains(y) <==> (
                bn.take(i as int).contains(y) && version_in(ov, y) is Some && version_in(ov, y) != version_in(nv, y)),
            forall|k: int| 0 <= k < changed@.len() ==> {
                let c = #[trigger] changed@[k];
                Some(c.1@) == version_in(ov, c.0@) && Some(c.2@) == version_in(nv, c.0@)
            },
    {
        let name = &names_new[i];
        assert(bn.contains(bn[i as int]));
        let vb = match version_lookup(newer, name) {
            Some(v) => v,
            None => {
                assert(false);
                Vec::new()
            },
        };
        let ghost a_prev = string_views(added@);
        let ghost c_prev = changed@.map_values(|c: (String, String, String)| c.0@);
        match version_lookup(older, name) {
            None => {
                added.push(string_from(name));
                proof {
                    assert(string_views(added@) =~= a_prev.push(bn[i as int]));
                    added_idx = added_idx.push(i as int);
                }
            },
            Some(va) => {
                if !chars_eq(&va, &vb) {
                    changed.push((string_from(name), string_from(&va), string_from(&vb)));
                    proof {
                        assert(changed@.map_values(|c: (String, String, String)| c.0@) =~= c_prev.push(bn[i as int]));
                        changed_idx = changed_idx.push(i as int);
                    }
                }
            },
        }
        proof {
            let t0 = bn.take(i as int);
            let t1 = bn.take(i + 1);
            assert(t1 =~= t0.push(bn[i as int]));
            assert forall|y: Seq<char>| t1.contains(y) <==> (t0.contains(y) || y == bn[i as int]) by {
                if t1.contains(y) {
                    let k = choose|k: int| 0 <= k < t1.len() && t1[k] == y;
                    if k < t0.len() {
                        assert(t0[k] == y);
                    }
                }
                if t0.contains(y) {
                    let k = choose|k: int| 0 <= k < t0.len() && t0[k] == y;
                    assert(t1[k] == y);
                }
                if y == bn[i as int] {
                    assert(t1[i as int] == y);
                }
            }
            let av = string_views(added@);
            assert forall|y: Seq<char>| av.contains(y) <==> (t1.contains(y) && version_in(ov, y) is None) by {
                if av.contains(y) && !a_prev.contains(y) {
                    let k = choose|k: int| 0 <= k < av.len() && av[k] == y;
                    if k < a_prev.len() {
                        assert(a_prev[k] == y);
                    }
                }
                if a_prev.contains(y) {
                    let k = choose|k: int| 0 <= k < a_prev.len() && a_prev[k] == y;
                    assert(av[k] == y);
                }
                if y == bn[i as int] && version_in(ov, y) is None {
                    assert(av[av.len() - 1] == y);
                }
            }
            let cv = changed@.map_values(|c: (String, String, String)| c.0@);
            assert forall|y: Seq<char>| cv.contains(y) <==> (t1.contains(y) && version_in(ov, y) is Some
                && version_in(ov, y) != version_in(nv, y)) by {
                if cv.contains(y) && !c_prev.contains(y) {
                    let k = choose|k: int| 0 <= k < cv.len() && cv[k] == y;
                    if k < c_prev.len() {
                        assert(c_prev[k] == y);
                    }
                }
                if c_prev.contains(y) {
                    let k = choose|k: int| 0 <= k < c_prev.len() && c_prev[k] == y;
                    assert(cv[k] == y);
                }
                if y == bn[i as int] && version_in(ov, y) is Some && version_in(ov, y) != version_in(nv, y) {
                    assert(cv[cv.len() - 1] == y);
                }
            }
        }
    }
    assert(bn.take(names_new@.len() as int) =~= bn);
    proof {
        lemma_sorted_pick(bn, added_idx, string_views(added@));
        lemma_sorted_pick(bn, changed_idx, changed@.map_values(|c: (String, String, String)| c.0@));
    }
    let names_old = names_of(older);
    let ghost an = views(names_old@);
    let mut removed: Vec<String> = Vec::new();
    let ghost mut removed_idx: Seq<int> = Seq::empty();
    for i in 0..names_old.len()
        invariant
            an == views(names_old@),
            strictly_sorted(an),
            ov == pkg_views(older@),
            nv == pkg_views(newer@),
            forall|y: Seq<char>| an.contains(y) <==> version_in(ov, y) is Some,
            removed_idx.len() == removed@.len(),
            forall|j: int| 0 <= j < removed_idx.len() ==> 0 <= #[trigger] removed_idx[j] < i && string_views(removed@)[j] == an[removed_idx[j]],
            forall|j: int, k: int| 0 <= j < k < removed_idx.len() ==> #[trigger] removed_idx[j] < #[trigger] removed_idx[k],
            forall|y: Seq<char>| string_views(removed@).contains(y) <==> (an.take(i as int).contains(y) && version_in(nv, y) is None),
    {
        let name = &names_old[i];
        let ghost r_prev = string_views(removed@);
        if version_lookup(newer, name).is_none() {
            removed.push(string_from(name));
            proof {
                assert(string_views(removed@) =~= r_prev.push(an[i as int]));
                removed_idx = removed_idx.push(i as int);
            }
        }
        proof {
            let t0 = an.take(i as int);
            let t1 = an.take(i + 1);
            assert(t1 =~= t0.push(an[i as int]));
            let rv = string_views(removed@);
            assert forall|y: Seq<char>| rv.contains(y) <==> (t1.contains(y) && version_in(nv, y) is None) by {
                if t1.contains(y) {
                    let k = choose|k: int| 0 <= k < t1.len() && t1[k] == y;
                    if k < t0.len() {
                        assert(t0[k] == y);
                    }
                }
                if t0.contains(y) {
                    let k = choose|k: int| 0 <= k < t0.len() && t0[k] == y;
                    assert(t1[k] == y);
                }
                if rv.contains(y) && !r_prev.contains(y) {
                    let k = choose|k: int| 0 <= k < rv.len() && rv[k] == y;
                    if k < r_prev.len() {
                        assert(r_prev[k] == y);
                    }
                }
                if r_prev.contains(y) {
                    let k = choose|k: int| 0 <= k < r_prev.len() && r_prev[k] == y;
                    assert(rv[k] == y);
                }
                if y == an[i as int] && version_in(nv, y) is None {
                    assert(rv[rv.len() - 1] == y);
                    assert(t1[i as int] == y);
                }
            }
        }
    }
    assert(an.take(names_old@.len() as int) =~= an);
    proof {
        lemma_sorted_pick(an, removed_idx, string_views(removed@));
    }
    GenerationDiff { added_packages: added, removed_packages: removed, changed_packages: changed }
}

/// `s` with `g` placed after every generation numbered at least as high,
/// and before the rest.
pub open spec fn insert_by_number(s: Seq<Generation>, g: Generation) -> Seq<Generation>
    decreases s.len(),
{
    if s.len() == 0 {
        seq![g]
    } else if s.last().number >= g.number {
        s.push(g)
    } else {
        insert_by_number(s.drop_last(), g).push(s.last())
    }
}

/// The generations ordered by number, highest first; generations with the
/// same number keep their order (a stable sort).
pub open spec fn newest_first(s: Seq<Generation>) -> Seq<Generation>
    decreases s.len(),
{
    if s.len() == 0 {
        Seq::<Generation>::empty()
    } else {
        insert_by_number(newest_first(s.drop_last()), s.last())
    }
}

/// The numbers never increase along `s`.
pub open spec fn numbers_descending(s: Seq<Generation>) -> bool {
    forall|i: int, j: int| 0 <= i < j < s.len() ==> (#[trigger] s[i]).number >= (#[trigger] s[j]).number
}

proof fn lemma_insert_by_number(s: Seq<Generation>, g: Generation)
    requires
        numbers_descending(s),
    ensures
        numbers_descending(insert_by_number(s, g)),
        insert_by_number(s, g).len() == s.len() + 1,
        insert_by_number(s, g).to_multiset() == s.to_multiset().insert(g),
    decreases s.len(),
{
    broadcast use vstd::seq_lib::group_to_multiset_ensures;
    if s.len() == 0 {
        assert(seq![g] =~= Seq::<Generation>::empty().push(g));
    } else if s.last().number >= g.number {
    } else {
        let r = insert_by_number(s.drop_last(), g);
        assert(numbers_descending(s.drop_last()));
        lemma_insert_by_number(s.drop_last(), g);
        assert(s =~= s.drop_last().push(s.last()));
        assert forall|i: int, j: int| 0 <= i < j < r.len() + 1 implies (#[trigger] r.push(s.last())[i]).number
            >= (#[trigger] r.push(s.last())[j]).number by {
            if j == r.len() {
                // Every element of r is s's earlier element or g, all >= s.last().
                assert(r.to_multiset().count(r[i]) > 0);
                assert(r.to_multiset() == s.drop_last().to_multiset().insert(g));
                if r[i] != g {
                    assert(s.drop_last().to_multiset().count(r[i]) > 0);
                    assert(s.drop_last().contains(r[i]));
                    let k = choose|k: int| 0 <= k < s.drop_last().len() && s.drop_last()[k] == r[i];
                    assert(s[k] == r[i]);
                }
            }
        }
    }
}

proof fn lemma_newest_first(s: Seq<Generation>)
    ensures
        numbers_descending(newest_first(s)),
        newest_first(s).to_multiset() == s.to_multiset(),
    decreases s.len(),
{
    broadcast use vstd::seq_lib::group_to_multiset_ensures;
    if s.len() > 0 {
        lemma_newest_first(s.drop_last());
        lemma_insert_by_number(newest_first(s.drop_last()), s.last());
        assert(s =~= s.drop_last().push(s.last()));
    }
}

fn position_for(v: &Vec<Generation>, number: u32) -> (p: usize)
    ensures
        p <= v@.len(),
        forall|g: Generation| g.number == number ==> insert_by_number(v@, g) == v@.take(p as int).push(g) + v@.skip(p as int),
{
    let mut p: usize = v.len();
    assert(v@.take(v@.len() as int) =~= v@);
    while p > 0 && v[p - 1].number < number
        invariant
            0 <= p <= v@.len(),
            forall|g: Generation| g.number == number ==> insert_by_number(v@, g) == insert_by_number(v@.take(p as int), g) + v@.skip(p as int),
        decreases p,
    {
        proof {
            assert forall|g: Generation| g.number == number implies insert_by_number(v@, g) == insert_by_number(
                v@.take(p - 1),
                g,
            ) + v@.skip(p - 1) by {
                let t = v@.take(p as int);
                assert(t.drop_last() =~= v@.take(p - 1));
                assert(t.last() == v@[p - 1]);
                assert(v@.skip(p - 1) =~= seq![v@[p - 1]] + v@.skip(p as int));
                assert(insert_by_number(t, g) == insert_by_number(v@.take(p - 1), g).push(v@[p - 1]));
                assert(insert_by_number(v@.take(p - 1), g).push(v@[p - 1]) + v@.skip(p as int)
                    =~= insert_by_number(v@.take(p - 1), g) + v@.skip(p - 1));
            }
        }
        p -= 1;
    }
    proof {
        assert forall|g: Generation| g.number == number implies insert_by_number(v@, g) == v@.take(p as int).push(g)
            + v@.skip(p as int) by {
            let t = v@.take(p as int);
            if p == 0 {
                assert(t.len() == 0);
            } else {
                assert(t.last() == v@[p - 1]);
            }
        }
    }
    p
}

/// The generations ordered by number, highest (most recent) first, keeping
/// the order of generations with equal numbers.
pub fn sort_newest_first(gens: Vec<Generation>) -> (r: Vec<Generation>)
    ensures
        r@ == newest_first(gens@),
        numbers_descending(r@),
        r@.to_multiset() == gens@.to_multiset(),
{
    let ghost all = gens@;
    let mut rest = gens;
    let mut out: Vec<Generation> = Vec::new();
    let mut i: usize = 0;
    let n = rest.len();
    while rest.len() > 0
        invariant
            n == all.len(),
            i + rest@.len() == n,
            rest@ == all.skip(i as int),
            out@ == newest_first(all.take(i as int)),
        decreases rest@.len(),
    {
        let g = rest.remove(0);
        assert(g == all[i as int]);
        assert(rest@ =~= all.skip(i + 1));
        let p = position_for(&out, g.number);
        let ghost before = out@;
        out.insert(p, g);
        assert(all.take(i + 1).drop_last() =~= all.take(i as int));
        assert(out@ =~= before.take(p as int).push(g) + before.skip(p as int));
        i += 1;
    }
    assert(all.take(n as int) =~= all);
    proof { lemma_newest_first(all); }
    out
}

} // verus!

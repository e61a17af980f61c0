//! Substring and prefix search over an option index.
//!
//! Scores, higher first: 100 when the path is the query, 80 when it starts
//! with it, 60 when it contains it, 40 when the description contains it;
//! equal scores are ordered by path. Matching ignores case.
use vstd::prelude::*;
use crate::text::{chars_eq, chars_of, contains, contains_exec, lex_less, lex_lt, lowercase, starts_with, to_lowercase};
use crate::options::types::{MetaModel, OptionIndex, OptionMeta};

verus! {

/// The score of an option for the lowercase query `q`, if it matches.
pub open spec fn score_of(m: MetaModel, q: Seq<char>) -> Option<u32> {
    let p = lowercase(m.path);
    let d = lowercase(m.description);
    if p == q {
        Some(100)
    } else if q.is_prefix_of(p) {
        Some(80)
    } else if contains(p, q) {
        Some(60)
    } else if contains(d, q) {
        Some(40)
    } else {
        None
    }
}

/// A scored match: position in the index, score and path.
pub open spec fn ranks_before(a: (int, u32, Seq<char>), b: (int, u32, Seq<char>)) -> bool {
    a.1 > b.1 || (a.1 == b.1 && lex_lt(a.2, b.2))
}

/// `s` with `x` placed after every match that does not rank below it.
pub open spec fn insert_ranked(s: Seq<(int, u32, Seq<char>)>, x: (int, u32, Seq<char>)) -> Seq<(int, u32, Seq<char>)>
    decreases s.len(),
{
    if s.len() == 0 {
        seq![x]
    } else if !ranks_before(x, s.last()) {
        s.push(x)
    } else {
        insert_ranked(s.drop_last(), x).push(s.last())
    }
}

/// The matches among the first options, ranked (a stable sort by score,
/// then path).
pub open spec fn ranked(opts: Seq<MetaModel>, q: Seq<char>) -> Seq<(int, u32, Seq<char>)>
    decreases opts.len(),
{
    if opts.len() == 0 {
        Seq::<(int, u32, Seq<char>)>::empty()
    } else {
        let r = ranked(opts.drop_last(), q);
        let i = opts.len() - 1;
        match score_of(opts[i], q) {
            Some(s) => insert_ranked(r, (i, s, opts[i].path)),
            None => r,
        }
    }
}

/// A text contains each text it begins with, itself included.
proof fn lemma_prefix_contained(p: Seq<char>, q: Seq<char>)
    requires
        q.is_prefix_of(p),
    ensures
        contains(p, q),
{
    assert(p.subrange(0, q.len() as int) =~= q);
    assert(crate::text::occurs_at(p, q, 0));
}

/// An option whose lowercase path does not hold the lowercase query but
/// whose lowercase description does is a match of score 40: the
/// description is searched ignoring case, like the path.
pub proof fn law_description_matches_ignoring_case(m: MetaModel, q: Seq<char>)
    requires
        !contains(lowercase(m.path), q),
        contains(lowercase(m.description), q),
    ensures
        score_of(m, q) == Some(40u32),
{
    if lowercase(m.path) == q {
        lemma_prefix_contained(lowercase(m.path), q);
    }
    if q.is_prefix_of(lowercase(m.path)) {
        lemma_prefix_contained(lowercase(m.path), q);
    }
}

/// The score of an option for the lowercase query `q`, by where `q` is
/// found in its lowercase path `p`: the whole path scores 100, a proper
/// beginning of it 80, elsewhere in it 60; found only in the description
/// it scores 40, and found nowhere it does not match.
pub proof fn law_score_by_place_of_match(m: MetaModel, q: Seq<char>)
    ensures
        lowercase(m.path) == q ==> score_of(m, q) == Some(100u32),
        q.is_prefix_of(lowercase(m.path)) && lowercase(m.path) != q ==> score_of(m, q) == Some(80u32),
        contains(lowercase(m.path), q) && !q.is_prefix_of(lowercase(m.path)) ==> score_of(m, q) == Some(60u32),
        !contains(lowercase(m.path), q) && !contains(lowercase(m.description), q) ==> score_of(m, q) is None,
{
    if lowercase(m.path) == q || q.is_prefix_of(lowercase(m.path)) {
        if lowercase(m.path) == q {
            assert(q.is_prefix_of(lowercase(m.path)));
        }
        lemma_prefix_contained(lowercase(m.path), q);
    }
}

/// The score depends on the path and the description only through their
/// lowercase forms: two options that agree once lowercased score alike.
pub proof fn law_score_ignores_case(m1: MetaModel, m2: MetaModel, q: Seq<char>)
    requires
        lowercase(m1.path) == lowercase(m2.path),
        lowercase(m1.description) == lowercase(m2.description),
    ensures
        score_of(m1, q) == score_of(m2, q),
{
}

proof fn lemma_insert_ranked_members(s: Seq<(int, u32, Seq<char>)>, x: (int, u32, Seq<char>))
    ensures
        forall|y: (int, u32, Seq<char>)| #[trigger] insert_ranked(s, x).contains(y) <==> (s.contains(y) || y == x),
    decreases s.len(),
{
    let r = insert_ranked(s, x);
    if s.len() == 0 {
        assert forall|y: (int, u32, Seq<char>)| #[trigger] r.contains(y) <==> (s.contains(y) || y == x) by {
            if y == x {
                assert(r[0] == x);
            }
        }
    } else if !ranks_before(x, s.last()) {
        assert forall|y: (int, u32, Seq<char>)| #[trigger] r.contains(y) <==> (s.contains(y) || y == x) by {
            if r.contains(y) {
                let j = choose|j: int| 0 <= j < r.len() && r[j] == y;
                if j < s.len() {
                    assert(s[j] == y);
                }
            }
            if s.contains(y) {
                let j = choose|j: int| 0 <= j < s.len() && s[j] == y;
                assert(r[j] == y);
            }
            if y == x {
                assert(r[s.len() as int] == x);
            }
        }
    } else {
        let d = s.drop_last();
        lemma_insert_ranked_members(d, x);
        let pd = insert_ranked(d, x);
        assert forall|y: (int, u32, Seq<char>)| #[trigger] r.contains(y) <==> (s.contains(y) || y == x) by {
            if r.contains(y) {
                let j = choose|j: int| 0 <= j < r.len() && r[j] == y;
                if j < pd.len() {
                    assert(pd[j] == y);
                    assert(pd.contains(y));
                    if d.contains(y) {
                        let k = choose|k: int| 0 <= k < d.len() && d[k] == y;
                        assert(s[k] == y);
                    }
                } else {
                    assert(s[s.len() - 1] == y);
                }
            }
            if s.contains(y) {
                let j = choose|j: int| 0 <= j < s.len() && s[j] == y;
                if j < d.len() {
                    assert(d[j] == y);
                    assert(pd.contains(y));
                    let k = choose|k: int| 0 <= k < pd.len() && pd[k] == y;
                    assert(r[k] == y);
                } else {
                    assert(r[r.len() - 1] == y);
                }
            }
            if y == x {
                assert(pd.contains(x));
                let k = choose|k: int| 0 <= k < pd.len() && pd[k] == x;
                assert(r[k] == x);
            }
        }
    }
}

/// The ranked matches are exactly the matching options: an option is
/// among them, with its score and path, exactly when it scores.
pub proof fn law_ranked_holds_every_match(opts: Seq<MetaModel>, q: Seq<char>, i: int)
    requires
        0 <= i < opts.len(),
    ensures
        forall|s: u32| #[trigger] ranked(opts, q).contains((i, s, opts[i].path)) <==> score_of(opts[i], q) == Some(s),
    decreases opts.len(),
{
    let d = opts.drop_last();
    let n = opts.len() - 1;
    let r = ranked(d, q);
    let ghost cd = ranked(d, q);
    if i < n {
        law_ranked_holds_every_match(d, q, i);
        assert(d[i] == opts[i]);
    }
    lemma_ranked_indices(d, q);
    match score_of(opts[n], q) {
        Some(sc) => {
            lemma_insert_ranked_members(r, (n, sc, opts[n].path));
        },
        None => {},
    }
    assert forall|s: u32| #[trigger] ranked(opts, q).contains((i, s, opts[i].path)) <==> score_of(opts[i], q) == Some(s) by {
        if i < n {
            assert(d[i] == opts[i]);
            assert(cd.contains((i, s, d[i].path)) <==> score_of(d[i], q) == Some(s));
            if cd.contains((i, s, opts[i].path)) {
                assert(cd.contains((i, s, d[i].path)));
            }
        } else {
            if cd.contains((i, s, opts[i].path)) {
                let j = choose|j: int| 0 <= j < cd.len() && cd[j] == (i, s, opts[i].path);
                assert(cd[j].0 < d.len());
            }
        }
    }
}

/// `b` does not rank before `a`.
pub open spec fn rank_le(a: (int, u32, Seq<char>), b: (int, u32, Seq<char>)) -> bool {
    !ranks_before(b, a)
}

/// Along `s` no match ranks before one placed ahead of it.
pub open spec fn rank_ordered(s: Seq<(int, u32, Seq<char>)>) -> bool {
    forall|i: int, j: int| 0 <= i < j < s.len() ==> rank_le(#[trigger] s[i], #[trigger] s[j])
}

proof fn lemma_rank_le_trans(a: (int, u32, Seq<char>), b: (int, u32, Seq<char>), c: (int, u32, Seq<char>))
    requires
        rank_le(a, b),
        rank_le(b, c),
    ensures
        rank_le(a, c),
{
    if ranks_before(c, a) {
        if a.1 == b.1 && b.1 == c.1 {
            if a.2 != b.2 {
                crate::text::lemma_lex_total(a.2, b.2);
            }
            if b.2 != c.2 {
                crate::text::lemma_lex_total(b.2, c.2);
            }
            if a.2 != b.2 && b.2 != c.2 {
                crate::text::lemma_lex_transitive(a.2, b.2, c.2);
                crate::text::lemma_lex_transitive(a.2, c.2, a.2);
                crate::text::lemma_lex_irreflexive(a.2);
            }
        }
    }
}

proof fn lemma_rank_asym(a: (int, u32, Seq<char>), b: (int, u32, Seq<char>))
    requires
        ranks_before(a, b),
    ensures
        rank_le(a, b),
{
    if ranks_before(b, a) && a.1 == b.1 {
        crate::text::lemma_lex_transitive(a.2, b.2, a.2);
        crate::text::lemma_lex_irreflexive(a.2);
    }
}

proof fn lemma_insert_ranked_ordered(s: Seq<(int, u32, Seq<char>)>, x: (int, u32, Seq<char>))
    requires
        rank_ordered(s),
    ensures
        rank_ordered(insert_ranked(s, x)),
    decreases s.len(),
{
    let r = insert_ranked(s, x);
    if s.len() == 0 {
    } else if !ranks_before(x, s.last()) {
        assert forall|i: int, j: int| 0 <= i < j < r.len() implies rank_le(#[trigger] r[i], #[trigger] r[j]) by {
            if j == s.len() {
                assert(r[i] == s[i]);
                if i < s.len() - 1 {
                    assert(rank_le(s[i], s[s.len() - 1]));
                    lemma_rank_le_trans(s[i], s.last(), x);
                } else {
                    assert(rank_le(s.last(), x));
                }
            } else {
                assert(r[i] == s[i] && r[j] == s[j]);
            }
        }
    } else {
        let d = s.drop_last();
        let last = s.last();
        assert(rank_ordered(d)) by {
            assert forall|i: int, j: int| 0 <= i < j < d.len() implies rank_le(#[trigger] d[i], #[trigger] d[j]) by {
                assert(d[i] == s[i] && d[j] == s[j]);
            }
        }
        lemma_insert_ranked_ordered(d, x);
        lemma_insert_ranked_members(d, x);
        lemma_rank_asym(x, last);
        let pd = insert_ranked(d, x);
        assert(r == pd.push(last));
        assert forall|i: int, j: int| 0 <= i < j < r.len() implies rank_le(#[trigger] r[i], #[trigger] r[j]) by {
            if j == pd.len() {
                assert(r[i] == pd[i]);
                assert(pd.contains(pd[i]));
                if pd[i] != x {
                    let k = choose|k: int| 0 <= k < d.len() && d[k] == pd[i];
                    assert(d[k] == s[k]);
                    assert(rank_le(s[k], s[s.len() - 1]));
                }
            } else {
                assert(r[i] == pd[i] && r[j] == pd[j]);
            }
        }
    }
}

/// The ranked matches come in rank order: higher scores first, equal scores
/// by path.
pub proof fn law_ranked_in_order(opts: Seq<MetaModel>, q: Seq<char>)
    ensures
        rank_ordered(ranked(opts, q)),
    decreases opts.len(),
{
    if opts.len() > 0 {
        law_ranked_in_order(opts.drop_last(), q);
        let n = opts.len() - 1;
        match score_of(opts[n], q) {
            Some(sc) => lemma_insert_ranked_ordered(ranked(opts.drop_last(), q), (n, sc, opts[n].path)),
            None => {},
        }
    }
}

/// Every ranked match refers to one of the options.
proof fn lemma_ranked_indices(opts: Seq<MetaModel>, q: Seq<char>)
    ensures
        forall|j: int| 0 <= j < ranked(opts, q).len() ==> 0 <= (#[trigger] ranked(opts, q)[j]).0 < opts.len(),
    decreases opts.len(),
{
    if opts.len() > 0 {
        let d = opts.drop_last();
        let n = opts.len() - 1;
        lemma_ranked_indices(d, q);
        let r = ranked(d, q);
        match score_of(opts[n], q) {
            Some(sc) => {
                let x = (n, sc, opts[n].path);
                lemma_insert_ranked_members(r, x);
                assert forall|j: int| 0 <= j < ranked(opts, q).len() implies 0 <= (#[trigger] ranked(opts, q)[j]).0 < opts.len() by {
                    let y = ranked(opts, q)[j];
                    assert(insert_ranked(r, x).contains(y));
                    if y != x {
                        let k = choose|k: int| 0 <= k < r.len() && r[k] == y;
                    }
                }
            },
            None => {},
        }
    }
}

fn ranks_before_exec(score: u32, path: &Vec<char>, e: (usize, u32), opts: &Vec<OptionMeta>) -> (b: bool)
    requires
        e.0 < opts@.len(),
    ensures
        b == ranks_before((0, score, path@), (e.0 as int, e.1, opts@[e.0 as int].path@)),
{
    let (j, s) = e;
    score > s || (score == s && lex_less(path, &chars_of(opts[j].path.as_str())))
}

fn rank_position(v: &Vec<(usize, u32)>, opts: &Vec<OptionMeta>, score: u32, path: &Vec<char>, Ghost(idx): Ghost<int>) -> (p: usize)
    requires
        forall|k: int| 0 <= k < v@.len() ==> (#[trigger] v@[k]).0 < opts@.len(),
    ensures
        p <= v@.len(),
        insert_ranked(entries(v@, opts@), (idx, score, path@)) == entries(v@, opts@).take(p as int).push(
            (idx, score, path@),
        ) + entries(v@, opts@).skip(p as int),
{
    let ghost e = entries(v@, opts@);
    let ghost x = (idx, score, path@);
    let mut p: usize = v.len();
    assert(e.take(e.len() as int) =~= e);
    loop
        invariant
            0 <= p <= v@.len(),
            x == (idx, score, path@),
            e == entries(v@, opts@),
            forall|k: int| 0 <= k < v@.len() ==> (#[trigger] v@[k]).0 < opts@.len(),
            insert_ranked(e, x) == insert_ranked(e.take(p as int), x) + e.skip(p as int),
        ensures
            0 <= p <= v@.len(),
            insert_ranked(e, x) == insert_ranked(e.take(p as int), x) + e.skip(p as int),
            p == 0 || !ranks_before(x, e[p - 1]),
        decreases p,
    {
        if p == 0 {
            break;
        }
        let rb = ranks_before_exec(score, path, v[p - 1], opts);
        proof {
            assert(e[p - 1] == (v@[p - 1].0 as int, v@[p - 1].1, opts@[v@[p - 1].0 as int].path@));
        }
        if !rb {
            break;
        }
        proof {
            let t = e.take(p as int);
            assert(t.drop_last() =~= e.take(p - 1));
            assert(t.last() == e[p - 1]);
            assert(e.skip(p - 1) =~= seq![e[p - 1]] + e.skip(p as int));
            assert(insert_ranked(e.take(p - 1), x).push(e[p - 1]) + e.skip(p as int) =~= insert_ranked(
                e.take(p - 1),
                x,
            ) + e.skip(p - 1));
        }
        p -= 1;
    }
    proof {
        let t = e.take(p as int);
        if p == 0 {
            assert(t.len() == 0);
        } else {
            assert(t.last() == e[p - 1]);
        }
    }
    p
}

/// The scored positions as matches with their paths.
pub open spec fn entries(v: Seq<(usize, u32)>, opts: Seq<OptionMeta>) -> Seq<(int, u32, Seq<char>)> {
    v.map_values(|x: (usize, u32)| (x.0 as int, x.1, opts[x.0 as int].path@))
}

fn score_exec(m: &OptionMeta, q: &Vec<char>) -> (r: Option<u32>)
    ensures
        r == score_of(m@, q@),
{
    let p = to_lowercase(m.path.as_str());
    let d = to_lowercase(m.description.as_str());
    if chars_eq(&p, q) {
        Some(100)
    } else if starts_with(&p, q) {
        Some(80)
    } else if contains_exec(&p, q) {
        Some(60)
    } else if contains_exec(&d, q) {
        Some(40)
    } else {
        None
    }
}

/// The top `limit` options of `index` that match `pattern`, ignoring case,
/// ranked by score and then path; with an empty query, the first `limit`
/// options in index order.
pub fn query<'a>(index: &'a OptionIndex, pattern: &str, limit: usize) -> (r: Vec<&'a OptionMeta>)
    ensures
        pattern@.len() == 0 ==> r@.len() == (if limit < index.options@.len() { limit as int } else { index.options@.len() as int })
            && forall|k: int| 0 <= k < r@.len() ==> *(#[trigger] r@[k]) == index.options@[k],
        pattern@.len() > 0 ==> ({
            let rk = ranked(index.options@.map_values(|m: OptionMeta| m@), lowercase(pattern@));
            &&& r@.len() == (if limit < rk.len() { limit as int } else { rk.len() as int })
            &&& forall|k: int| 0 <= k < r@.len() ==> 0 <= rk[k].0 < index.options@.len() && *(#[trigger] r@[k]) == index.options@[rk[k].0]
        }),
{
    let opts = &index.options;
    let mut r: Vec<&'a OptionMeta> = Vec::new();
    if chars_of(pattern).len() == 0 {
        let mut i: usize = 0;
        while i < opts.len() && i < limit
            invariant
                i <= opts@.len(),
                i <= limit,
                opts == &index.options,
                r@.len() == i,
                forall|k: int| 0 <= k < i ==> *(#[trigger] r@[k]) == index.options@[k],
            decreases opts@.len() - i,
        {
            r.push(&opts[i]);
            i += 1;
        }
        return r;
    }
    let q = to_lowercase(pattern);
    let ghost models = opts@.map_values(|m: OptionMeta| m@);
    let mut scored: Vec<(usize, u32)> = Vec::new();
    for i in 0..opts.len()
        invariant
            opts == &index.options,
            models == opts@.map_values(|m: OptionMeta| m@),
            q@ == lowercase(pattern@),
            forall|k: int| 0 <= k < scored@.len() ==> (#[trigger] scored@[k]).0 < i,
            entries(scored@, opts@) == ranked(models.take(i as int), q@),
    {
        assert(models.take(i + 1).drop_last() =~= models.take(i as int));
        assert(models.take(i + 1)[i as int] == opts@[i as int]@);
        match score_exec(&opts[i], &q) {
            Some(sc) => {
                let path = chars_of(opts[i].path.as_str());
                let p = rank_position(&scored, opts, sc, &path, Ghost(i as int));
                let ghost before = entries(scored@, opts@);
                let ghost prev = scored@;
                scored.insert(p, (i, sc));
                proof {
                    prev.insert_ensures(p as int, (i, sc));
                    let after = entries(scored@, opts@);
                    assert(after =~= before.take(p as int).push((i as int, sc, path@)) + before.skip(p as int));
                    assert forall|k: int| 0 <= k < scored@.len() implies (#[trigger] scored@[k]).0 < i + 1 by {
                        if k < p {
                            assert(scored@[k] == prev[k]);
                        } else if k > p {
                            assert(scored@[k] == prev[k - 1]);
                        }
                    }
                }
            },
            None => {},
        }
    }
    assert(models.take(opts@.len() as int) =~= models);
    let ghost rk = ranked(models, q@);
    let n = if limit < scored.len() { limit } else { scored.len() };
    for k in 0..n
        invariant
            n <= scored@.len(),
            opts == &index.options,
            entries(scored@, opts@) == rk,
            forall|j: int| 0 <= j < scored@.len() ==> (#[trigger] scored@[j]).0 < opts@.len(),
            r@.len() == k,
            forall|j: int| 0 <= j < k ==> 0 <= rk[j].0 < index.options@.len() && *(#[trigger] r@[j]) == index.options@[rk[j].0],
    {
        let j = scored[k].0;
        r.push(&opts[j]);
    }
    r
}

} // verus!

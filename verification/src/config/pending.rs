//! The in-memory buffer of queued configuration changes. Changes are keyed
//! by option path: queuing a change for a path that is already buffered
//! replaces the earlier change in place.
use vstd::prelude::*;
use vstd::string::*;
use crate::config::types::{ConfigError, PendingChange};
use crate::nix::format::{detect_indent, indent_unit};
use crate::nix::insert::{add_option, inserted_text};
use crate::nix::reader::{syntax_error_message, syntax_error_text, tree_readable, unreadable_tree_message, NixFile};
use crate::nix::syntax::parse_error_of;
use crate::nix::traversal::path_parts;
use crate::nix::writer::{replaced, set_value, WriteError};

verus! {

/// The buffer holds a change for option path `p`.
pub open spec fn has_path(s: Seq<PendingChange>, p: Seq<char>) -> bool {
    exists|i: int| 0 <= i < s.len() && (#[trigger] s[i]).option_path@ == p
}

/// `i` is the first position of a change for `p`.
pub open spec fn is_first(s: Seq<PendingChange>, p: Seq<char>, i: int) -> bool {
    &&& 0 <= i < s.len()
    &&& s[i].option_path@ == p
    &&& forall|j: int| 0 <= j < i ==> (#[trigger] s[j]).option_path@ != p
}

/// The first position of a change for `p` (meaningful when [`has_path`]).
pub open spec fn first_index(s: Seq<PendingChange>, p: Seq<char>) -> int {
    choose|i: int| is_first(s, p, i)
}

/// The buffered change for `p`, if any.
pub open spec fn lookup(s: Seq<PendingChange>, p: Seq<char>) -> Option<PendingChange> {
    if has_path(s, p) {
        Some(s[first_index(s, p)])
    } else {
        None
    }
}

/// The buffer after queuing `c`: the first change for the same path
/// replaced by `c`, or `c` appended when there is none.
pub open spec fn added(s: Seq<PendingChange>, c: PendingChange) -> Seq<PendingChange> {
    if has_path(s, c.option_path@) {
        s.update(first_index(s, c.option_path@), c)
    } else {
        s.push(c)
    }
}

/// The buffer without the changes for `p`, the others in order.
pub open spec fn without_path(s: Seq<PendingChange>, p: Seq<char>) -> Seq<PendingChange>
    decreases s.len(),
{
    if s.len() == 0 {
        s
    } else {
        let r = without_path(s.drop_last(), p);
        if s.last().option_path@ == p {
            r
        } else {
            r.push(s.last())
        }
    }
}

/// No two buffered changes share an option path.
pub open spec fn unique_paths(s: Seq<PendingChange>) -> bool {
    forall|i: int, j: int|
        0 <= i < s.len() && 0 <= j < s.len() && i != j ==> (#[trigger] s[i]).option_path@ != (#[trigger] s[j]).option_path@
}

/// A first position exists whenever some change has the path.
pub proof fn lemma_first_index(s: Seq<PendingChange>, p: Seq<char>)
    requires
        has_path(s, p),
    ensures
        is_first(s, p, first_index(s, p)),
    decreases s.len(),
{
    let k = choose|k: int| 0 <= k < s.len() && (#[trigger] s[k]).option_path@ == p;
    if s[0].option_path@ == p {
        assert(is_first(s, p, 0));
    } else {
        let t = s.skip(1);
        assert(t[k - 1] == s[k]);
        assert(has_path(t, p));
        lemma_first_index(t, p);
        let i = first_index(t, p);
        assert forall|j: int| 0 <= j < i + 1 implies (#[trigger] s[j]).option_path@ != p by {
            if j > 0 {
                assert(s[j] == t[j - 1]);
            }
        }
        assert(is_first(s, p, i + 1));
    }
}

/// There is only one first position.
pub proof fn lemma_first_unique(s: Seq<PendingChange>, p: Seq<char>, i: int)
    requires
        is_first(s, p, i),
    ensures
        first_index(s, p) == i,
        has_path(s, p),
{
    assert(s[i].option_path@ == p);
    assert(has_path(s, p));
    lemma_first_index(s, p);
    let f = first_index(s, p);
    if f < i {
        assert(s[f].option_path@ != p);
    } else if f > i {
        assert(s[i].option_path@ != p);
    }
}

/// The buffered change for `q` after appending `x`.
pub proof fn lemma_lookup_push(s: Seq<PendingChange>, x: PendingChange, q: Seq<char>)
    ensures
        lookup(s.push(x), q) == if has_path(s, q) {
            lookup(s, q)
        } else if x.option_path@ == q {
            Some(x)
        } else {
            None::<PendingChange>
        },
{
    let t = s.push(x);
    if has_path(s, q) {
        lemma_first_index(s, q);
        let i = first_index(s, q);
        assert forall|j: int| 0 <= j < i implies (#[trigger] t[j]).option_path@ != q by {
            assert(t[j] == s[j]);
        }
        assert(is_first(t, q, i));
        lemma_first_unique(t, q, i);
    } else if x.option_path@ == q {
        assert forall|j: int| 0 <= j < s.len() implies (#[trigger] t[j]).option_path@ != q by {
            assert(t[j] == s[j]);
        }
        assert(is_first(t, q, s.len() as int));
        lemma_first_unique(t, q, s.len() as int);
    } else {
        assert forall|k: int| 0 <= k < t.len() implies (#[trigger] t[k]).option_path@ != q by {
            if k < s.len() {
                assert(t[k] == s[k]);
            }
        }
    }
}

/// Every change left after discarding `p` is one of the buffer's changes,
/// and none of them is for `p`.
pub proof fn lemma_without_members(s: Seq<PendingChange>, p: Seq<char>)
    ensures
        forall|k: int| 0 <= k < without_path(s, p).len() ==> (#[trigger] without_path(s, p)[k]).option_path@ != p,
        forall|k: int| 0 <= k < without_path(s, p).len() ==> exists|j: int| 0 <= j < s.len() && s[j] == #[trigger] without_path(s, p)[k],
    decreases s.len(),
{
    if s.len() > 0 {
        let d = s.drop_last();
        lemma_without_members(d, p);
        let w = without_path(d, p);
        assert forall|k: int| 0 <= k < w.len() implies exists|j: int| 0 <= j < s.len() && s[j] == #[trigger] w[k] by {
            let j = choose|j: int| 0 <= j < d.len() && d[j] == w[k];
            assert(s[j] == d[j]);
        }
        if s.last().option_path@ != p {
            let r = w.push(s.last());
            assert forall|k: int| 0 <= k < r.len() implies exists|j: int| 0 <= j < s.len() && s[j] == #[trigger] r[k] by {
                if k == w.len() {
                    assert(s[s.len() - 1] == r[k]);
                } else {
                    assert(r[k] == w[k]);
                }
            }
        }
    }
}

/// Discarding keeps option paths unique.
pub proof fn lemma_without_unique(s: Seq<PendingChange>, p: Seq<char>)
    requires
        unique_paths(s),
    ensures
        unique_paths(without_path(s, p)),
    decreases s.len(),
{
    if s.len() > 0 {
        let d = s.drop_last();
        assert forall|i: int, j: int| 0 <= i < d.len() && 0 <= j < d.len() && i != j
            implies (#[trigger] d[i]).option_path@ != (#[trigger] d[j]).option_path@ by {
            assert(d[i] == s[i] && d[j] == s[j]);
        }
        lemma_without_unique(d, p);
        lemma_without_members(d, p);
        let w = without_path(d, p);
        if s.last().option_path@ != p {
            let r = w.push(s.last());
            assert forall|a: int, b: int| 0 <= a < r.len() && 0 <= b < r.len() && a != b
                implies (#[trigger] r[a]).option_path@ != (#[trigger] r[b]).option_path@ by {
                if a < w.len() && b < w.len() {
                    assert(r[a] == w[a] && r[b] == w[b]);
                } else if a < w.len() {
                    assert(r[a] == w[a]);
                    let j = choose|j: int| 0 <= j < d.len() && d[j] == w[a];
                    assert(s[j] == d[j]);
                    assert(s[s.len() - 1] == r[b]);
                } else {
                    assert(r[b] == w[b]);
                    let j = choose|j: int| 0 <= j < d.len() && d[j] == w[b];
                    assert(s[j] == d[j]);
                    assert(s[s.len() - 1] == r[a]);
                }
            }
        }
    }
}

/// Replacing a change for `p` by another change for `p` does not change
/// what is left after discarding `p`.
proof fn lemma_without_update(s: Seq<PendingChange>, i: int, c: PendingChange, p: Seq<char>)
    requires
        0 <= i < s.len(),
        s[i].option_path@ == p,
        c.option_path@ == p,
    ensures
        without_path(s.update(i, c), p) == without_path(s, p),
    decreases s.len(),
{
    let t = s.update(i, c);
    if i == s.len() - 1 {
        assert(t.drop_last() =~= s.drop_last());
    } else {
        assert(t.drop_last() =~= s.drop_last().update(i, c));
        lemma_without_update(s.drop_last(), i, c, p);
    }
}

/// Queuing a change makes it the buffered change for its path.
pub proof fn law_add_then_lookup(s: Seq<PendingChange>, c: PendingChange)
    ensures
        lookup(added(s, c), c.option_path@) == Some(c),
{
    let p = c.option_path@;
    if has_path(s, p) {
        lemma_first_index(s, p);
        let i = first_index(s, p);
        let t = s.update(i, c);
        assert forall|j: int| 0 <= j < i implies (#[trigger] t[j]).option_path@ != p by {
            assert(t[j] == s[j]);
        }
        assert(is_first(t, p, i));
        lemma_first_unique(t, p, i);
    } else {
        lemma_lookup_push(s, c, p);
    }
}

/// Queuing a change leaves the buffered changes of every other path as
/// they were.
pub proof fn law_add_keeps_other_paths(s: Seq<PendingChange>, c: PendingChange, q: Seq<char>)
    requires
        q != c.option_path@,
    ensures
        lookup(added(s, c), q) == lookup(s, q),
{
    let p = c.option_path@;
    if has_path(s, p) {
        lemma_first_index(s, p);
        let i = first_index(s, p);
        let t = s.update(i, c);
        if has_path(s, q) {
            lemma_first_index(s, q);
            let f = first_index(s, q);
            assert(f != i);
            assert forall|j: int| 0 <= j < f implies (#[trigger] t[j]).option_path@ != q by {
                if j != i {
                    assert(t[j] == s[j]);
                }
            }
            assert(is_first(t, q, f));
            lemma_first_unique(t, q, f);
        } else {
            assert forall|k: int| 0 <= k < t.len() implies (#[trigger] t[k]).option_path@ != q by {
                if k != i {
                    assert(t[k] == s[k]);
                }
            }
        }
    } else {
        lemma_lookup_push(s, c, q);
    }
}

/// After discarding `p` no change for `p` is buffered.
pub proof fn law_remove_clears_path(s: Seq<PendingChange>, p: Seq<char>)
    ensures
        lookup(without_path(s, p), p) is None,
{
    lemma_without_members(s, p);
}

/// Discarding `p` leaves the buffered changes of every other path as they
/// were.
pub proof fn law_remove_keeps_other_paths(s: Seq<PendingChange>, p: Seq<char>, q: Seq<char>)
    requires
        q != p,
    ensures
        lookup(without_path(s, p), q) == lookup(s, q),
    decreases s.len(),
{
    if s.len() > 0 {
        let d = s.drop_last();
        let x = s.last();
        assert(d.push(x) =~= s);
        law_remove_keeps_other_paths(d, p, q);
        lemma_lookup_push(d, x, q);
        if x.option_path@ != p {
            lemma_lookup_push(without_path(d, p), x, q);
        }
    }
}

/// Discarding a path with no buffered change leaves the buffer as it was.
pub proof fn law_remove_absent_is_noop(s: Seq<PendingChange>, p: Seq<char>)
    requires
        !has_path(s, p),
    ensures
        without_path(s, p) == s,
    decreases s.len(),
{
    if s.len() > 0 {
        let d = s.drop_last();
        assert(!has_path(d, p)) by {
            if has_path(d, p) {
                let i = choose|i: int| 0 <= i < d.len() && (#[trigger] d[i]).option_path@ == p;
                assert(s[i] == d[i]);
            }
        }
        law_remove_absent_is_noop(d, p);
        assert(s[s.len() - 1].option_path@ != p);
        assert(d.push(s.last()) =~= s);
    }
}

/// Queuing a change and then discarding its path is the same as only
/// discarding the path.
pub proof fn law_add_then_remove(s: Seq<PendingChange>, c: PendingChange)
    ensures
        without_path(added(s, c), c.option_path@) == without_path(s, c.option_path@),
{
    let p = c.option_path@;
    if has_path(s, p) {
        lemma_first_index(s, p);
        lemma_without_update(s, first_index(s, p), c, p);
    } else {
        assert(s.push(c).drop_last() =~= s);
    }
}

/// Queuing a change grows the buffer by one exactly when its path was not
/// buffered yet.
pub proof fn law_add_count(s: Seq<PendingChange>, c: PendingChange)
    ensures
        added(s, c).len() == if has_path(s, c.option_path@) { s.len() } else { s.len() + 1 },
{
    if has_path(s, c.option_path@) {
        lemma_first_index(s, c.option_path@);
    }
}

/// The buffer.
#[derive(Debug)]
pub struct PendingChanges {
    /// The buffered changes, in the order they were first queued.
    pub changes: Vec<PendingChange>,
}

impl PendingChanges {
    /// An empty buffer.
    pub fn new() -> (r: PendingChanges)
        ensures
            r.changes@ == Seq::<PendingChange>::empty(),
    {
        PendingChanges { changes: Vec::new() }
    }

    /// Queue `change`, replacing the buffered change for the same option
    /// path if there is one, so that each path appears at most once.
    pub fn add(&mut self, change: PendingChange)
        ensures
            final(self).changes@ == added(old(self).changes@, change),
            unique_paths(old(self).changes@) ==> unique_paths(final(self).changes@),
    {
        let ghost s = self.changes@;
        let ghost p = change.option_path@;
        let mut i: usize = 0;
        while i < self.changes.len()
            invariant
                self.changes@ == s,
                s == old(self).changes@,
                p == change.option_path@,
                0 <= i <= s.len(),
                forall|j: int| 0 <= j < i ==> (#[trigger] s[j]).option_path@ != p,
            decreases s.len() - i,
        {
            if self.changes[i].option_path == change.option_path {
                proof {
                    assert(is_first(s, p, i as int));
                    lemma_first_unique(s, p, i as int);
                }
                self.changes.set(i, change);
                proof {
                    let r = self.changes@;
                    assert forall|a: int, b: int|
                        unique_paths(s) && 0 <= a < r.len() && 0 <= b < r.len() && a != b
                        implies (#[trigger] r[a]).option_path@ != (#[trigger] r[b]).option_path@ by {
                        if a != i && b != i {
                            assert(r[a] == s[a] && r[b] == s[b]);
                        } else if a == i {
                            assert(r[b] == s[b]);
                            assert(s[i as int].option_path@ == p);
                        } else {
                            assert(r[a] == s[a]);
                            assert(s[i as int].option_path@ == p);
                        }
                    }
                }
                return;
            }
            i += 1;
        }
        proof {
            assert(!has_path(s, p));
        }
        self.changes.push(change);
        proof {
            let r = self.changes@;
            assert forall|a: int, b: int|
                unique_paths(s) && 0 <= a < r.len() && 0 <= b < r.len() && a != b
                implies (#[trigger] r[a]).option_path@ != (#[trigger] r[b]).option_path@ by {
                if a < s.len() && b < s.len() {
                    assert(r[a] == s[a] && r[b] == s[b]);
                } else if a < s.len() {
                    assert(r[a] == s[a]);
                } else {
                    assert(r[b] == s[b]);
                }
            }
        }
    }

    /// Discard the changes for `option_path`, keeping the others in order.
    pub fn remove(&mut self, option_path: &str)
        ensures
            final(self).changes@ == without_path(old(self).changes@, option_path@),
            unique_paths(old(self).changes@) ==> unique_paths(final(self).changes@),
    {
        let ghost s = self.changes@;
        let target = option_path.to_owned();
        let ghost mut k: int = 0;
        let mut i: usize = 0;
        while i < self.changes.len()
            invariant
                0 <= k <= s.len(),
                target@ == option_path@,
                i == without_path(s.take(k), option_path@).len(),
                self.changes@ == without_path(s.take(k), option_path@) + s.skip(k),
            decreases s.len() - k,
        {
            let ghost w = without_path(s.take(k), option_path@);
            assert(self.changes@[i as int] == s[k]);
            assert(s.take(k + 1).drop_last() == s.take(k));
            assert(s.take(k + 1).last() == s[k]);
            if self.changes[i].option_path == target {
                self.changes.remove(i);
                assert(self.changes@ =~= w + s.skip(k + 1));
            } else {
                i += 1;
                assert(self.changes@ =~= w.push(s[k]) + s.skip(k + 1));
            }
            proof { k = k + 1; }
        }
        assert(k == s.len()) by {
            if k < s.len() {
                assert((without_path(s.take(k), option_path@) + s.skip(k)).len() > i);
            }
        }
        assert(s.take(k) == s);
        assert(self.changes@ =~= without_path(s, option_path@));
        proof {
            if unique_paths(s) {
                lemma_without_unique(s, option_path@);
            }
        }
    }

    /// All buffered changes, in order.
    pub fn list(&self) -> (r: &[PendingChange])
        ensures
            r@ == self.changes@,
    {
        self.changes.as_slice()
    }

    /// The number of buffered changes.
    pub fn count(&self) -> (r: usize)
        ensures
            r == self.changes@.len(),
    {
        self.changes.len()
    }

    /// Discard every buffered change.
    pub fn clear(&mut self)
        ensures
            final(self).changes@ == Seq::<PendingChange>::empty(),
    {
        self.changes.clear();
    }
}


// ---------------------------------------------------------------------------
// Grouping by file
// ---------------------------------------------------------------------------

/// The changes a sequence of references points to.
pub open spec fn derefs(s: Seq<&PendingChange>) -> Seq<PendingChange> {
    s.map_values(|c: &PendingChange| *c)
}

/// The files the changes target, each once, in order of first appearance.
pub open spec fn files_of(s: Seq<PendingChange>) -> Seq<Seq<char>>
    decreases s.len(),
{
    if s.len() == 0 {
        Seq::<Seq<char>>::empty()
    } else {
        let f = files_of(s.drop_last());
        if f.contains(s.last().file@) {
            f
        } else {
            f.push(s.last().file@)
        }
    }
}

/// The changes that target `file`, in order.
pub open spec fn for_file(s: Seq<PendingChange>, file: Seq<char>) -> Seq<PendingChange>
    decreases s.len(),
{
    if s.len() == 0 {
        s
    } else {
        let r = for_file(s.drop_last(), file);
        if s.last().file@ == file {
            r.push(s.last())
        } else {
            r
        }
    }
}

/// Group `changes` by target file: one entry per file, in order of first
/// appearance, holding the changes for that file in order.
pub fn group_by_file<'a>(changes: &'a [PendingChange]) -> (r: Vec<(String, Vec<&'a PendingChange>)>)
    ensures
        r@.len() == files_of(changes@).len(),
        forall|k: int| 0 <= k < r@.len() ==> {
            &&& (#[trigger] r@[k]).0@ == files_of(changes@)[k]
            &&& derefs(r@[k].1@) == for_file(changes@, files_of(changes@)[k])
        },
{
    let mut files: Vec<String> = Vec::new();
    let mut i: usize = 0;
    while i < changes.len()
        invariant
            0 <= i <= changes@.len(),
            files@.map_values(|f: String| f@) == files_of(changes@.take(i as int)),
        decreases changes@.len() - i,
    {
        let ghost before = files@.map_values(|f: String| f@);
        assert(changes@.take(i + 1).drop_last() =~= changes@.take(i as int));
        assert(changes@.take(i + 1).last() == changes@[i as int]);
        let mut seen = false;
        let mut j: usize = 0;
        while j < files.len()
            invariant
                0 <= j <= files@.len(),
                i < changes@.len(),
                before == files@.map_values(|f: String| f@),
                seen == exists|m: int| 0 <= m < j && before[m] == changes@[i as int].file@,
            decreases files@.len() - j,
        {
            assert(before[j as int] == files@[j as int]@);
            if files[j] == changes[i].file {
                seen = true;
            }
            j += 1;
        }
        if !seen {
            files.push(changes[i].file.clone());
            assert(files@.map_values(|f: String| f@) =~= before.push(changes@[i as int].file@));
        } else {
            proof {
                let m = choose|m: int| 0 <= m < j && before[m] == changes@[i as int].file@;
                assert(before.contains(changes@[i as int].file@));
            }
        }
        i += 1;
    }
    assert(changes@.take(changes@.len() as int) =~= changes@);
    let ghost fv = files_of(changes@);
    let mut out: Vec<(String, Vec<&'a PendingChange>)> = Vec::new();
    let mut k: usize = 0;
    while k < files.len()
        invariant
            0 <= k <= files@.len(),
            files@.map_values(|f: String| f@) == fv,
            fv == files_of(changes@),
            out@.len() == k,
            forall|m: int| 0 <= m < k ==> {
                &&& (#[trigger] out@[m]).0@ == fv[m]
                &&& derefs(out@[m].1@) == for_file(changes@, fv[m])
            },
        decreases files@.len() - k,
    {
        assert(files@[k as int]@ == fv[k as int]);
        let mut group: Vec<&'a PendingChange> = Vec::new();
        let mut j: usize = 0;
        while j < changes.len()
            invariant
                0 <= j <= changes@.len(),
                k < files@.len(),
                derefs(group@) == for_file(changes@.take(j as int), files@[k as int]@),
            decreases changes@.len() - j,
        {
            assert(changes@.take(j + 1).drop_last() =~= changes@.take(j as int));
            assert(changes@.take(j + 1).last() == changes@[j as int]);
            let ghost before = derefs(group@);
            if changes[j].file == files[k] {
                group.push(&changes[j]);
                assert(derefs(group@) =~= before.push(changes@[j as int]));
            }
            j += 1;
        }
        assert(changes@.take(changes@.len() as int) =~= changes@);
        out.push((files[k].clone(), group));
        k += 1;
    }
    out
}

// ---------------------------------------------------------------------------
// Applying the changes of one file
// ---------------------------------------------------------------------------

/// The start of a change's range (0 when it has none).
pub open spec fn start_of(c: PendingChange) -> usize {
    match c.range {
        Some(r) => r.start,
        None => 0,
    }
}

/// The changes that replace an existing value (those with a range), in
/// order.
pub open spec fn updates_of(s: Seq<PendingChange>) -> Seq<PendingChange>
    decreases s.len(),
{
    if s.len() == 0 {
        s
    } else {
        let r = updates_of(s.drop_last());
        if s.last().range is Some {
            r.push(s.last())
        } else {
            r
        }
    }
}

/// The changes that insert a new option (those without a range), in order.
pub open spec fn inserts_of(s: Seq<PendingChange>) -> Seq<PendingChange>
    decreases s.len(),
{
    if s.len() == 0 {
        s
    } else {
        let r = inserts_of(s.drop_last());
        if s.last().range is None {
            r.push(s.last())
        } else {
            r
        }
    }
}

/// `x` placed into `s` after every element, counted from the end, up to
/// the last one whose start is at least `x`'s.
pub open spec fn place(s: Seq<PendingChange>, x: PendingChange) -> Seq<PendingChange>
    decreases s.len(),
{
    if s.len() == 0 || start_of(s.last()) >= start_of(x) {
        s.push(x)
    } else {
        place(s.drop_last(), x).push(s.last())
    }
}

/// `s` sorted by range start, highest first, equal starts keeping their
/// order (a stable sort).
pub open spec fn by_start_desc(s: Seq<PendingChange>) -> Seq<PendingChange>
    decreases s.len(),
{
    if s.len() == 0 {
        s
    } else {
        place(by_start_desc(s.drop_last()), s.last())
    }
}

/// The outcome of replacing values one after another.
pub enum Replaced {
    /// The text after every replacement.
    Text(Seq<char>),
    /// A range did not fit the text.
    BadRange,
    /// A replacement gave text rnix rejects, with the syntax error.
    Rejected(Seq<char>),
}

/// Replace the values of `ups` in `src`, in order, each on the text the
/// previous one gave; the first failure stops the run.
pub open spec fn replace_all(src: Seq<char>, ups: Seq<PendingChange>) -> Replaced
    decreases ups.len(),
{
    if ups.len() == 0 {
        Replaced::Text(src)
    } else {
        let c = ups[0];
        let r = c.range.unwrap();
        match replaced(src, r.start, r.end, c.new_value@) {
            None => Replaced::BadRange,
            Some(t) => if parse_error_of(t) is None {
                replace_all(t, ups.skip(1))
            } else {
                Replaced::Rejected(syntax_error_text(t).unwrap())
            },
        }
    }
}

/// `r` is a possible outcome of inserting the options of `ins` into `src`
/// one after another, each into the text the previous one gave, with
/// indentation `indent` (see [`add_option`]).
pub open spec fn inserts_outcome(src: Seq<char>, ins: Seq<PendingChange>, indent: Seq<char>, r: Result<String, WriteError>) -> bool
    decreases ins.len(),
{
    if ins.len() == 0 {
        r matches Ok(s) && s@ == src
    } else {
        let c = ins[0];
        let parts = path_parts(c.option_path@);
        if parts.len() == 0 {
            r matches Err(WriteError::SerializationFailed(m)) && m@ == "empty option path"@
        } else {
            match parse_error_of(src) {
                Some(_) => r matches Err(WriteError::ValidationFailed(m)) && syntax_error_text(src) == Some(m@),
                None => if tree_readable(src) {
                    exists|f: NixFile| f.wf() && f.source@ == src && match #[trigger] inserted_text(f.root, parts, c.new_value@, indent, src) {
                        None => r matches Err(WriteError::InsertionPointNotFound),
                        Some(t) => if parse_error_of(t) is None {
                            inserts_outcome(t, ins.skip(1), indent, r)
                        } else {
                            r matches Err(WriteError::ValidationFailed(m)) && syntax_error_text(t) == Some(m@)
                        },
                    }
                } else {
                    (r matches Err(WriteError::ValidationFailed(m)) && m@ == syntax_error_message(1, 1, unreadable_tree_message()))
                },
            }
        }
    }
}

/// `r` is a possible outcome of applying `changes` to `src`: first the
/// value replacements, by range start from the highest, then, with the
/// indentation detected in the text they gave, the insertions in order.
pub open spec fn applied(src: Seq<char>, changes: Seq<PendingChange>, r: Result<String, ConfigError>) -> bool {
    match replace_all(src, by_start_desc(updates_of(changes))) {
        Replaced::BadRange => r matches Err(ConfigError::WriteError(WriteError::InvalidRange)),
        Replaced::Rejected(m) => r matches Err(ConfigError::WriteError(WriteError::ValidationFailed(x))) && x@ == m,
        Replaced::Text(t) => match r {
            Ok(s) => inserts_outcome(t, inserts_of(changes), indent_unit(t), Ok(s)),
            Err(ConfigError::WriteError(e)) => inserts_outcome(t, inserts_of(changes), indent_unit(t), Err(e)),
            _ => false,
        },
    }
}

/// Every change of [`updates_of`] has a range.
proof fn lemma_updates_have_ranges(s: Seq<PendingChange>)
    ensures
        forall|m: int| 0 <= m < updates_of(s).len() ==> (#[trigger] updates_of(s)[m]).range is Some,
    decreases s.len(),
{
    if s.len() > 0 {
        lemma_updates_have_ranges(s.drop_last());
    }
}

/// Placing keeps a property that every element has.
proof fn lemma_place_keeps(s: Seq<PendingChange>, x: PendingChange, pred: spec_fn(PendingChange) -> bool)
    requires
        forall|m: int| 0 <= m < s.len() ==> pred(#[trigger] s[m]),
        pred(x),
    ensures
        forall|m: int| 0 <= m < place(s, x).len() ==> pred(#[trigger] place(s, x)[m]),
    decreases s.len(),
{
    let r = place(s, x);
    if !(s.len() == 0 || start_of(s.last()) >= start_of(x)) {
        let d = s.drop_last();
        assert forall|m: int| 0 <= m < d.len() implies pred(#[trigger] d[m]) by {
            assert(d[m] == s[m]);
        }
        lemma_place_keeps(d, x, pred);
        let pd = place(d, x);
        assert(r == pd.push(s.last()));
        assert forall|m: int| 0 <= m < r.len() implies pred(#[trigger] r[m]) by {
            if m < pd.len() {
                assert(r[m] == pd[m]);
            } else {
                assert(r[m] == s[s.len() - 1]);
            }
        }
    } else {
        assert(r == s.push(x));
        assert forall|m: int| 0 <= m < r.len() implies pred(#[trigger] r[m]) by {
            if m < s.len() {
                assert(r[m] == s[m]);
            }
        }
    }
}

/// Sorting keeps a property that every element has.
proof fn lemma_sorted_keeps(s: Seq<PendingChange>, pred: spec_fn(PendingChange) -> bool)
    requires
        forall|m: int| 0 <= m < s.len() ==> pred(#[trigger] s[m]),
    ensures
        forall|m: int| 0 <= m < by_start_desc(s).len() ==> pred(#[trigger] by_start_desc(s)[m]),
    decreases s.len(),
{
    if s.len() > 0 {
        let d = s.drop_last();
        assert forall|m: int| 0 <= m < d.len() implies pred(#[trigger] d[m]) by {
            assert(d[m] == s[m]);
        }
        lemma_sorted_keeps(d, pred);
        assert(pred(s[s.len() - 1]));
        lemma_place_keeps(by_start_desc(d), s.last(), pred);
    }
}

/// Range starts never increase along `s`.
pub open spec fn starts_descending(s: Seq<PendingChange>) -> bool {
    forall|i: int, j: int| 0 <= i < j < s.len() ==> start_of(#[trigger] s[i]) >= start_of(#[trigger] s[j])
}

proof fn lemma_place_sorted(s: Seq<PendingChange>, x: PendingChange)
    requires
        starts_descending(s),
    ensures
        starts_descending(place(s, x)),
        place(s, x).to_multiset() == s.to_multiset().insert(x),
    decreases s.len(),
{
    broadcast use vstd::seq_lib::group_to_multiset_ensures;
    if !(s.len() == 0 || start_of(s.last()) >= start_of(x)) {
        let d = s.drop_last();
        let last = s.last();
        assert(starts_descending(d));
        lemma_place_sorted(d, x);
        assert forall|m: int| 0 <= m < d.len() implies start_of(#[trigger] d[m]) >= start_of(last) by {
            assert(d[m] == s[m]);
        }
        lemma_place_keeps(d, x, |c: PendingChange| start_of(c) >= start_of(last));
        let r = place(d, x);
        assert(s =~= d.push(last));
        assert forall|i: int, j: int| 0 <= i < j < r.len() + 1 implies start_of(#[trigger] r.push(last)[i])
            >= start_of(#[trigger] r.push(last)[j]) by {
            if j == r.len() {
                assert(r.push(last)[i] == r[i]);
            } else {
                assert(r.push(last)[i] == r[i] && r.push(last)[j] == r[j]);
            }
        }
    }
}

/// The order in which [`apply_changes_to_source`] makes its replacements:
/// by range start from the highest to the lowest, and holding the same
/// changes as the input.
pub proof fn law_updates_descending(s: Seq<PendingChange>)
    ensures
        starts_descending(by_start_desc(s)),
        by_start_desc(s).to_multiset() == s.to_multiset(),
    decreases s.len(),
{
    broadcast use vstd::seq_lib::group_to_multiset_ensures;
    if s.len() > 0 {
        law_updates_descending(s.drop_last());
        lemma_place_sorted(by_start_desc(s.drop_last()), s.last());
        assert(s =~= s.drop_last().push(s.last()));
    }
}

/// Applying no change leaves the source as it was.
pub proof fn law_no_changes_no_edit(src: Seq<char>, r: Result<String, ConfigError>)
    requires
        applied(src, Seq::<PendingChange>::empty(), r),
    ensures
        r matches Ok(s) && s@ == src,
{
    assert(updates_of(Seq::<PendingChange>::empty()) =~= Seq::<PendingChange>::empty());
    assert(inserts_of(Seq::<PendingChange>::empty()) =~= Seq::<PendingChange>::empty());
    assert(by_start_desc(Seq::<PendingChange>::empty()) =~= Seq::<PendingChange>::empty());
}

/// `x` placed into `s` at position `j`, found by scanning from the end.
fn place_exec<'a>(s: &mut Vec<&'a PendingChange>, x: &'a PendingChange)
    ensures
        derefs(final(s)@) == place(derefs(old(s)@), *x),
{
    let ghost d = derefs(s@);
    let mut j: usize = s.len();
    assert(d.take(j as int) =~= d);
    assert(d.skip(j as int) =~= Seq::<PendingChange>::empty());
    while j > 0 && start_key(s[j - 1]) < start_key(x)
        invariant
            0 <= j <= s@.len(),
            d == derefs(s@),
            place(d, *x) == place(d.take(j as int), *x) + d.skip(j as int),
        decreases j,
    {
        assert(d.take(j as int).drop_last() =~= d.take(j - 1));
        assert(d.take(j as int).last() == d[j - 1]);
        assert(d.take(j - 1) + d.skip(j - 1) =~= d);
        assert(seq![d[j - 1]] + d.skip(j as int) =~= d.skip(j - 1));
        assert(place(d.take(j - 1), *x).push(d[j - 1]) + d.skip(j as int) =~= place(d.take(j - 1), *x) + d.skip(j - 1));
        j -= 1;
    }
    s.insert(j, x);
    assert(derefs(s@) =~= d.take(j as int).push(*x) + d.skip(j as int));
}

/// The start of a change's range (0 when it has none).
fn start_key(c: &PendingChange) -> (r: usize)
    ensures
        r == start_of(*c),
{
    match c.range {
        Some(r) => r.start,
        None => 0,
    }
}

/// Apply the changes for one file to its `source`.
///
/// The value replacements (changes with a range) go first, from the
/// highest range start to the lowest, so that each range is still valid
/// when its turn comes; changes with equal starts keep their order. Then
/// the new options (changes without a range) are inserted in order, with
/// the indentation detected in the text the replacements gave.
pub fn apply_changes_to_source(source: &str, changes: &[&PendingChange]) -> (r: Result<String, ConfigError>)
    ensures
        applied(source@, derefs(changes@), r),
{
    let ghost cs = derefs(changes@);
    // Split and order the replacements.
    let mut updates: Vec<&PendingChange> = Vec::new();
    let mut inserts: Vec<&PendingChange> = Vec::new();
    let mut i: usize = 0;
    while i < changes.len()
        invariant
            0 <= i <= changes@.len(),
            cs == derefs(changes@),
            derefs(updates@) == by_start_desc(updates_of(cs.take(i as int))),
            derefs(inserts@) == inserts_of(cs.take(i as int)),
        decreases changes@.len() - i,
    {
        assert(cs.take(i + 1).drop_last() =~= cs.take(i as int));
        assert(cs.take(i + 1).last() == cs[i as int]);
        let c = changes[i];
        if c.range.is_some() {
            let ghost u = updates_of(cs.take(i as int));
            assert(updates_of(cs.take(i + 1)) == u.push(*c));
            assert(u.push(*c).drop_last() =~= u);
            place_exec(&mut updates, c);
        } else {
            let ghost before = derefs(inserts@);
            inserts.push(c);
            assert(derefs(inserts@) =~= before.push(*c));
        }
        i += 1;
    }
    assert(cs.take(changes@.len() as int) =~= cs);
    let ghost ups = derefs(updates@);
    proof {
        lemma_updates_have_ranges(cs);
        lemma_sorted_keeps(updates_of(cs), |c: PendingChange| c.range is Some);
    }
    let mut current = String::from_str(source);
    let mut k: usize = 0;
    assert(ups.skip(0) =~= ups);
    while k < updates.len()
        invariant
            0 <= k <= updates@.len(),
            ups == derefs(updates@),
            ups == by_start_desc(updates_of(cs)),
            cs == derefs(changes@),
            forall|m: int| 0 <= m < ups.len() ==> (#[trigger] ups[m]).range is Some,
            replace_all(source@, ups) == replace_all(current@, ups.skip(k as int)),
        decreases updates@.len() - k,
    {
        let c = updates[k];
        assert(ups.skip(k as int)[0] == *c);
        assert(ups.skip(k as int).skip(1) =~= ups.skip(k + 1));
        assert(ups[k as int].range is Some);
        let range = c.range.unwrap();
        let ghost src = current@;
        match set_value(current.as_str(), range, &c.new_value) {
            Ok(s) => { current = s; },
            Err(e) => {
                assert(c.range.unwrap() == range);
                assert(replace_all(src, ups.skip(k as int)) == match replaced(src, range.start, range.end, c.new_value@) {
                    None => Replaced::BadRange,
                    Some(t) => if parse_error_of(t) is None {
                        replace_all(t, ups.skip(k + 1))
                    } else {
                        Replaced::Rejected(syntax_error_text(t).unwrap())
                    },
                });
                return Err(ConfigError::WriteError(e));
            },
        }
        k += 1;
    }
    assert(ups.skip(updates@.len() as int).len() == 0);
    let ghost t0 = current@;
    assert(replace_all(source@, ups) == Replaced::Text(t0));
    let indent = detect_indent(current.as_str());
    let ghost ins = derefs(inserts@);
    let mut k: usize = 0;
    assert(ins.skip(0) =~= ins);
    while k < inserts.len()
        invariant
            0 <= k <= inserts@.len(),
            ins == derefs(inserts@),
            ins == inserts_of(cs),
            cs == derefs(changes@),
            replace_all(source@, by_start_desc(updates_of(cs))) == Replaced::Text(t0),
            indent@ == indent_unit(t0),
            forall|q: Result<String, WriteError>| #[trigger] inserts_outcome(current@, ins.skip(k as int), indent@, q)
                ==> inserts_outcome(t0, ins, indent@, q),
        decreases inserts@.len() - k,
    {
        let c = inserts[k];
        let ghost src = current@;
        assert(ins.skip(k as int)[0] == *c);
        assert(ins.skip(k as int).skip(1) =~= ins.skip(k + 1));
        let res = add_option(current.as_str(), c.option_path.as_str(), &c.new_value, indent.as_str());
        let ghost gres = res;
        match res {
            Ok(s) => {
                proof {
                    let f = choose|f: NixFile| f.wf() && f.source@ == src && #[trigger] crate::nix::insert::insertion_outcome(
                        gres,
                        inserted_text(f.root, path_parts(c.option_path@), c.new_value@, indent@, src),
                    );
                    assert forall|q: Result<String, WriteError>| #[trigger] inserts_outcome(s@, ins.skip(k + 1), indent@, q)
                        implies inserts_outcome(t0, ins, indent@, q) by {
                        assert(inserted_text(f.root, path_parts(c.option_path@), c.new_value@, indent@, src) == Some(s@));
                        assert(inserts_outcome(src, ins.skip(k as int), indent@, q));
                    }
                }
                current = s;
            },
            Err(e) => {
                proof {
                    if path_parts(c.option_path@).len() > 0 && parse_error_of(src) is None && tree_readable(src) {
                        let f = choose|f: NixFile| f.wf() && f.source@ == src && #[trigger] crate::nix::insert::insertion_outcome(
                            res,
                            inserted_text(f.root, path_parts(c.option_path@), c.new_value@, indent@, src),
                        );
                        match inserted_text(f.root, path_parts(c.option_path@), c.new_value@, indent@, src) {
                            Some(t) => { assert(parse_error_of(t) is Some); },
                            None => {},
                        }
                    }
                    assert(inserts_outcome(src, ins.skip(k as int), indent@, Err(e)));
                }
                return Err(ConfigError::WriteError(e));
            },
        }
        k += 1;
    }
    proof {
        assert(inserts_outcome(current@, ins.skip(k as int), indent@, Ok(current)));
    }
    Ok(current)
}

} // verus!

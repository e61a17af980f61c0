//! The import graph of a configuration: the local paths a file's `imports`
//! list names, and the depth-first walk that builds the graph from the
//! entry file, detecting import cycles. Reading files and resolving paths
//! on disk is the caller's part; the walk works on what was read.
use vstd::prelude::*;
use vstd::string::*;
use crate::text::{chars_of, copy_strings, string_from, string_views, trim, trim_chars};
use crate::nix::format::{vals, NixVal, NixValue};
use crate::nix::reader::NixFile;
use crate::nix::resolver::{ModuleGraph, ResolveError};
use crate::nix::traversal::{find_option, node_value, option_node};

verus! {

// ---------------------------------------------------------------------------
// The imports of one file
// ---------------------------------------------------------------------------

/// The local paths among the items of an `imports` list: each path
/// literal, trimmed, except search paths such as `<nixpkgs/...>`.
pub open spec fn local_paths(items: Seq<NixVal>) -> Seq<Seq<char>>
    decreases items.len(),
{
    if items.len() == 0 {
        Seq::<Seq<char>>::empty()
    } else {
        let r = local_paths(items.drop_last());
        match items.last() {
            NixVal::Path(p) => {
                let t = trim(p);
                if t.len() > 0 && t[0] == '<' {
                    r
                } else {
                    r.push(t)
                }
            },
            _ => r,
        }
    }
}

/// The local paths an `imports` value names: none unless it is a list.
pub open spec fn import_paths_of(v: NixVal) -> Seq<Seq<char>> {
    match v {
        NixVal::List(items) => local_paths(items),
        _ => Seq::<Seq<char>>::empty(),
    }
}

/// The paths, as written, that a parsed file's `imports` list names:
/// path literals only (other items cannot be resolved statically),
/// trimmed, and without search paths such as `<nixpkgs/...>`. None when
/// the file has no `imports` or it is not a list. Each is relative to the
/// file's directory unless absolute.
pub fn imports_in(file: &NixFile) -> (r: Vec<String>)
    requires
        file.wf(),
    ensures
        string_views(r@) == match option_node(file.root, "imports"@, file.source@) {
            None => Seq::<Seq<char>>::empty(),
            Some(n) => import_paths_of(node_value(n, file.source@)),
        },
{
    let node = match find_option(file, "imports") {
        Some(n) => n,
        None => {
            let r: Vec<String> = Vec::new();
            assert(string_views(r@) =~= Seq::<Seq<char>>::empty());
            return r;
        },
    };
    let value = node.to_nix_value();
    let mut r: Vec<String> = Vec::new();
    match &value {
        NixValue::List(items) => {
            let ghost iv = vals(items@);
            let mut i: usize = 0;
            while i < items.len()
                invariant
                    0 <= i <= items@.len(),
                    iv == vals(items@),
                    string_views(r@) == local_paths(vals(items@.take(i as int))),
                decreases items@.len() - i,
            {
                assert(items@.take(i + 1).drop_last() =~= items@.take(i as int));
                let ghost w = vals(items@.take(i + 1));
                assert(w == vals(items@.take(i as int)).push(items@[i as int]@));
                assert(w.drop_last() =~= vals(items@.take(i as int)));
                assert(w.last() == items@[i as int]@);
                match &items[i] {
                    NixValue::Path(raw) => {
                        let t = trim_chars(&chars_of(raw.as_str()));
                        if !(t.len() > 0 && t[0] == '<') {
                            let ghost prev = string_views(r@);
                            r.push(string_from(&t));
                            assert(string_views(r@) =~= prev.push(t@));
                        }
                    },
                    _ => {},
                }
                i += 1;
            }
            assert(items@.take(items@.len() as int) =~= items@);
        },
        _ => {
            assert(string_views(r@) =~= Seq::<Seq<char>>::empty());
        },
    }
    r
}

// ---------------------------------------------------------------------------
// The walk
// ---------------------------------------------------------------------------

/// What reading a file gave: its imports, resolved and canonical, or the
/// message of the error that parsing it reported.
pub type ImportTable = Vec<(String, Result<Vec<String>, String>)>;

/// The model of one entry of a table.
pub open spec fn entry_model(e: (String, Result<Vec<String>, String>)) -> (Seq<char>, Result<Seq<Seq<char>>, Seq<char>>) {
    (e.0@, match e.1 {
        Ok(v) => Ok(string_views(v@)),
        Err(m) => Err(m@),
    })
}

/// The files a table describes.
pub open spec fn table_files(t: Seq<(Seq<char>, Result<Seq<Seq<char>>, Seq<char>>)>) -> Seq<Seq<char>> {
    t.map_values(|e: (Seq<char>, Result<Seq<Seq<char>>, Seq<char>>)| e.0)
}

/// What the table says of `f` (its first entry for `f`), if anything.
pub open spec fn table_lookup(t: Seq<(Seq<char>, Result<Seq<Seq<char>>, Seq<char>>)>, f: Seq<char>) -> Option<Result<Seq<Seq<char>>, Seq<char>>>
    decreases t.len(),
{
    if t.len() == 0 {
        None
    } else {
        match table_lookup(t.drop_last(), f) {
            Some(r) => Some(r),
            None => if t.last().0 == f {
                Some(t.last().1)
            } else {
                None
            },
        }
    }
}

/// The model of a table.
pub open spec fn table_model(t: Seq<(String, Result<Vec<String>, String>)>) -> Seq<(Seq<char>, Result<Seq<Seq<char>>, Seq<char>>)> {
    t.map_values(|e: (String, Result<Vec<String>, String>)| entry_model(e))
}

/// The model of the modules of a graph: each file and its imports.
pub open spec fn modules_model(m: Seq<(String, Vec<String>)>) -> Seq<(Seq<char>, Seq<Seq<char>>)> {
    m.map_values(|e: (String, Vec<String>)| (e.0@, string_views(e.1@)))
}

/// The files of the modules.
pub open spec fn module_files(m: Seq<(Seq<char>, Seq<Seq<char>>)>) -> Seq<Seq<char>> {
    m.map_values(|e: (Seq<char>, Seq<Seq<char>>)| e.0)
}

/// Each module's imports are what the table says of its file.
pub open spec fn as_in_table(m: Seq<(Seq<char>, Seq<Seq<char>>)>, t: Seq<(Seq<char>, Result<Seq<Seq<char>>, Seq<char>>)>) -> bool {
    forall|i: int| 0 <= i < m.len() ==> table_lookup(t, (#[trigger] m[i]).0) == Some(Ok::<Seq<Seq<char>>, Seq<char>>(m[i].1))
}

/// Every import of the modules from position `k` on is itself a module.
pub open spec fn closed_from(m: Seq<(Seq<char>, Seq<Seq<char>>)>, k: int) -> bool {
    forall|i: int, j: int| k <= i < m.len() && 0 <= j < m[i].1.len() ==> module_files(m).contains(#[trigger] m[i].1[j])
}

/// The graph's modules are well formed with respect to the table: each
/// file once, with its imports as the table gives them.
pub open spec fn modules_ok(m: Seq<(Seq<char>, Seq<Seq<char>>)>, t: Seq<(Seq<char>, Result<Seq<Seq<char>>, Seq<char>>)>) -> bool {
    &&& module_files(m).no_duplicates()
    &&& as_in_table(m, t)
}

/// The table lists `b` among the imports of `a`.
pub open spec fn imports_edge(t: Seq<(Seq<char>, Result<Seq<Seq<char>>, Seq<char>>)>, a: Seq<char>, b: Seq<char>) -> bool {
    match table_lookup(t, a) {
        Some(Ok(imps)) => imps.contains(b),
        _ => false,
    }
}

/// `p` is a chain of imports: each file imports the next.
pub open spec fn import_path(t: Seq<(Seq<char>, Result<Seq<Seq<char>>, Seq<char>>)>, p: Seq<Seq<char>>) -> bool {
    &&& p.len() > 0
    &&& forall|i: int| 0 <= i < p.len() - 1 ==> #[trigger] imports_edge(t, p[i], p[i + 1])
}

/// A chain of imports leads from `a` to `b` (`a` itself included).
pub open spec fn reaches(t: Seq<(Seq<char>, Result<Seq<Seq<char>>, Seq<char>>)>, a: Seq<char>, b: Seq<char>) -> bool {
    exists|p: Seq<Seq<char>>| #[trigger] import_path(t, p) && p[0] == a && p.last() == b
}

/// A chain of one or more imports leads from `f` back to `f`.
pub open spec fn in_cycle(t: Seq<(Seq<char>, Result<Seq<Seq<char>>, Seq<char>>)>, f: Seq<char>) -> bool {
    exists|p: Seq<Seq<char>>| #[trigger] import_path(t, p) && p.len() > 1 && p[0] == f && p.last() == f
}

/// Every module's file is reached from `entry`.
pub open spec fn all_reached(t: Seq<(Seq<char>, Result<Seq<Seq<char>>, Seq<char>>)>, entry: Seq<char>, m: Seq<(Seq<char>, Seq<Seq<char>>)>) -> bool {
    forall|k: int| 0 <= k < m.len() ==> reaches(t, entry, #[trigger] m[k].0)
}

/// The errors the walk from `entry` can report, for a given table: an
/// import cycle through a file reached from the entry, a reached file the
/// table does not describe, or a reached file whose parse error the table
/// holds.
pub open spec fn walk_error(e: ResolveError, t: Seq<(Seq<char>, Result<Seq<Seq<char>>, Seq<char>>)>, entry: Seq<char>) -> bool {
    match e {
        ResolveError::CyclicImport(f) => reaches(t, entry, f@) && in_cycle(t, f@),
        ResolveError::FileNotFound(f) => reaches(t, entry, f@) && table_lookup(t, f@) is None,
        ResolveError::ParseError(f, m) => reaches(t, entry, f@) && table_lookup(t, f@) == Some(Err::<Seq<Seq<char>>, Seq<char>>(m@)),
        _ => false,
    }
}

proof fn lemma_path_push(t: Seq<(Seq<char>, Result<Seq<Seq<char>>, Seq<char>>)>, p: Seq<Seq<char>>, x: Seq<char>)
    requires
        import_path(t, p),
        imports_edge(t, p.last(), x),
    ensures
        import_path(t, p.push(x)),
{
    let q = p.push(x);
    assert forall|i: int| 0 <= i < q.len() - 1 implies #[trigger] imports_edge(t, q[i], q[i + 1]) by {
        if i < p.len() - 1 {
            assert(q[i] == p[i] && q[i + 1] == p[i + 1]);
            assert(imports_edge(t, p[i], p[i + 1]));
        }
    }
}

proof fn lemma_path_skip(t: Seq<(Seq<char>, Result<Seq<Seq<char>>, Seq<char>>)>, p: Seq<Seq<char>>, k: int)
    requires
        import_path(t, p),
        0 <= k < p.len(),
    ensures
        import_path(t, p.skip(k)),
{
    let q = p.skip(k);
    assert forall|i: int| 0 <= i < q.len() - 1 implies #[trigger] imports_edge(t, q[i], q[i + 1]) by {
        assert(q[i] == p[k + i] && q[i + 1] == p[k + i + 1]);
        assert(imports_edge(t, p[k + i], p[k + i + 1]));
    }
}

/// The entry of the table at `i` is what the table says of its file when
/// no earlier entry describes that file.
proof fn lemma_lookup_first(t: Seq<(Seq<char>, Result<Seq<Seq<char>>, Seq<char>>)>, i: int)
    requires
        0 <= i < t.len(),
        forall|j: int| 0 <= j < i ==> (#[trigger] t[j]).0 != t[i].0,
    ensures
        table_lookup(t, t[i].0) == Some(t[i].1),
    decreases t.len(),
{
    let d = t.drop_last();
    if i < t.len() - 1 {
        assert forall|j: int| 0 <= j < i implies (#[trigger] d[j]).0 != d[i].0 by {
            assert(d[j] == t[j] && d[i] == t[i]);
        }
        lemma_lookup_first(d, i);
        assert(d[i] == t[i]);
    } else {
        assert(d =~= t.take(i));
        lemma_lookup_none(d, t[i].0);
    }
}

proof fn lemma_lookup_none(t: Seq<(Seq<char>, Result<Seq<Seq<char>>, Seq<char>>)>, f: Seq<char>)
    requires
        forall|j: int| 0 <= j < t.len() ==> (#[trigger] t[j]).0 != f,
    ensures
        table_lookup(t, f) is None,
    decreases t.len(),
{
    if t.len() > 0 {
        let d = t.drop_last();
        assert forall|j: int| 0 <= j < d.len() implies (#[trigger] d[j]).0 != f by {
            assert(d[j] == t[j]);
        }
        lemma_lookup_none(d, f);
    }
}

/// A stack of distinct files the table describes is shorter than the
/// table.
proof fn lemma_stack_bound(stack: Seq<Seq<char>>, files: Seq<Seq<char>>)
    requires
        stack.no_duplicates(),
        forall|k: int| 0 <= k < stack.len() ==> files.contains(#[trigger] stack[k]),
    ensures
        stack.len() <= files.len(),
{
    stack.unique_seq_to_set();
    files.lemma_cardinality_of_set();
    assert(stack.to_set().subset_of(files.to_set())) by {
        assert forall|x: Seq<char>| stack.to_set().contains(x) implies files.to_set().contains(x) by {
            let k = choose|k: int| 0 <= k < stack.len() && stack[k] == x;
            assert(files.contains(stack[k]));
        }
    }
    vstd::set_lib::lemma_len_subset(stack.to_set(), files.to_set());
}

/// Find the table entry for `file`: its position, or none.
fn find_entry(file: &String, table: &ImportTable) -> (r: Option<usize>)
    ensures
        match r {
            Some(i) => i < table@.len() && table@[i as int].0@ == file@
                && forall|j: int| 0 <= j < i ==> (#[trigger] table@[j]).0@ != file@,
            None => forall|j: int| 0 <= j < table@.len() ==> (#[trigger] table@[j]).0@ != file@,
        },
{
    let mut i: usize = 0;
    while i < table.len()
        invariant
            0 <= i <= table@.len(),
            forall|j: int| 0 <= j < i ==> (#[trigger] table@[j]).0@ != file@,
        decreases table@.len() - i,
    {
        if table[i].0 == *file {
            return Some(i);
        }
        i += 1;
    }
    None
}

/// The imports the table lists for its `k`-th entry (none for a file
/// whose parsing failed).
pub open spec fn imports_at(t: Seq<(Seq<char>, Result<Seq<Seq<char>>, Seq<char>>)>, k: int) -> Seq<Seq<char>> {
    match t[k].1 {
        Ok(imps) => imps,
        Err(_) => Seq::<Seq<char>>::empty(),
    }
}

/// Every import the table lists is itself described by the table.
pub open spec fn table_closed(t: Seq<(Seq<char>, Result<Seq<Seq<char>>, Seq<char>>)>) -> bool {
    forall|k: int, j: int| 0 <= k < t.len() && 0 <= j < imports_at(t, k).len()
        ==> table_lookup(t, #[trigger] imports_at(t, k)[j]) is Some
}

/// The next file to read while the table is filled from `entry`: the entry
/// when the table does not describe it yet, else the first import listed by
/// a described file that the table does not describe; none once the table
/// describes the entry and is closed.
pub fn next_to_read(entry: &str, table: &ImportTable) -> (r: Option<String>)
    ensures
        match r {
            Some(f) => table_lookup(table_model(table@), f@) is None && (f@ == entry@ || exists|k: int, j: int|
                0 <= k < table@.len() && 0 <= j < imports_at(table_model(table@), k).len()
                    && #[trigger] imports_at(table_model(table@), k)[j] == f@),
            None => table_lookup(table_model(table@), entry@) is Some && table_closed(table_model(table@)),
        },
{
    let ghost t = table_model(table@);
    let e = String::from_str(entry);
    match find_entry(&e, table) {
        None => {
            proof {
                assert forall|j: int| 0 <= j < t.len() implies (#[trigger] t[j]).0 != e@ by {
                    assert(t[j] == entry_model(table@[j]));
                }
                lemma_lookup_none(t, e@);
            }
            return Some(e);
        },
        Some(i) => {
            proof {
                assert forall|j: int| 0 <= j < i implies (#[trigger] t[j]).0 != t[i as int].0 by {
                    assert(t[j] == entry_model(table@[j]));
                }
                lemma_lookup_first(t, i as int);
            }
        },
    }
    let mut k: usize = 0;
    while k < table.len()
        invariant
            0 <= k <= table@.len(),
            t == table_model(table@),
            forall|a: int, j: int| 0 <= a < k && 0 <= j < imports_at(t, a).len()
                ==> table_lookup(t, #[trigger] imports_at(t, a)[j]) is Some,
        decreases table@.len() - k,
    {
        match &table[k].1 {
            Ok(imps) => {
                assert(imports_at(t, k as int) == string_views(imps@));
                let mut j: usize = 0;
                while j < imps.len()
                    invariant
                        0 <= j <= imps@.len(),
                        k < table@.len(),
                        t == table_model(table@),
                        imports_at(t, k as int) == string_views(imps@),
                        forall|b: int| 0 <= b < j ==> table_lookup(t, #[trigger] string_views(imps@)[b]) is Some,
                    decreases imps@.len() - j,
                {
                    assert(string_views(imps@)[j as int] == imps@[j as int]@);
                    match find_entry(&imps[j], table) {
                        None => {
                            proof {
                                assert forall|x: int| 0 <= x < t.len() implies (#[trigger] t[x]).0 != imps@[j as int]@ by {
                                    assert(t[x] == entry_model(table@[x]));
                                }
                                lemma_lookup_none(t, imps@[j as int]@);
                                assert(imports_at(t, k as int)[j as int] == imps@[j as int]@);
                            }
                            return Some(imps[j].clone());
                        },
                        Some(x) => {
                            proof {
                                assert forall|y: int| 0 <= y < x implies (#[trigger] t[y]).0 != t[x as int].0 by {
                                    assert(t[y] == entry_model(table@[y]));
                                }
                                lemma_lookup_first(t, x as int);
                                assert(t[x as int].0 == imps@[j as int]@);
                            }
                        },
                    }
                    j += 1;
                }
            },
            Err(_) => {
                assert(imports_at(t, k as int).len() == 0);
            },
        }
        k += 1;
    }
    None
}

/// Whether `file` is among `files`.
fn holds(files: &Vec<String>, file: &String) -> (b: bool)
    ensures
        b == string_views(files@).contains(file@),
{
    let mut i: usize = 0;
    while i < files.len()
        invariant
            0 <= i <= files@.len(),
            forall|j: int| 0 <= j < i ==> (#[trigger] files@[j])@ != file@,
        decreases files@.len() - i,
    {
        if files[i] == *file {
            assert(string_views(files@)[i as int] == file@);
            return true;
        }
        i += 1;
    }
    assert forall|j: int| 0 <= j < string_views(files@).len() implies string_views(files@)[j] != file@ by {
        assert(string_views(files@)[j] == files@[j]@);
    }
    false
}

/// Whether `file` is a module already.
fn has_module(modules: &Vec<(String, Vec<String>)>, file: &String) -> (b: bool)
    ensures
        b == module_files(modules_model(modules@)).contains(file@),
{
    let ghost fs = module_files(modules_model(modules@));
    let mut i: usize = 0;
    while i < modules.len()
        invariant
            0 <= i <= modules@.len(),
            fs == module_files(modules_model(modules@)),
            forall|j: int| 0 <= j < i ==> fs[j] != file@,
        decreases modules@.len() - i,
    {
        assert(fs[i as int] == modules@[i as int].0@);
        if modules[i].0 == *file {
            return true;
        }
        i += 1;
    }
    false
}

/// `d` lists files each of whose imports come earlier in `d`, each once:
/// the order in which a depth-first walk finishes files.
pub open spec fn ranked(t: Seq<(Seq<char>, Result<Seq<Seq<char>>, Seq<char>>)>, d: Seq<Seq<char>>) -> bool {
    &&& d.no_duplicates()
    &&& forall|i: int, x: Seq<char>| 0 <= i < d.len() && #[trigger] imports_edge(t, d[i], x) ==> d.take(i).contains(x)
}

/// Every module is either being walked (on the stack) or finished (in
/// `d`), never both.
pub open spec fn split_ok(mf: Seq<Seq<char>>, stack: Seq<Seq<char>>, d: Seq<Seq<char>>) -> bool {
    &&& forall|f: Seq<char>| #![trigger mf.contains(f)] #![trigger stack.contains(f)] #![trigger d.contains(f)]
        mf.contains(f) <==> (stack.contains(f) || d.contains(f))
    &&& forall|f: Seq<char>| #![trigger stack.contains(f)] #![trigger d.contains(f)] stack.contains(f) ==> !d.contains(f)
}

/// After walking `file`: the finished files `d` extend `d0`, still ranked,
/// with `file` among them.
pub open spec fn walked(t: Seq<(Seq<char>, Result<Seq<Seq<char>>, Seq<char>>)>, mf: Seq<Seq<char>>, stack: Seq<Seq<char>>, d0: Seq<Seq<char>>, d: Seq<Seq<char>>, file: Seq<char>) -> bool {
    &&& d0.is_prefix_of(d)
    &&& ranked(t, d)
    &&& d.contains(file)
    &&& split_ok(mf, stack, d)
}

proof fn lemma_path_prefix(t: Seq<(Seq<char>, Result<Seq<Seq<char>>, Seq<char>>)>, p: Seq<Seq<char>>)
    requires
        import_path(t, p),
        p.len() > 1,
    ensures
        import_path(t, p.drop_last()),
{
    let q = p.drop_last();
    assert forall|i: int| 0 <= i < q.len() - 1 implies #[trigger] imports_edge(t, q[i], q[i + 1]) by {
        assert(q[i] == p[i] && q[i + 1] == p[i + 1]);
        assert(imports_edge(t, p[i], p[i + 1]));
    }
}

/// A chain of imports from a module of a closed graph that agrees with the
/// table stays among the modules.
proof fn lemma_reach_module(t: Seq<(Seq<char>, Result<Seq<Seq<char>>, Seq<char>>)>, m: Seq<(Seq<char>, Seq<Seq<char>>)>, p: Seq<Seq<char>>)
    requires
        import_path(t, p),
        module_files(m).contains(p[0]),
        as_in_table(m, t),
        closed_from(m, 0),
    ensures
        module_files(m).contains(p.last()),
    decreases p.len(),
{
    if p.len() > 1 {
        let q = p.drop_last();
        lemma_path_prefix(t, p);
        assert(q[0] == p[0]);
        lemma_reach_module(t, m, q);
        let u = p[p.len() - 2];
        let v = p.last();
        assert(q.last() == u);
        let i2 = p.len() - 2;
        assert(imports_edge(t, p[i2], p[i2 + 1]));
        assert(p[i2 + 1] == v);
        let i = choose|i: int| 0 <= i < module_files(m).len() && module_files(m)[i] == u;
        assert(m[i].0 == u);
        assert(table_lookup(t, m[i].0) == Some(Ok::<Seq<Seq<char>>, Seq<char>>(m[i].1)));
        let j = choose|j: int| 0 <= j < m[i].1.len() && m[i].1[j] == v;
        assert(module_files(m).contains(m[i].1[j]));
    }
}

/// Along a chain of imports starting at the `i0`-th finished file, every
/// later file is finished earlier.
proof fn lemma_path_descends(t: Seq<(Seq<char>, Result<Seq<Seq<char>>, Seq<char>>)>, d: Seq<Seq<char>>, p: Seq<Seq<char>>, i0: int)
    requires
        ranked(t, d),
        import_path(t, p),
        0 <= i0 < d.len(),
        d[i0] == p[0],
        p.len() > 1,
    ensures
        exists|j: int| 0 <= j < i0 && d[j] == p.last(),
    decreases p.len(),
{
    let n = p.len();
    let i2 = n - 2;
    assert(imports_edge(t, p[i2], p[i2 + 1]));
    assert(p[i2] == p[n - 2] && p[i2 + 1] == p.last());
    if n == 2 {
        assert(imports_edge(t, d[i0], p[1]));
        assert(d.take(i0).contains(p[1]));
        let j = choose|j: int| 0 <= j < d.take(i0).len() && d.take(i0)[j] == p[1];
        assert(d[j] == p[1]);
    } else {
        let q = p.drop_last();
        lemma_path_prefix(t, p);
        lemma_path_descends(t, d, q, i0);
        let j1 = choose|j: int| 0 <= j < i0 && d[j] == q.last();
        assert(imports_edge(t, d[j1], p.last()));
        assert(d.take(j1).contains(p.last()));
        let j = choose|j: int| 0 <= j < d.take(j1).len() && d.take(j1)[j] == p.last();
        assert(d[j] == p.last());
    }
}

/// Visit `file`: a cycle if it is on the stack, nothing if it is a module
/// already, else record it with its imports and visit each of those.
fn visit(
    file: &String,
    table: &ImportTable,
    modules: &mut Vec<(String, Vec<String>)>,
    stack: &mut Vec<String>,
    Ghost(entry): Ghost<Seq<char>>,
    Ghost(done0): Ghost<Seq<Seq<char>>>,
) -> (r: Result<(), ResolveError>)
    requires
        ranked(table_model(table@), done0),
        split_ok(module_files(modules_model(old(modules)@)), string_views(old(stack)@), done0),
        string_views(old(stack)@).no_duplicates(),
        import_path(table_model(table@), string_views(old(stack)@).push(file@)),
        string_views(old(stack)@).push(file@)[0] == entry,
        all_reached(table_model(table@), entry, modules_model(old(modules)@)),
        forall|k: int| 0 <= k < old(stack)@.len() ==> table_files(table_model(table@)).contains(#[trigger] old(stack)@[k]@),
        modules_ok(modules_model(old(modules)@), table_model(table@)),
    ensures
        match r {
            Ok(()) => {
                &&& final(stack)@ == old(stack)@
                &&& modules_model(old(modules)@).is_prefix_of(modules_model(final(modules)@))
                &&& modules_ok(modules_model(final(modules)@), table_model(table@))
                &&& module_files(modules_model(final(modules)@)).contains(file@)
                &&& closed_from(modules_model(final(modules)@), old(modules)@.len() as int)
                &&& !module_files(modules_model(old(modules)@)).contains(file@)
                    ==> modules_model(final(modules)@)[old(modules)@.len() as int].0 == file@
                &&& all_reached(table_model(table@), entry, modules_model(final(modules)@))
                &&& exists|d: Seq<Seq<char>>| #[trigger] walked(
                    table_model(table@),
                    module_files(modules_model(final(modules)@)),
                    string_views(final(stack)@),
                    done0,
                    d,
                    file@,
                )
            },
            Err(e) => walk_error(e, table_model(table@), entry),
        },
        !string_views(old(stack)@).contains(file@) && !module_files(modules_model(old(modules)@)).contains(file@)
            && table_lookup(table_model(table@), file@) is None
            ==> (r matches Err(ResolveError::FileNotFound(f)) && f@ == file@),
    decreases table@.len() - old(stack)@.len(),
{
    let ghost t = table_model(table@);
    let ghost m0 = modules_model(modules@);
    let ghost s0 = stack@;
    let ghost pth = string_views(stack@).push(file@);
    assert(reaches(t, entry, file@)) by {
        assert(import_path(t, pth));
    }
    if holds(stack, file) {
        proof {
            let k = choose|k: int| 0 <= k < string_views(stack@).len() && string_views(stack@)[k] == file@;
            assert(string_views(stack@)[k] == stack@[k]@);
            lemma_path_skip(t, pth, k);
            assert(import_path(t, pth.skip(k)));
            assert(pth.skip(k)[0] == file@);
        }
        return Err(ResolveError::CyclicImport(file.clone()));
    }
    if has_module(modules, file) {
        assert(m0.is_prefix_of(m0));
        proof {
            assert(!string_views(stack@).contains(file@));
            assert(done0.contains(file@));
            assert(done0.is_prefix_of(done0));
            assert(walked(t, module_files(m0), string_views(stack@), done0, done0, file@));
        }
        return Ok(());
    }
    let idx = match find_entry(file, table) {
        Some(i) => i,
        None => {
            proof {
                assert forall|j: int| 0 <= j < t.len() implies (#[trigger] t[j]).0 != file@ by {
                    assert(t[j] == entry_model(table@[j]));
                }
                lemma_lookup_none(t, file@);
            }
            return Err(ResolveError::FileNotFound(file.clone()));
        },
    };
    proof {
        assert forall|j: int| 0 <= j < idx implies (#[trigger] t[j]).0 != t[idx as int].0 by {
            assert(t[j] == entry_model(table@[j]));
        }
        lemma_lookup_first(t, idx as int);
        assert(table_files(t)[idx as int] == file@);
    }
    let imports = match &table[idx].1 {
        Ok(v) => copy_strings(v),
        Err(m) => {
            return Err(ResolveError::ParseError(file.clone(), m.clone()));
        },
    };
    assert(table_lookup(t, file@) == Some(Ok::<Seq<Seq<char>>, Seq<char>>(string_views(imports@))));
    stack.push(file.clone());
    proof {
        assert(string_views(stack@) =~= string_views(s0).push(file@));
        assert forall|k: int| 0 <= k < stack@.len() implies table_files(t).contains(#[trigger] stack@[k]@) by {
            if k < s0.len() {
                assert(stack@[k] == s0[k]);
            }
        }
        lemma_stack_bound(string_views(stack@), table_files(t));
    }
    let k0 = modules.len();
    modules.push((file.clone(), copy_strings(&imports)));
    proof {
        let m1 = modules_model(modules@);
        assert(m1 =~= m0.push((file@, string_views(imports@))));
        assert(module_files(m1) =~= module_files(m0).push(file@));
        assert forall|i: int| 0 <= i < m1.len() implies table_lookup(t, (#[trigger] m1[i]).0) == Some(Ok::<Seq<Seq<char>>, Seq<char>>(m1[i].1)) by {
            if i < m0.len() {
                assert(m1[i] == m0[i]);
            }
        }
        assert(module_files(m1)[k0 as int] == file@);
        assert forall|k: int| 0 <= k < m1.len() implies reaches(t, entry, #[trigger] m1[k].0) by {
            if k < m0.len() {
                assert(m1[k] == m0[k]);
            }
        }
        assert(string_views(stack@) =~= pth);
        assert(!done0.contains(file@));
        assert forall|f: Seq<char>| #![trigger module_files(m1).contains(f)] #![trigger pth.contains(f)] #![trigger done0.contains(f)]
            module_files(m1).contains(f) <==> (pth.contains(f) || done0.contains(f)) by {
            broadcast use vstd::seq_lib::lemma_seq_contains_after_push;
            assert(module_files(m1) == module_files(m0).push(file@));
            assert(pth == string_views(s0).push(file@));
            assert(module_files(m0).contains(f) <==> (string_views(s0).contains(f) || done0.contains(f)));
        }
        assert forall|f: Seq<char>| #![trigger pth.contains(f)] #![trigger done0.contains(f)] pth.contains(f) ==> !done0.contains(f) by {
            if pth.contains(f) && f != file@ {
                let k = choose|k: int| 0 <= k < pth.len() && pth[k] == f;
                assert(string_views(s0)[k] == f);
            }
        }
    }
    let ghost mut done = done0;
    let mut i: usize = 0;
    while i < imports.len()
        invariant
            0 <= i <= imports@.len(),
            t == table_model(table@),
            s0 == old(stack)@,
            m0 == modules_model(old(modules)@),
            table_lookup(t, file@) == Some(Ok::<Seq<Seq<char>>, Seq<char>>(string_views(imports@))),
            stack@ == s0.push(*file),
            string_views(stack@) == pth,
            pth == string_views(s0).push(file@),
            import_path(t, pth),
            pth[0] == entry,
            all_reached(t, entry, modules_model(modules@)),
            string_views(stack@).no_duplicates(),
            forall|k: int| 0 <= k < stack@.len() ==> table_files(t).contains(#[trigger] stack@[k]@),
            stack@.len() <= table@.len(),
            k0 == m0.len(),
            modules@.len() > k0,
            m0.is_prefix_of(modules_model(modules@)),
            modules_model(modules@)[k0 as int] == (file@, string_views(imports@)),
            modules_ok(modules_model(modules@), t),
            closed_from(modules_model(modules@), k0 + 1),
            forall|j: int| 0 <= j < i ==> module_files(modules_model(modules@)).contains(#[trigger] string_views(imports@)[j]),
            table_files(t).len() == table@.len(),
            ranked(t, done),
            done0.is_prefix_of(done),
            split_ok(module_files(modules_model(modules@)), pth, done),
            forall|j: int| 0 <= j < i ==> done.contains(#[trigger] string_views(imports@)[j]),
        decreases imports@.len() - i,
    {
        let ghost before = modules_model(modules@);
        proof {
            assert(string_views(imports@)[i as int] == imports@[i as int]@);
            assert(imports_edge(t, pth.last(), imports@[i as int]@));
            lemma_path_push(t, pth, imports@[i as int]@);
        }
        match visit(&imports[i], table, modules, stack, Ghost(entry), Ghost(done)) {
            Ok(()) => {},
            Err(e) => {
                return Err(e);
            },
        }
        proof {
            let after = modules_model(modules@);
            let dprev = done;
            let d = choose|d: Seq<Seq<char>>| #[trigger] walked(t, module_files(after), pth, dprev, d, imports@[i as int]@);
            assert forall|j: int| 0 <= j < i + 1 implies d.contains(#[trigger] string_views(imports@)[j]) by {
                if j < i {
                    assert(dprev.contains(string_views(imports@)[j]));
                    let x = choose|x: int| 0 <= x < dprev.len() && dprev[x] == string_views(imports@)[j];
                    assert(d[x] == dprev[x]);
                } else {
                    assert(string_views(imports@)[j] == imports@[j]@);
                }
            }
            assert(done0.is_prefix_of(d)) by {
                assert forall|a: int| 0 <= a < done0.len() implies done0[a] == d[a] by {
                    assert(dprev[a] == d[a]);
                }
            }
            done = d;
            assert forall|x: Seq<char>| module_files(before).contains(x) implies module_files(after).contains(x) by {
                let k = choose|k: int| 0 <= k < module_files(before).len() && module_files(before)[k] == x;
                assert(after[k] == before[k]);
                assert(module_files(after)[k] == x);
            }
            assert forall|a: int, b: int| k0 + 1 <= a < after.len() && 0 <= b < after[a].1.len()
                implies module_files(after).contains(#[trigger] after[a].1[b]) by {
                if a < before.len() {
                    assert(after[a] == before[a]);
                    assert(module_files(before).contains(before[a].1[b]));
                }
            }
            assert forall|j: int| 0 <= j < i + 1 implies module_files(after).contains(#[trigger] string_views(imports@)[j]) by {
                if j < i {
                    assert(module_files(before).contains(string_views(imports@)[j]));
                } else {
                    assert(string_views(imports@)[j] == imports@[j]@);
                }
            }
            assert(after[k0 as int] == before[k0 as int]);
            assert(m0.is_prefix_of(after)) by {
                assert forall|a: int| 0 <= a < m0.len() implies m0[a] == after[a] by {
                    assert(before[a] == after[a]);
                }
            }
        }
        i += 1;
    }
    stack.pop();
    proof {
        assert(stack@ =~= s0);
        let mf = modules_model(modules@);
        let mfs = module_files(mf);
        let dn = done.push(file@);
        assert(pth.contains(file@)) by { assert(pth[pth.len() - 1] == file@); }
        assert(!done.contains(file@));
        assert(dn.no_duplicates()) by {
            assert forall|a: int, b: int| 0 <= a < dn.len() && 0 <= b < dn.len() && a != b implies dn[a] != dn[b] by {
                if a < done.len() && b < done.len() {
                    assert(dn[a] == done[a] && dn[b] == done[b]);
                } else if a < done.len() {
                    assert(done.contains(dn[a]));
                } else {
                    assert(done.contains(dn[b]));
                }
            }
        }
        assert forall|a: int, x: Seq<char>| 0 <= a < dn.len() && #[trigger] imports_edge(t, dn[a], x) implies dn.take(a).contains(x) by {
            if a < done.len() {
                assert(dn[a] == done[a]);
                assert(imports_edge(t, done[a], x));
                assert(dn.take(a) =~= done.take(a));
            } else {
                assert(dn[a] == file@);
                assert(string_views(imports@).contains(x));
                let j = choose|j: int| 0 <= j < string_views(imports@).len() && string_views(imports@)[j] == x;
                assert(done.contains(string_views(imports@)[j]));
                assert(dn.take(a) =~= done);
            }
        }
        let sv = string_views(stack@);
        assert(sv =~= string_views(s0));
        assert forall|f: Seq<char>| #![trigger mfs.contains(f)] #![trigger sv.contains(f)] #![trigger dn.contains(f)]
            mfs.contains(f) <==> (sv.contains(f) || dn.contains(f)) by {
            if sv.contains(f) {
                let k = choose|k: int| 0 <= k < sv.len() && sv[k] == f;
                assert(pth[k] == f);
            }
            if pth.contains(f) && f != file@ {
                let k = choose|k: int| 0 <= k < pth.len() && pth[k] == f;
                assert(sv[k] == f);
            }
            if done.contains(f) {
                let k = choose|k: int| 0 <= k < done.len() && done[k] == f;
                assert(dn[k] == f);
            }
            if dn.contains(f) && f != file@ {
                let k = choose|k: int| 0 <= k < dn.len() && dn[k] == f;
                assert(done[k] == f);
            }
            if f == file@ {
                assert(dn[dn.len() - 1] == f);
            }
        }
        assert forall|f: Seq<char>| #![trigger sv.contains(f)] #![trigger dn.contains(f)] sv.contains(f) ==> !dn.contains(f) by {
            if sv.contains(f) {
                let k = choose|k: int| 0 <= k < sv.len() && sv[k] == f;
                assert(pth[k] == f);
                if f == file@ {
                    assert(pth[pth.len() - 1] == f);
                    assert(k != pth.len() - 1);
                }
                if dn.contains(f) && f != file@ {
                    let k2 = choose|k2: int| 0 <= k2 < dn.len() && dn[k2] == f;
                    assert(done[k2] == f);
                }
            }
        }
        assert(done0.is_prefix_of(dn)) by {
            assert forall|a: int| 0 <= a < done0.len() implies done0[a] == dn[a] by {
                assert(done[a] == dn[a]);
            }
        }
        assert(dn.contains(file@)) by { assert(dn[dn.len() - 1] == file@); }
        assert(walked(t, mfs, sv, done0, dn, file@));
        assert forall|a: int, b: int| k0 <= a < mf.len() && 0 <= b < mf[a].1.len()
            implies module_files(mf).contains(#[trigger] mf[a].1[b]) by {
            if a == k0 {
                assert(mf[a].1 == string_views(imports@));
            }
        }
        assert(module_files(mf)[k0 as int] == file@);
    }
    Ok(())
}

/// Build the import graph rooted at `entry` from what reading each
/// reachable file gave (`table`: each file with its resolved imports, or
/// its parse error), walking depth first as the imports are listed.
///
/// A file reached again while it is still being walked is an import cycle
/// (`CyclicImport`); a file reached twice otherwise is recorded once; a
/// file the table does not describe is `FileNotFound`; a file whose
/// parsing failed is a `ParseError` with its message; each error names a
/// file reached from the entry, and a cycle is a true one. So the walk
/// succeeds whenever every reached file is described, parsed, and on no
/// cycle. On success the graph holds the entry first, each reachable file
/// once with its imports as the table gives them, every import itself in
/// the graph and every file reached from the entry.
pub fn build_graph(entry: &str, table: &ImportTable) -> (r: Result<ModuleGraph, ResolveError>)
    ensures
        table_lookup(table_model(table@), entry@) is None ==> (r matches Err(ResolveError::FileNotFound(f)) && f@ == entry@),
        match r {
            Ok(g) => {
                &&& g.entry_file@ == entry@
                &&& g.modules@.len() > 0
                &&& g.modules@[0].0@ == entry@
                &&& modules_ok(modules_model(g.modules@), table_model(table@))
                &&& closed_from(modules_model(g.modules@), 0)
                &&& all_reached(table_model(table@), entry@, modules_model(g.modules@))
            },
            Err(e) => walk_error(e, table_model(table@), entry@),
        },
        (r is Ok) <==> (forall|f: Seq<char>| #[trigger] reaches(table_model(table@), entry@, f)
            ==> (table_lookup(table_model(table@), f) matches Some(Ok(_))) && !in_cycle(table_model(table@), f)),
{
    let e = String::from_str(entry);
    let mut modules: Vec<(String, Vec<String>)> = Vec::new();
    let mut stack: Vec<String> = Vec::new();
    proof {
        assert(module_files(modules_model(modules@)) =~= Seq::<Seq<char>>::empty());
        assert(string_views(stack@) =~= Seq::<Seq<char>>::empty());
        assert(string_views(stack@).push(e@) =~= seq![entry@]);
        assert(import_path(table_model(table@), seq![entry@]));
        let e0 = Seq::<Seq<char>>::empty();
        assert(ranked(table_model(table@), e0));
        assert(split_ok(module_files(modules_model(modules@)), string_views(stack@), e0));
    }
    match visit(&e, table, &mut modules, &mut stack, Ghost(entry@), Ghost(Seq::<Seq<char>>::empty())) {
        Ok(()) => {
            proof {
                let t = table_model(table@);
                let m = modules_model(modules@);
                let k = choose|k: int| 0 <= k < module_files(m).len() && module_files(m)[k] == entry@;
                assert(m.len() > 0);
                assert(m[0].0 == modules@[0].0@);
                let sv = string_views(stack@);
                assert(sv =~= Seq::<Seq<char>>::empty());
                let d = choose|d: Seq<Seq<char>>| #[trigger] walked(t, module_files(m), sv, Seq::<Seq<char>>::empty(), d, entry@);
                assert forall|f: Seq<char>| #[trigger] reaches(t, entry@, f)
                    implies (table_lookup(t, f) matches Some(Ok(_))) && !in_cycle(t, f) by {
                    let p = choose|p: Seq<Seq<char>>| #[trigger] import_path(t, p) && p[0] == entry@ && p.last() == f;
                    lemma_reach_module(t, m, p);
                    let i = choose|i: int| 0 <= i < module_files(m).len() && module_files(m)[i] == f;
                    assert(m[i].0 == f);
                    assert(table_lookup(t, m[i].0) == Some(Ok::<Seq<Seq<char>>, Seq<char>>(m[i].1)));
                    assert(!sv.contains(f));
                    assert(d.contains(f));
                    if in_cycle(t, f) {
                        let q = choose|q: Seq<Seq<char>>| #[trigger] import_path(t, q) && q.len() > 1 && q[0] == f && q.last() == f;
                        let i0 = choose|i0: int| 0 <= i0 < d.len() && d[i0] == f;
                        lemma_path_descends(t, d, q, i0);
                        let j = choose|j: int| 0 <= j < i0 && d[j] == q.last();
                        assert(d[j] == d[i0]);
                    }
                }
            }
            Ok(ModuleGraph { entry_file: e, modules })
        },
        Err(err) => {
            proof {
                let t = table_model(table@);
                let ge = err;
                assert(walk_error(ge, t, entry@));
                match ge {
                    ResolveError::CyclicImport(f) => { assert(reaches(t, entry@, f@)); },
                    ResolveError::FileNotFound(f) => { assert(reaches(t, entry@, f@)); },
                    ResolveError::ParseError(f, _) => { assert(reaches(t, entry@, f@)); },
                    _ => {},
                }
            }
            Err(err)
        },
    }
}

} // verus!

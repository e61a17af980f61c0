//! Where an option is defined in a configuration's module graph, and where
//! a new one should go. The files of the graph come in parsed, in the
//! graph's order; reading them is the caller's part.
use vstd::prelude::*;
use vstd::string::*;
use crate::text::{
    chars_eq, chars_of, contains, contains_str, join, join_exec, lowercase, push_all, slice_of,
    split_on, split_on_exec, string_from, string_views, to_lowercase, views,
};
use crate::nix::ast::{lemma_nth_from, nth_child, nth_child_exec, within, Class};
use crate::nix::reader::{lemma_ranges_within, NixFile};
use crate::nix::syntax::{SyntaxNode, NODE_LIST, NODE_WITH};
use crate::nix::traversal::{find_option, option_node, TextRange};

verus! {

/// The import graph of a configuration: every `.nix` file reachable from
/// the entry file through `imports`, each with the files it imports, in the
/// order the files were first reached.
#[derive(Debug, Clone)]
pub struct ModuleGraph {
    /// The entry file, such as `configuration.nix`.
    pub entry_file: String,
    /// Each file and the files it imports directly.
    pub modules: Vec<(String, Vec<String>)>,
}

impl ModuleGraph {
    /// The files of the graph, in order.
    pub open spec fn files(&self) -> Seq<Seq<char>> {
        self.modules@.map_values(|m: (String, Vec<String>)| m.0@)
    }

    /// Every file of the graph (the entry file included), in order.
    pub fn all_files(&self) -> (r: Vec<String>)
        ensures
            string_views(r@) == self.files(),
    {
        let mut r: Vec<String> = Vec::new();
        for i in 0..self.modules.len()
            invariant
                string_views(r@) == self.files().take(i as int),
        {
            let ghost prev = string_views(r@);
            r.push(self.modules[i].0.clone());
            assert(string_views(r@) =~= prev.push(self.files()[i as int]));
            assert(self.files().take(i + 1) =~= self.files().take(i as int).push(self.files()[i as int]));
        }
        assert(self.files().take(self.modules@.len() as int) =~= self.files());
        r
    }
}

/// Where an option was found, or where it should be inserted.
#[derive(Debug, Clone)]
pub struct ResolvedOption {
    /// The file holding the option, or the suggested file.
    pub file: String,
    /// The option is set in `file`.
    pub exists: bool,
    /// The byte range of the value, when the option is set.
    pub range: Option<TextRange>,
}

/// One file where an option is defined.
#[derive(Debug, Clone)]
pub struct ResolvedCandidate {
    /// The file.
    pub file: String,
    /// The byte range of the value in the file.
    pub range: TextRange,
    /// The number of items of the value when it is a list (bare or under
    /// `with`); zero otherwise.
    pub item_count: usize,
}

/// Errors of building the module graph or resolving options.
#[derive(Debug)]
pub enum ResolveError {
    /// An imported file does not exist.
    FileNotFound(String),
    /// A file has a syntax error: the file and the message.
    ParseError(String, String),
    /// The option is set in more than one file.
    Ambiguous(Vec<String>),
    /// An import cycle, detected at this file.
    CyclicImport(String),
    /// An I/O error, by its message.
    IoError(String),
}

/// The files of an ambiguous resolution, joined by `, `.
pub open spec fn joined_paths(ps: Seq<Seq<char>>) -> Seq<char> {
    join(ps, ", "@)
}

/// The display text of a resolve error.
pub open spec fn resolve_error_text(e: ResolveError) -> Seq<char> {
    match e {
        ResolveError::FileNotFound(p) => "file not found: "@ + p@,
        ResolveError::ParseError(p, m) => "parse error in "@ + p@ + ": "@ + m@,
        ResolveError::Ambiguous(ps) => "option is set in multiple files: "@ + joined_paths(string_views(ps@)),
        ResolveError::CyclicImport(p) => "cyclic import detected at: "@ + p@,
        ResolveError::IoError(m) => "I/O error: "@ + m@,
    }
}

impl ResolveError {
    /// The error's display text.
    pub fn message(&self) -> (r: String)
        ensures
            r@ == resolve_error_text(*self),
    {
        let v = match self {
            ResolveError::FileNotFound(p) => {
                let mut v = chars_of("file not found: ");
                push_all(&mut v, &chars_of(p.as_str()));
                v
            },
            ResolveError::ParseError(p, m) => {
                let mut v = chars_of("parse error in ");
                push_all(&mut v, &chars_of(p.as_str()));
                push_all(&mut v, &chars_of(": "));
                push_all(&mut v, &chars_of(m.as_str()));
                v
            },
            ResolveError::Ambiguous(ps) => {
                let mut parts: Vec<Vec<char>> = Vec::new();
                for i in 0..ps.len()
                    invariant
                        views(parts@) == string_views(ps@).take(i as int),
                {
                    let ghost prev = views(parts@);
                    parts.push(chars_of(ps[i].as_str()));
                    assert(views(parts@) =~= prev.push(ps@[i as int]@));
                    assert(string_views(ps@).take(i + 1) =~= string_views(ps@).take(i as int).push(ps@[i as int]@));
                }
                assert(string_views(ps@).take(ps@.len() as int) =~= string_views(ps@));
                let mut v = chars_of("option is set in multiple files: ");
                push_all(&mut v, &join_exec(&parts, &chars_of(", ")));
                v
            },
            ResolveError::CyclicImport(p) => {
                let mut v = chars_of("cyclic import detected at: ");
                push_all(&mut v, &chars_of(p.as_str()));
                v
            },
            ResolveError::IoError(m) => {
                let mut v = chars_of("I/O error: ");
                push_all(&mut v, &chars_of(m.as_str()));
                v
            },
        };
        string_from(&v)
    }
}

/// The number of expression children of `n` from child `i` on.
pub open spec fn expr_count(n: SyntaxNode, i: int) -> nat
    decreases n.children@.len() - i,
{
    if i < 0 || i >= n.children@.len() {
        0
    } else {
        expr_count(n, i + 1) + if crate::nix::ast::is_expr_kind(n.children@[i].kind) { 1nat } else { 0nat }
    }
}

/// The number of items of a value node: of a list, or of the list body of
/// a `with`; zero otherwise.
pub open spec fn list_item_count(n: SyntaxNode) -> nat {
    if n.kind == NODE_LIST {
        expr_count(n, 0)
    } else if n.kind == NODE_WITH {
        match nth_child(n, Class::Expr, 1) {
            Some(j) => if n.children@[j].kind == NODE_LIST {
                expr_count(n.children@[j], 0)
            } else {
                0
            },
            None => 0,
        }
    } else {
        0
    }
}

fn expr_count_exec(n: &SyntaxNode) -> (c: usize)
    ensures
        c == expr_count(*n, 0),
{
    let mut c: usize = 0;
    let mut i: usize = n.children.len();
    while i > 0
        invariant
            i <= n.children@.len(),
            c == expr_count(*n, i as int),
            c <= n.children@.len() - i,
        decreases i,
    {
        assert(n.children@.len() == n.children.len());
        if crate::nix::ast::is_expr(n.children[i - 1].kind) {
            c += 1;
        }
        i -= 1;
    }
    c
}

/// The number of items of a value node.
pub fn count_list_items(n: &SyntaxNode) -> (c: usize)
    ensures
        c == list_item_count(*n),
{
    if n.kind == NODE_LIST {
        expr_count_exec(n)
    } else if n.kind == NODE_WITH {
        match nth_child_exec(n, Class::Expr, 1) {
            Some(j) => if n.children[j].kind == NODE_LIST {
                expr_count_exec(&n.children[j])
            } else {
                0
            },
            None => 0,
        }
    } else {
        0
    }
}

/// A parsed file of the graph: its path and its parse (or the parse
/// error's message).
pub open spec fn parsed_ok(p: (String, Result<NixFile, String>)) -> bool {
    match p.1 {
        Ok(f) => f.wf(),
        Err(_) => true,
    }
}

/// The files among `ps[..k]` where the option is set, each with the range
/// of its value.
pub open spec fn found_in(ps: Seq<(String, Result<NixFile, String>)>, k: int, path: Seq<char>) -> Seq<(Seq<char>, usize, usize)>
    decreases k,
{
    if k <= 0 || k > ps.len() {
        Seq::<(Seq<char>, usize, usize)>::empty()
    } else {
        let r = found_in(ps, k - 1, path);
        match ps[k - 1].1 {
            Ok(f) => match option_node(f.root, path, f.source@) {
                Some(n) => r.push((ps[k - 1].0@, n.start, n.end)),
                None => r,
            },
            Err(_) => r,
        }
    }
}

/// The first file among `ps` whose parse failed, if any.
pub open spec fn first_failure(ps: Seq<(String, Result<NixFile, String>)>) -> Option<int>
    decreases ps.len(),
{
    if ps.len() == 0 {
        None
    } else {
        match first_failure(ps.drop_last()) {
            Some(i) => Some(i),
            None => if ps.last().1 is Err {
                Some(ps.len() - 1)
            } else {
                None
            },
        }
    }
}


/// The parsed files as paths and trees.
pub open spec fn all_parsed_ok(ps: Seq<(String, Result<NixFile, String>)>) -> bool {
    forall|i: int| 0 <= i < ps.len() ==> parsed_ok(#[trigger] ps[i])
}

fn first_failure_exec(ps: &Vec<(String, Result<NixFile, String>)>) -> (r: Option<usize>)
    ensures
        match r {
            Some(i) => first_failure(ps@) == Some(i as int) && i < ps@.len(),
            None => first_failure(ps@) is None,
        },
{
    let mut i: usize = 0;
    while i < ps.len()
        invariant
            i <= ps@.len(),
            first_failure(ps@.take(i as int)) is None,
        decreases ps@.len() - i,
    {
        assert(ps@.take(i + 1).drop_last() =~= ps@.take(i as int));
        if ps[i].1.is_err() {
            proof { lemma_first_failure_prefix(ps@, i + 1); }
            return Some(i);
        }
        i += 1;
    }
    assert(ps@.take(ps@.len() as int) =~= ps@);
    None
}

proof fn lemma_first_failure_err(ps: Seq<(String, Result<NixFile, String>)>)
    ensures
        first_failure(ps) matches Some(i) ==> 0 <= i < ps.len() && ps[i].1 is Err,
    decreases ps.len(),
{
    if ps.len() > 0 {
        lemma_first_failure_err(ps.drop_last());
    }
}

proof fn lemma_first_failure_prefix(ps: Seq<(String, Result<NixFile, String>)>, k: int)
    requires
        0 <= k <= ps.len(),
        first_failure(ps.take(k)) is Some,
    ensures
        first_failure(ps) == first_failure(ps.take(k)),
    decreases ps.len() - k,
{
    if k < ps.len() {
        assert(ps.drop_last().take(k) =~= ps.take(k));
        lemma_first_failure_prefix(ps.drop_last(), k);
    } else {
        assert(ps.take(k) =~= ps);
    }
}

fn found_exec(ps: &Vec<(String, Result<NixFile, String>)>, option_path: &str) -> (r: Vec<(String, usize, usize)>)
    requires
        all_parsed_ok(ps@),
    ensures
        r@.map_values(|x: (String, usize, usize)| (x.0@, x.1, x.2)) == found_in(ps@, ps@.len() as int, option_path@),
{
    let mut r: Vec<(String, usize, usize)> = Vec::new();
    for i in 0..ps.len()
        invariant
            all_parsed_ok(ps@),
            r@.map_values(|x: (String, usize, usize)| (x.0@, x.1, x.2)) == found_in(ps@, i as int, option_path@),
    {
        assert(parsed_ok(ps@[i as int]));
        match &ps[i].1 {
            Ok(f) => match find_option(f, option_path) {
                Some(p) => {
                    let ghost prev = r@.map_values(|x: (String, usize, usize)| (x.0@, x.1, x.2));
                    r.push((ps[i].0.clone(), p.node.start, p.node.end));
                    assert(r@.map_values(|x: (String, usize, usize)| (x.0@, x.1, x.2)) =~= prev.push((ps@[i as int].0@, p.node.start, p.node.end)));
                },
                None => {},
            },
            Err(_) => {},
        }
    }
    r
}

/// The deepest `d` (below `n`, at least 1) for which the option made of
/// the first `d` segments is set in the file, or 0.
pub open spec fn prefix_depth(f: NixFile, parts: Seq<Seq<char>>, d: int) -> int
    decreases d,
{
    if d < 1 {
        0
    } else if option_node(f.root, join(parts.take(d), "."@), f.source@) is Some {
        d
    } else {
        prefix_depth(f, parts, d - 1)
    }
}

/// The file with the deepest matching prefix among `ps[..k]` (the first
/// such file on ties) and that depth; none with depth 0.
pub open spec fn best_prefix(ps: Seq<(String, Result<NixFile, String>)>, k: int, parts: Seq<Seq<char>>) -> (Option<Seq<char>>, int)
    decreases k,
{
    if k <= 0 || k > ps.len() {
        (None, 0)
    } else {
        let (best, depth) = best_prefix(ps, k - 1, parts);
        match ps[k - 1].1 {
            Ok(f) => {
                let d = prefix_depth(f, parts, parts.len() - 1);
                if d > depth {
                    (Some(ps[k - 1].0@), d)
                } else {
                    (best, depth)
                }
            },
            Err(_) => (best, depth),
        }
    }
}

/// The index of the last `.` of `s`, if any.
pub open spec fn last_dot(s: Seq<char>) -> Option<int>
    decreases s.len(),
{
    if s.len() == 0 {
        None
    } else if s.last() == '.' {
        Some(s.len() - 1)
    } else {
        last_dot(s.drop_last())
    }
}

/// The stem of a path's file name: the last segment without its extension
/// (a leading dot is no extension).
pub open spec fn file_stem(path: Seq<char>) -> Seq<char> {
    let name = split_on(path, '/').last();
    match last_dot(name) {
        Some(i) => if i > 0 {
            name.take(i)
        } else {
            name
        },
        None => name,
    }
}

/// The first of `ps[i..]` whose lowercase stem holds `word`.
pub open spec fn by_stem(ps: Seq<(String, Result<NixFile, String>)>, i: int, word: Seq<char>) -> Option<Seq<char>>
    decreases ps.len() - i,
{
    if i < 0 || i >= ps.len() {
        None
    } else if contains(lowercase(file_stem(ps[i].0@)), word) {
        Some(ps[i].0@)
    } else {
        by_stem(ps, i + 1, word)
    }
}

/// The file suggested for a new option: the file with the deepest
/// existing prefix of the option's path; else, for `services.` and
/// `networking.` options, the first file whose name holds that word; else
/// the entry file.
pub open spec fn suggestion(entry: Seq<char>, ps: Seq<(String, Result<NixFile, String>)>, path: Seq<char>) -> Seq<char> {
    let parts = split_on(path, '.');
    match best_prefix(ps, ps.len() as int, parts).0 {
        Some(f) => f,
        None => {
            let lower = lowercase(path);
            let by_name = if "services."@.is_prefix_of(lower) {
                by_stem(ps, 0, "services"@)
            } else if "networking."@.is_prefix_of(lower) {
                by_stem(ps, 0, "networking"@)
            } else {
                None
            };
            match by_name {
                Some(f) => f,
                None => entry,
            }
        },
    }
}

fn copy_parts(parts: &Vec<Vec<char>>, n: usize) -> (r: Vec<Vec<char>>)
    requires
        n <= parts@.len(),
    ensures
        views(r@) == views(parts@).take(n as int),
{
    let mut r: Vec<Vec<char>> = Vec::new();
    for i in 0..n
        invariant
            n <= parts@.len(),
            views(r@) == views(parts@).take(i as int),
    {
        let ghost prev = views(r@);
        let x = slice_of(&parts[i], 0, parts[i].len());
        assert(x@ =~= parts@[i as int]@);
        r.push(x);
        assert(views(r@) =~= prev.push(views(parts@)[i as int]));
        assert(views(parts@).take(i + 1) =~= views(parts@).take(i as int).push(views(parts@)[i as int]));
    }
    r
}

fn prefix_depth_exec(f: &NixFile, parts: &Vec<Vec<char>>) -> (d: usize)
    requires
        f.wf(),
        parts@.len() >= 1,
    ensures
        d == prefix_depth(*f, views(parts@), parts@.len() - 1),
{
    let mut d: usize = parts.len() - 1;
    while d >= 1
        invariant
            d < parts@.len(),
            f.wf(),
            prefix_depth(*f, views(parts@), parts@.len() - 1) == prefix_depth(*f, views(parts@), d as int),
        decreases d,
    {
        let prefix = join_exec(&copy_parts(parts, d), &chars_of("."));
        let ps = string_from(&prefix);
        if find_option(f, ps.as_str()).is_some() {
            return d;
        }
        d -= 1;
    }
    0
}

fn stem_exec(path: &str) -> (r: Vec<char>)
    ensures
        r@ == file_stem(path@),
{
    let p = chars_of(path);
    let segs = split_on_exec(&p, '/');
    proof { crate::text::lemma_split_on_nonempty(p@, '/'); }
    let name = slice_of(&segs[segs.len() - 1], 0, segs[segs.len() - 1].len());
    assert(name@ =~= views(segs@).last());
    let mut i = name.len();
    assert(name@.take(name@.len() as int) =~= name@);
    while i > 0 && name[i - 1] != '.'
        invariant
            i <= name@.len(),
            last_dot(name@) == last_dot(name@.take(i as int)),
        decreases i,
    {
        assert(name@.take(i as int).drop_last() =~= name@.take(i - 1));
        i -= 1;
    }
    if i > 0 {
        assert(name@.take(i as int).last() == '.');
        if i - 1 > 0 {
            let r = slice_of(&name, 0, i - 1);
            assert(r@ =~= name@.take(i - 1));
            return r;
        }
    }
    name
}

fn by_stem_exec(ps: &Vec<(String, Result<NixFile, String>)>, word: &str) -> (r: Option<String>)
    ensures
        match r {
            Some(f) => by_stem(ps@, 0, word@) == Some(f@),
            None => by_stem(ps@, 0, word@) is None,
        },
{
    let w = chars_of(word);
    let mut i: usize = 0;
    while i < ps.len()
        invariant
            i <= ps@.len(),
            w@ == word@,
            by_stem(ps@, 0, word@) == by_stem(ps@, i as int, word@),
        decreases ps@.len() - i,
    {
        let stem = string_from(&stem_exec(ps[i].0.as_str()));
        let lower = to_lowercase(stem.as_str());
        if crate::text::contains_exec(&lower, &w) {
            return Some(ps[i].0.clone());
        }
        i += 1;
    }
    None
}

/// Choose the file to insert the option at `option_path` into, among the
/// graph's files (`parsed`, in the graph's order, each with its parse): the
/// file with the deepest existing prefix of the path (the first one on
/// ties); else, for a `services.` or `networking.` option, the first file
/// whose name holds that word; else the entry file.
pub fn suggest_file(graph: &ModuleGraph, parsed: &Vec<(String, Result<NixFile, String>)>, option_path: &str) -> (r: String)
    requires
        all_parsed_ok(parsed@),
    ensures
        r@ == suggestion(graph.entry_file@, parsed@, option_path@),
{
    let p = chars_of(option_path);
    let parts = split_on_exec(&p, '.');
    proof { crate::text::lemma_split_on_nonempty(p@, '.'); }
    let ghost pv = views(parts@);
    let mut best: Option<String> = None;
    let mut depth: usize = 0;
    for i in 0..parsed.len()
        invariant
            all_parsed_ok(parsed@),
            pv == views(parts@),
            parts@.len() >= 1,
            (match best {
                Some(b) => Some(b@),
                None => None::<Seq<char>>,
            }, depth as int) == best_prefix(parsed@, i as int, pv),
    {
        assert(parsed_ok(parsed@[i as int]));
        match &parsed[i].1 {
            Ok(f) => {
                let d = prefix_depth_exec(f, &parts);
                if d > depth {
                    best = Some(parsed[i].0.clone());
                    depth = d;
                }
            },
            Err(_) => {},
        }
    }
    if let Some(b) = best {
        return b;
    }
    let lower = to_lowercase(option_path);
    let by_name = if crate::text::starts_with_str(&lower, "services.") {
        by_stem_exec(parsed, "services")
    } else if crate::text::starts_with_str(&lower, "networking.") {
        by_stem_exec(parsed, "networking")
    } else {
        None
    };
    match by_name {
        Some(f) => f,
        None => graph.entry_file.clone(),
    }
}

/// Where the option at `option_path` is set among the graph's files
/// (`parsed`, in order): the first file that failed to parse gives
/// `ParseError`; set in one file, that file and the value's range; in none,
/// the suggested file; in several, `Ambiguous` with those files.
pub fn locate(graph: &ModuleGraph, parsed: &Vec<(String, Result<NixFile, String>)>, option_path: &str) -> (r: Result<ResolvedOption, ResolveError>)
    requires
        all_parsed_ok(parsed@),
    ensures
        match first_failure(parsed@) {
            Some(i) => r matches Err(ResolveError::ParseError(f, m)) && f@ == parsed@[i].0@
                && (parsed@[i].1 matches Err(e) && e@ == m@),
            None => {
                let found = found_in(parsed@, parsed@.len() as int, option_path@);
                if found.len() == 0 {
                    r matches Ok(o) && o.file@ == suggestion(graph.entry_file@, parsed@, option_path@) && !o.exists
                        && o.range is None
                } else if found.len() == 1 {
                    r matches Ok(o) && o.file@ == found[0].0 && o.exists && o.range == Some(
                        TextRange { start: found[0].1, end: found[0].2 },
                    )
                } else {
                    r matches Err(ResolveError::Ambiguous(ps)) && string_views(ps@) == found.map_values(
                        |x: (Seq<char>, usize, usize)| x.0,
                    )
                }
            },
        },
{
    if let Some(i) = first_failure_exec(parsed) {
        proof { lemma_first_failure_err(parsed@); }
        let m = match &parsed[i].1 {
            Err(m) => m.clone(),
            Ok(_) => String::new(),
        };
        return Err(ResolveError::ParseError(parsed[i].0.clone(), m));
    }
    let found = found_exec(parsed, option_path);
    let ghost fv = found@.map_values(|x: (String, usize, usize)| (x.0@, x.1, x.2));
    if found.len() == 0 {
        let file = suggest_file(graph, parsed, option_path);
        Ok(ResolvedOption { file, exists: false, range: None })
    } else if found.len() == 1 {
        assert(fv[0] == (found@[0].0@, found@[0].1, found@[0].2));
        Ok(ResolvedOption { file: found[0].0.clone(), exists: true, range: Some(TextRange { start: found[0].1, end: found[0].2 }) })
    } else {
        let mut ps: Vec<String> = Vec::new();
        for k in 0..found.len()
            invariant
                fv == found@.map_values(|x: (String, usize, usize)| (x.0@, x.1, x.2)),
                string_views(ps@) == fv.map_values(|x: (Seq<char>, usize, usize)| x.0).take(k as int),
        {
            let ghost prev = string_views(ps@);
            ps.push(found[k].0.clone());
            assert(string_views(ps@) =~= prev.push(fv[k as int].0));
            assert(fv.map_values(|x: (Seq<char>, usize, usize)| x.0).take(k + 1) =~= fv.map_values(
                |x: (Seq<char>, usize, usize)| x.0,
            ).take(k as int).push(fv[k as int].0));
        }
        assert(fv.map_values(|x: (Seq<char>, usize, usize)| x.0).take(found@.len() as int) =~= fv.map_values(
            |x: (Seq<char>, usize, usize)| x.0,
        ));
        Err(ResolveError::Ambiguous(ps))
    }
}


/// The files among `ps[..k]` where the option is set, each with the range
/// of its value and its item count.
pub open spec fn candidates_in(ps: Seq<(String, Result<NixFile, String>)>, k: int, path: Seq<char>) -> Seq<(Seq<char>, usize, usize, nat)>
    decreases k,
{
    if k <= 0 || k > ps.len() {
        Seq::<(Seq<char>, usize, usize, nat)>::empty()
    } else {
        let r = candidates_in(ps, k - 1, path);
        match ps[k - 1].1 {
            Ok(f) => match option_node(f.root, path, f.source@) {
                Some(n) => r.push((ps[k - 1].0@, n.start, n.end, list_item_count(n))),
                None => r,
            },
            Err(_) => r,
        }
    }
}

/// A candidate as plain values.
pub open spec fn candidate_view(c: ResolvedCandidate) -> (Seq<char>, usize, usize, nat) {
    (c.file@, c.range.start, c.range.end, c.item_count as nat)
}

/// Every file among the graph's files (`parsed`, in order) where the option
/// at `option_path` is set, with its value's range and item count; the
/// first file that failed to parse gives `ParseError`.
pub fn locate_all(parsed: &Vec<(String, Result<NixFile, String>)>, option_path: &str) -> (r: Result<Vec<ResolvedCandidate>, ResolveError>)
    requires
        all_parsed_ok(parsed@),
    ensures
        match first_failure(parsed@) {
            Some(i) => r matches Err(ResolveError::ParseError(f, m)) && f@ == parsed@[i].0@
                && (parsed@[i].1 matches Err(e) && e@ == m@),
            None => r matches Ok(v) && v@.map_values(|c: ResolvedCandidate| candidate_view(c)) == candidates_in(
                parsed@,
                parsed@.len() as int,
                option_path@,
            ),
        },
{
    if let Some(i) = first_failure_exec(parsed) {
        proof { lemma_first_failure_err(parsed@); }
        let m = match &parsed[i].1 {
            Err(m) => m.clone(),
            Ok(_) => String::new(),
        };
        return Err(ResolveError::ParseError(parsed[i].0.clone(), m));
    }
    let mut r: Vec<ResolvedCandidate> = Vec::new();
    for i in 0..parsed.len()
        invariant
            all_parsed_ok(parsed@),
            r@.map_values(|c: ResolvedCandidate| candidate_view(c)) == candidates_in(parsed@, i as int, option_path@),
    {
        assert(parsed_ok(parsed@[i as int]));
        match &parsed[i].1 {
            Ok(f) => match find_option(f, option_path) {
                Some(p) => {
                    let ghost prev = r@.map_values(|c: ResolvedCandidate| candidate_view(c));
                    let count = count_list_items(p.node);
                    r.push(ResolvedCandidate { file: parsed[i].0.clone(), range: TextRange { start: p.node.start, end: p.node.end }, item_count: count });
                    assert(r@.map_values(|c: ResolvedCandidate| candidate_view(c)) =~= prev.push((parsed@[i as int].0@, p.node.start, p.node.end, list_item_count(*p.node))));
                },
                None => {},
            },
            Err(_) => {},
        }
    }
    Ok(r)
}

} // verus!

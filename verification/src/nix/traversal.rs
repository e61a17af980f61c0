//! Finding options in a parsed file and reading their values.
use vstd::prelude::*;
use vstd::string::*;
use crate::text::{
    chars_eq, chars_of, join, join_exec, parse_i64, parse_i64_exec, slice_of, split_on,
    split_on_exec, string_from, views,
};
use crate::nix::ast::{
    attr_names, attr_names_exec, is_expr_kind, lemma_nth_from, nth_child, nth_child_exec,
    node_text, node_text_exec, plain_string, plain_string_exec, within, Class,
};
use crate::nix::format::{NixVal, NixValue};
use crate::nix::reader::{lemma_ranges_within, NixFile};
use crate::nix::syntax::{
    SyntaxNode, NODE_ATTR_SET, NODE_ATTRPATH, NODE_ATTRPATH_VALUE, NODE_IDENT, NODE_LAMBDA,
    NODE_LIST, NODE_LITERAL, NODE_PAREN, NODE_PATH_ABS, NODE_PATH_HOME, NODE_PATH_REL,
    NODE_PATH_SEARCH, NODE_STRING, TOKEN_FLOAT, TOKEN_IDENT, TOKEN_INTEGER, TOKEN_URI,
};

verus! {

// ---------------------------------------------------------------------------
// Paths
// ---------------------------------------------------------------------------

/// The non-empty pieces of `ps`, in order.
pub open spec fn nonempty(ps: Seq<Seq<char>>) -> Seq<Seq<char>>
    decreases ps.len(),
{
    if ps.len() == 0 {
        Seq::<Seq<char>>::empty()
    } else if ps.last().len() == 0 {
        nonempty(ps.drop_last())
    } else {
        nonempty(ps.drop_last()).push(ps.last())
    }
}

/// The segments of a dotted option path, empty ones left out.
pub open spec fn path_parts(path: Seq<char>) -> Seq<Seq<char>> {
    nonempty(split_on(path, '.'))
}

/// The segments of a dotted option path, empty ones left out.
pub fn path_parts_exec(path: &str) -> (r: Vec<Vec<char>>)
    ensures
        views(r@) == path_parts(path@),
{
    let p = chars_of(path);
    let pieces = split_on_exec(&p, '.');
    let ghost pv = views(pieces@);
    let mut out: Vec<Vec<char>> = Vec::new();
    for i in 0..pieces.len()
        invariant
            pv == views(pieces@),
            views(out@) == nonempty(pv.take(i as int)),
    {
        assert(pv.take(i + 1).drop_last() =~= pv.take(i as int));
        if pieces[i].len() > 0 {
            let ghost prev = views(out@);
            let x = slice_of(&pieces[i], 0, pieces[i].len());
            assert(x@ =~= pv[i as int]);
            out.push(x);
            assert(views(out@) =~= prev.push(pv[i as int]));
        }
    }
    assert(pv.take(pieces@.len() as int) =~= pv);
    out
}

// ---------------------------------------------------------------------------
// The root attribute set
// ---------------------------------------------------------------------------

/// The root's expression (`Root::expr`).
pub open spec fn root_expr(root: SyntaxNode) -> Option<SyntaxNode> {
    match nth_child(root, Class::Expr, 0) {
        Some(j) => Some(root.children@[j]),
        None => None,
    }
}

/// The attribute set an expression is, after looking through lambdas
/// (`{ config, ... }: { ... }`) and parentheses.
pub open spec fn peel(e: SyntaxNode) -> Option<SyntaxNode>
    decreases e,
{
    if e.kind == NODE_ATTR_SET {
        Some(e)
    } else if e.kind == NODE_LAMBDA || e.kind == NODE_PAREN {
        match nth_child(e, Class::Expr, 0) {
            Some(j) => {
                proof {
                    lemma_nth_from(e.children@, Class::Expr, 0, 0);
                }
                peel(e.children@[j])
            },
            None => None,
        }
    } else {
        None
    }
}

/// The root attribute set of a file's tree.
pub open spec fn root_attrset(root: SyntaxNode) -> Option<SyntaxNode> {
    match root_expr(root) {
        Some(e) => peel(e),
        None => None,
    }
}

/// Where `peel` leads, as a reference into the tree.
pub fn peel_exec<'a>(e: &'a SyntaxNode) -> (r: Option<&'a SyntaxNode>)
    ensures
        match r {
            Some(s) => peel(*e) == Some(*s),
            None => peel(*e) is None,
        },
    decreases e,
{
    if e.kind == NODE_ATTR_SET {
        Some(e)
    } else if e.kind == NODE_LAMBDA || e.kind == NODE_PAREN {
        match nth_child_exec(e, Class::Expr, 0) {
            Some(j) => {
                proof {
                    assert(decreases_to!(*e => e.children@[j as int]));
                }
                peel_exec(&e.children[j])
            },
            None => None,
        }
    } else {
        None
    }
}

/// The root attribute set of a file's tree.
pub fn root_attrset_exec<'a>(root: &'a SyntaxNode) -> (r: Option<&'a SyntaxNode>)
    ensures
        match r {
            Some(s) => root_attrset(*root) == Some(*s),
            None => root_attrset(*root) is None,
        },
{
    match nth_child_exec(root, Class::Expr, 0) {
        Some(j) => peel_exec(&root.children[j]),
        None => None,
    }
}

// ---------------------------------------------------------------------------
// Finding an option's value
// ---------------------------------------------------------------------------

/// The attribute path and value of an `AttrpathValue` node, as indices of
/// its children.
pub open spec fn entry_parts(e: SyntaxNode) -> Option<(int, int)> {
    match (nth_child(e, Class::Kind(NODE_ATTRPATH), 0), nth_child(e, Class::Expr, 0)) {
        (Some(a), Some(v)) => Some((a, v)),
        _ => None,
    }
}

/// The value node at `rem` within the attribute set `set` (`find_option`'s
/// search): entries are tried in order; an entry whose key equals `rem`
/// gives its value; an entry whose key is a proper prefix of `rem` and whose
/// value is an attribute set gives the search in that set; entries without
/// a readable key or value are passed over.
pub open spec fn find_in(set: SyntaxNode, rem: Seq<Seq<char>>, src: Seq<char>) -> Option<SyntaxNode>
    decreases set, set.children@.len() + 1,
{
    find_from(set, 0, rem, src)
}

/// [`find_in`] over the entries from child `i` on.
pub open spec fn find_from(set: SyntaxNode, i: int, rem: Seq<Seq<char>>, src: Seq<char>) -> Option<SyntaxNode>
    decreases set, set.children@.len() - i,
{
    if i < 0 || i >= set.children@.len() {
        None
    } else {
        let e = set.children@[i];
        if e.kind != NODE_ATTRPATH_VALUE {
            find_from(set, i + 1, rem, src)
        } else {
            match entry_parts(e) {
                Some((a, b)) => {
                    proof {
                        lemma_nth_from(e.children@, Class::Kind(NODE_ATTRPATH), 0, 0);
                        lemma_nth_from(e.children@, Class::Expr, 0, 0);
                        assert(decreases_to!(set => e));
                        assert(decreases_to!(e => e.children@[b]));
                    }
                    let keys = attr_names(e.children@[a], src);
                    let v = e.children@[b];
                    if keys.len() == 0 {
                        find_from(set, i + 1, rem, src)
                    } else if keys == rem {
                        Some(v)
                    } else if rem.len() > keys.len() && keys.is_prefix_of(rem) && v.kind == NODE_ATTR_SET {
                        find_in(v, rem.skip(keys.len() as int), src)
                    } else {
                        find_from(set, i + 1, rem, src)
                    }
                },
                None => find_from(set, i + 1, rem, src),
            }
        }
    }
}

/// The value node of the option at `path` in a file's tree: its root
/// attribute set searched with the path's non-empty segments.
pub open spec fn option_node(root: SyntaxNode, path: Seq<char>, src: Seq<char>) -> Option<SyntaxNode> {
    let parts = path_parts(path);
    if parts.len() == 0 {
        None
    } else {
        match root_attrset(root) {
            Some(set) => find_in(set, parts, src),
            None => None,
        }
    }
}

fn seqs_eq(a: &Vec<Vec<char>>, b: &[Vec<char>]) -> (r: bool)
    ensures
        r == (views(a@) == b@.map_values(|x: Vec<char>| x@)),
{
    if a.len() != b.len() {
        assert(views(a@).len() != b@.map_values(|x: Vec<char>| x@).len());
        return false;
    }
    for i in 0..a.len()
        invariant
            a@.len() == b@.len(),
            forall|j: int| 0 <= j < i ==> a@[j]@ == b@[j]@,
    {
        if !chars_eq(&a[i], &b[i]) {
            assert(views(a@)[i as int] != b@.map_values(|x: Vec<char>| x@)[i as int]);
            return false;
        }
    }
    assert(views(a@) =~= b@.map_values(|x: Vec<char>| x@));
    true
}

fn is_proper_prefix(a: &Vec<Vec<char>>, b: &[Vec<char>]) -> (r: bool)
    ensures
        r == (b@.len() > a@.len() && views(a@).is_prefix_of(b@.map_values(|x: Vec<char>| x@))),
{
    if b.len() <= a.len() {
        return false;
    }
    for i in 0..a.len()
        invariant
            a@.len() < b@.len(),
            forall|j: int| 0 <= j < i ==> a@[j]@ == b@[j]@,
    {
        if !chars_eq(&a[i], &b[i]) {
            assert(views(a@)[i as int] != b@.map_values(|x: Vec<char>| x@)[i as int]);
            return false;
        }
    }
    true
}

/// [`find_in`], as a reference into the tree.
pub fn find_in_exec<'a>(set: &'a SyntaxNode, rem: &[Vec<char>], src: &Vec<char>) -> (r: Option<&'a SyntaxNode>)
    requires
        within(*set, src@),
    ensures
        match r {
            Some(n) => find_in(*set, rem@.map_values(|x: Vec<char>| x@), src@) == Some(*n) && within(*n, src@),
            None => find_in(*set, rem@.map_values(|x: Vec<char>| x@), src@) is None,
        },
    decreases set, set.children@.len() + 1,
{
    let ghost rv = rem@.map_values(|x: Vec<char>| x@);
    let mut i: usize = 0;
    while i < set.children.len()
        invariant
            0 <= i <= set.children@.len(),
            within(*set, src@),
            rv == rem@.map_values(|x: Vec<char>| x@),
            find_in(*set, rv, src@) == find_from(*set, i as int, rv, src@),
        decreases set.children@.len() - i,
    {
        let e = &set.children[i];
        assert(within(*e, src@));
        if e.kind == NODE_ATTRPATH_VALUE {
            let a = nth_child_exec(e, Class::Kind(NODE_ATTRPATH), 0);
            let b = nth_child_exec(e, Class::Expr, 0);
            if let (Some(a), Some(b)) = (a, b) {
                assert(within(e.children@[a as int], src@));
                assert(within(e.children@[b as int], src@));
                let keys = attr_names_exec(&e.children[a], src);
                let v = &e.children[b];
                if keys.len() > 0 {
                    if seqs_eq(&keys, rem) {
                        return Some(v);
                    }
                    if is_proper_prefix(&keys, rem) && v.kind == NODE_ATTR_SET {
                        proof {
                            assert(decreases_to!(*set => *e));
                            assert(decreases_to!(*e => *v));
                            assert(rem@.skip(keys@.len() as int).map_values(|x: Vec<char>| x@) =~= rv.skip(keys@.len() as int));
                        }
                        let sub = find_in_exec(v, vstd::slice::slice_subrange(rem, keys.len(), rem.len()), src);
                        return sub;
                    }
                }
            }
        }
        i += 1;
    }
    None
}

// ---------------------------------------------------------------------------
// Values
// ---------------------------------------------------------------------------

/// The value of an identifier: `true`, `false`, `null`, or the name kept
/// as an expression (empty when the node has no identifier token).
pub open spec fn ident_value(e: SyntaxNode, src: Seq<char>) -> NixVal {
    let t = match nth_child(e, Class::Kind(TOKEN_IDENT), 0) {
        Some(j) => node_text(e.children@[j], src),
        None => Seq::<char>::empty(),
    };
    if t == "true"@ {
        NixVal::Bool(true)
    } else if t == "false"@ {
        NixVal::Bool(false)
    } else if t == "null"@ {
        NixVal::Null
    } else {
        NixVal::Expression(t)
    }
}

/// The value of a literal: an integer when its token parses as an `i64`
/// (else the token as an expression), a float as an expression, a URI as a
/// string.
pub open spec fn literal_value(e: SyntaxNode, src: Seq<char>) -> NixVal {
    match nth_child(e, Class::Kind(TOKEN_FLOAT), 0) {
        Some(j) => NixVal::Expression(node_text(e.children@[j], src)),
        None => match nth_child(e, Class::Kind(TOKEN_INTEGER), 0) {
            Some(j) => {
                let t = node_text(e.children@[j], src);
                match parse_i64(t) {
                    Some(n) => NixVal::Int(n as int),
                    None => NixVal::Expression(t),
                }
            },
            None => match nth_child(e, Class::Kind(TOKEN_URI), 0) {
                Some(j) => NixVal::Str(node_text(e.children@[j], src)),
                None => NixVal::Expression(node_text(e, src)),
            },
        },
    }
}

/// The value an expression node stands for (`expr_to_value`): identifiers,
/// literals, strings without interpolation, paths, lists and attribute sets
/// as such; anything else as its source text.
pub open spec fn value_of(e: SyntaxNode, src: Seq<char>) -> NixVal
    decreases e, e.children@.len() + 1,
{
    let k = e.kind;
    if k == NODE_IDENT {
        ident_value(e, src)
    } else if k == NODE_LITERAL {
        literal_value(e, src)
    } else if k == NODE_STRING {
        match plain_string(e, src) {
            Some(t) => NixVal::Str(t),
            None => NixVal::Expression(node_text(e, src)),
        }
    } else if k == NODE_PATH_ABS || k == NODE_PATH_REL || k == NODE_PATH_HOME || k == NODE_PATH_SEARCH {
        NixVal::Path(node_text(e, src))
    } else if k == NODE_LIST {
        NixVal::List(list_items(e, 0, src))
    } else if k == NODE_ATTR_SET {
        NixVal::AttrSet(set_entries(e, 0, src))
    } else {
        NixVal::Expression(node_text(e, src))
    }
}

/// The values of the expression children of `e` from child `i` on.
pub open spec fn list_items(e: SyntaxNode, i: int, src: Seq<char>) -> Seq<NixVal>
    decreases e, e.children@.len() - i,
{
    if i < 0 || i >= e.children@.len() {
        Seq::<NixVal>::empty()
    } else if is_expr_kind(e.children@[i].kind) {
        proof {
            assert(decreases_to!(e => e.children@[i]));
        }
        seq![value_of(e.children@[i], src)] + list_items(e, i + 1, src)
    } else {
        list_items(e, i + 1, src)
    }
}

/// The entries of the attribute set `e` from child `i` on: each
/// `AttrpathValue` with a readable, non-empty key and a value, its key
/// segments joined with dots.
pub open spec fn set_entries(e: SyntaxNode, i: int, src: Seq<char>) -> Seq<(Seq<char>, NixVal)>
    decreases e, e.children@.len() - i,
{
    if i < 0 || i >= e.children@.len() {
        Seq::<(Seq<char>, NixVal)>::empty()
    } else {
        let c = e.children@[i];
        if c.kind == NODE_ATTRPATH_VALUE && entry_parts(c) is Some && attr_names(
            c.children@[entry_parts(c).unwrap().0],
            src,
        ).len() > 0 {
            let (a, b) = entry_parts(c).unwrap();
            proof {
                lemma_nth_from(c.children@, Class::Kind(NODE_ATTRPATH), 0, 0);
                lemma_nth_from(c.children@, Class::Expr, 0, 0);
                assert(decreases_to!(e => c));
                assert(decreases_to!(c => c.children@[b]));
            }
            seq![(join(attr_names(c.children@[a], src), "."@), value_of(c.children@[b], src))]
                + set_entries(e, i + 1, src)
        } else {
            set_entries(e, i + 1, src)
        }
    }
}

fn ident_value_exec(e: &SyntaxNode, src: &Vec<char>) -> (r: NixValue)
    requires
        within(*e, src@),
    ensures
        r@ == ident_value(*e, src@),
{
    let t = match nth_child_exec(e, Class::Kind(TOKEN_IDENT), 0) {
        Some(j) => {
            assert(within(e.children@[j as int], src@));
            node_text_exec(&e.children[j], src)
        },
        None => Vec::new(),
    };
    if chars_eq(&t, &chars_of("true")) {
        NixValue::Bool(true)
    } else if chars_eq(&t, &chars_of("false")) {
        NixValue::Bool(false)
    } else if chars_eq(&t, &chars_of("null")) {
        NixValue::Null
    } else {
        NixValue::Expression(string_from(&t))
    }
}

fn literal_value_exec(e: &SyntaxNode, src: &Vec<char>) -> (r: NixValue)
    requires
        within(*e, src@),
    ensures
        r@ == literal_value(*e, src@),
{
    match nth_child_exec(e, Class::Kind(TOKEN_FLOAT), 0) {
        Some(j) => {
            assert(within(e.children@[j as int], src@));
            NixValue::Expression(string_from(&node_text_exec(&e.children[j], src)))
        },
        None => match nth_child_exec(e, Class::Kind(TOKEN_INTEGER), 0) {
            Some(j) => {
                assert(within(e.children@[j as int], src@));
                let t = node_text_exec(&e.children[j], src);
                match parse_i64_exec(&t) {
                    Some(n) => NixValue::Int(n),
                    None => NixValue::Expression(string_from(&t)),
                }
            },
            None => match nth_child_exec(e, Class::Kind(TOKEN_URI), 0) {
                Some(j) => {
                    assert(within(e.children@[j as int], src@));
                    NixValue::String(string_from(&node_text_exec(&e.children[j], src)))
                },
                None => NixValue::Expression(string_from(&node_text_exec(e, src))),
            },
        },
    }
}

/// The value an expression node of a tree over `src` stands for: a best
/// effort, with anything that is not a plain value kept as its source text.
pub fn expr_to_value(e: &SyntaxNode, src: &Vec<char>) -> (r: NixValue)
    requires
        within(*e, src@),
    ensures
        r@ == value_of(*e, src@),
    decreases e, e.children@.len() + 1,
{
    let k = e.kind;
    if k == NODE_IDENT {
        ident_value_exec(e, src)
    } else if k == NODE_LITERAL {
        literal_value_exec(e, src)
    } else if k == NODE_STRING {
        match plain_string_exec(e, src) {
            Some(t) => NixValue::String(string_from(&t)),
            None => NixValue::Expression(string_from(&node_text_exec(e, src))),
        }
    } else if k == NODE_PATH_ABS || k == NODE_PATH_REL || k == NODE_PATH_HOME || k == NODE_PATH_SEARCH {
        NixValue::Path(string_from(&node_text_exec(e, src)))
    } else if k == NODE_LIST {
        NixValue::List(list_items_exec(e, src))
    } else if k == NODE_ATTR_SET {
        NixValue::AttrSet(set_entries_exec(e, src))
    } else {
        NixValue::Expression(string_from(&node_text_exec(e, src)))
    }
}

fn list_items_exec(e: &SyntaxNode, src: &Vec<char>) -> (r: Vec<NixValue>)
    requires
        within(*e, src@),
    ensures
        crate::nix::format::vals(r@) == list_items(*e, 0, src@),
    decreases e, e.children@.len(),
{
    let mut out: Vec<NixValue> = Vec::new();
    let mut i: usize = 0;
    while i < e.children.len()
        invariant
            i <= e.children@.len(),
            within(*e, src@),
            crate::nix::format::vals(out@) + list_items(*e, i as int, src@) == list_items(*e, 0, src@),
        decreases e.children@.len() - i,
    {
        let c = &e.children[i];
        assert(within(*c, src@));
        if crate::nix::ast::is_expr(c.kind) {
            proof {
                assert(decreases_to!(*e => *c));
            }
            let v = expr_to_value(c, src);
            let ghost prev = out@;
            let ghost rest = list_items(*e, i + 1, src@);
            out.push(v);
            assert(out@.drop_last() == prev);
            assert(crate::nix::format::vals(out@) + rest =~= crate::nix::format::vals(prev) + (seq![v@] + rest));
        }
        i += 1;
    }
    assert(crate::nix::format::vals(out@) + list_items(*e, i as int, src@) =~= crate::nix::format::vals(out@));
    out
}

fn set_entries_exec(e: &SyntaxNode, src: &Vec<char>) -> (r: Vec<(String, NixValue)>)
    requires
        within(*e, src@),
    ensures
        crate::nix::format::entry_vals(r@) == set_entries(*e, 0, src@),
    decreases e, e.children@.len(),
{
    let mut out: Vec<(String, NixValue)> = Vec::new();
    let mut i: usize = 0;
    while i < e.children.len()
        invariant
            i <= e.children@.len(),
            within(*e, src@),
            crate::nix::format::entry_vals(out@) + set_entries(*e, i as int, src@) == set_entries(*e, 0, src@),
        decreases e.children@.len() - i,
    {
        let c = &e.children[i];
        assert(within(*c, src@));
        if c.kind == NODE_ATTRPATH_VALUE {
            let a = nth_child_exec(c, Class::Kind(NODE_ATTRPATH), 0);
            let b = nth_child_exec(c, Class::Expr, 0);
            if let (Some(a), Some(b)) = (a, b) {
                assert(within(c.children@[a as int], src@));
                assert(within(c.children@[b as int], src@));
                let keys = attr_names_exec(&c.children[a], src);
                if keys.len() > 0 {
                    proof {
                        assert(decreases_to!(*e => *c));
                        assert(decreases_to!(*c => c.children@[b as int]));
                    }
                    let v = expr_to_value(&c.children[b], src);
                    let key = join_exec(&keys, &chars_of("."));
                    let ghost prev = out@;
                    let ghost rest = set_entries(*e, i + 1, src@);
                    out.push((string_from(&key), v));
                    assert(out@.drop_last() == prev);
                    assert(crate::nix::format::entry_vals(out@) + rest =~= crate::nix::format::entry_vals(prev)
                        + (seq![(key@, v@)] + rest));
                }
            }
        }
        i += 1;
    }
    assert(crate::nix::format::entry_vals(out@) + set_entries(*e, i as int, src@) =~= crate::nix::format::entry_vals(out@));
    out
}


// ---------------------------------------------------------------------------
// Public entry points
// ---------------------------------------------------------------------------

/// A range of a source text in bytes.
#[derive(Debug, Clone, Copy, PartialEq, Eq)]
pub struct TextRange {
    pub start: usize,
    pub end: usize,
}

impl TextRange {
    /// The range from byte `start` to byte `end`.
    pub fn new(start: usize, end: usize) -> (r: TextRange)
        ensures
            r.start == start && r.end == end,
    {
        TextRange { start, end }
    }
}

/// The value a value node stands for; a node that is not an expression is
/// kept as its source text.
pub open spec fn node_value(n: SyntaxNode, src: Seq<char>) -> NixVal {
    if is_expr_kind(n.kind) {
        value_of(n, src)
    } else {
        NixVal::Expression(node_text(n, src))
    }
}

/// A node of a parsed file's tree.
#[derive(Debug, Clone, Copy)]
pub struct ParsedNode<'a> {
    /// The file the node belongs to.
    pub file: &'a NixFile,
    /// The node.
    pub node: &'a SyntaxNode,
}

impl<'a> ParsedNode<'a> {
    /// The node lies within its well-formed file.
    pub open spec fn wf(&self) -> bool {
        self.file.wf() && within(*self.node, self.file.chars@)
    }

    /// The source text the node spans.
    pub fn text(&self) -> (r: String)
        requires
            self.wf(),
        ensures
            r@ == node_text(*self.node, self.file.source@),
    {
        string_from(&node_text_exec(self.node, &self.file.chars))
    }

    /// The node's byte range in its file.
    pub fn text_range(&self) -> (r: TextRange)
        ensures
            r.start == self.node.start && r.end == self.node.end,
    {
        TextRange { start: self.node.start, end: self.node.end }
    }

    /// The value the node stands for; a node that is not an expression is
    /// kept as its source text.
    pub fn to_nix_value(&self) -> (r: NixValue)
        requires
            self.wf(),
        ensures
            r@ == node_value(*self.node, self.file.source@),
    {
        if crate::nix::ast::is_expr(self.node.kind) {
            expr_to_value(self.node, &self.file.chars)
        } else {
            NixValue::Expression(string_from(&node_text_exec(self.node, &self.file.chars)))
        }
    }
}

/// Find the value node of the option at the dotted `path` in a parsed file.
/// Flat dotted keys (`a.b.c = 1;`) and nested sets (`a = { b = ...; };`)
/// are both followed, and a top-level lambda or parentheses are looked
/// through. None when the path has no segment, the file is not an attribute
/// set, or the option is not there.
pub fn find_option<'a>(nix_file: &'a NixFile, path: &str) -> (r: Option<ParsedNode<'a>>)
    requires
        nix_file.wf(),
    ensures
        match r {
            Some(p) => p.file == nix_file && option_node(nix_file.root, path@, nix_file.source@) == Some(*p.node)
                && p.wf(),
            None => option_node(nix_file.root, path@, nix_file.source@) is None,
        },
{
    let parts = path_parts_exec(path);
    if parts.len() == 0 {
        return None;
    }
    proof {
        lemma_ranges_within(nix_file.root, nix_file.source@);
    }
    match root_attrset_exec(&nix_file.root) {
        Some(set) => {
            proof {
                lemma_peel_within(nix_file.root, nix_file.chars@);
            }
            match find_in_exec(set, parts.as_slice(), &nix_file.chars) {
                Some(n) => Some(ParsedNode { file: nix_file, node: n }),
                None => None,
            }
        },
        None => None,
    }
}

proof fn lemma_peel_within_node(e: SyntaxNode, src: Seq<char>)
    requires
        within(e, src),
    ensures
        peel(e) matches Some(s) ==> within(s, src),
    decreases e,
{
    if e.kind != NODE_ATTR_SET && (e.kind == NODE_LAMBDA || e.kind == NODE_PAREN) {
        match nth_child(e, Class::Expr, 0) {
            Some(j) => {
                lemma_nth_from(e.children@, Class::Expr, 0, 0);
                lemma_peel_within_node(e.children@[j], src);
            },
            None => {},
        }
    }
}

pub proof fn lemma_peel_within(root: SyntaxNode, src: Seq<char>)
    requires
        within(root, src),
    ensures
        root_attrset(root) matches Some(s) ==> within(s, src),
{
    match nth_child(root, Class::Expr, 0) {
        Some(j) => {
            lemma_nth_from(root.children@, Class::Expr, 0, 0);
            lemma_peel_within_node(root.children@[j], src);
        },
        None => {},
    }
}

/// The entries of the attribute set `set` from child `i` on, as
/// (dotted key, value node): each `AttrpathValue` with an attribute path and
/// a value, in order.
pub open spec fn entries_from(set: SyntaxNode, i: int, src: Seq<char>) -> Seq<(Seq<char>, SyntaxNode)>
    decreases set.children@.len() - i,
{
    if i < 0 || i >= set.children@.len() {
        Seq::<(Seq<char>, SyntaxNode)>::empty()
    } else {
        let c = set.children@[i];
        if c.kind == NODE_ATTRPATH_VALUE && entry_parts(c) is Some {
            let (a, b) = entry_parts(c).unwrap();
            seq![(join(attr_names(c.children@[a], src), "."@), c.children@[b])] + entries_from(set, i + 1, src)
        } else {
            entries_from(set, i + 1, src)
        }
    }
}

/// The key/value pairs of the root attribute set of a parsed file (after
/// looking through a top-level lambda), keys in dotted form; empty when the
/// root is not an attribute set.
pub fn iterate_attr_set<'a>(nix_file: &'a NixFile) -> (r: Vec<(String, ParsedNode<'a>)>)
    requires
        nix_file.wf(),
    ensures
        match root_attrset(nix_file.root) {
            Some(set) => r@.map_values(|e: (String, ParsedNode<'a>)| (e.0@, *e.1.node)) == entries_from(set, 0, nix_file.source@),
            None => r@.len() == 0,
        },
        forall|k: int| 0 <= k < r@.len() ==> (#[trigger] r@[k]).1.wf() && r@[k].1.file == nix_file,
{
    let mut out: Vec<(String, ParsedNode<'a>)> = Vec::new();
    proof {
        lemma_ranges_within(nix_file.root, nix_file.source@);
        lemma_peel_within(nix_file.root, nix_file.chars@);
    }
    let set = match root_attrset_exec(&nix_file.root) {
        Some(s) => s,
        None => return out,
    };
    let src = &nix_file.chars;
    let mut i: usize = 0;
    while i < set.children.len()
        invariant
            i <= set.children@.len(),
            within(*set, src@),
            src == &nix_file.chars,
            nix_file.wf(),
            out@.map_values(|e: (String, ParsedNode<'a>)| (e.0@, *e.1.node)) + entries_from(*set, i as int, src@)
                == entries_from(*set, 0, src@),
            forall|k: int| 0 <= k < out@.len() ==> (#[trigger] out@[k]).1.wf() && out@[k].1.file == nix_file,
        decreases set.children@.len() - i,
    {
        let c = &set.children[i];
        assert(within(*c, src@));
        if c.kind == NODE_ATTRPATH_VALUE {
            let a = nth_child_exec(c, Class::Kind(NODE_ATTRPATH), 0);
            let b = nth_child_exec(c, Class::Expr, 0);
            if let (Some(a), Some(b)) = (a, b) {
                assert(within(c.children@[a as int], src@));
                assert(within(c.children@[b as int], src@));
                let keys = attr_names_exec(&c.children[a], src);
                let key = join_exec(&keys, &chars_of("."));
                let ghost prev = out@.map_values(|e: (String, ParsedNode<'a>)| (e.0@, *e.1.node));
                let ghost rest = entries_from(*set, i + 1, src@);
                out.push((string_from(&key), ParsedNode { file: nix_file, node: &c.children[b] }));
                assert(out@.map_values(|e: (String, ParsedNode<'a>)| (e.0@, *e.1.node)) =~= prev.push((key@, c.children@[b as int])));
                assert(prev.push((key@, c.children@[b as int])) + rest =~= prev + (seq![(key@, c.children@[b as int])] + rest));
            }
        }
        i += 1;
    }
    assert(out@.map_values(|e: (String, ParsedNode<'a>)| (e.0@, *e.1.node)) + entries_from(*set, i as int, src@)
        =~= out@.map_values(|e: (String, ParsedNode<'a>)| (e.0@, *e.1.node)));
    out
}

} // verus!

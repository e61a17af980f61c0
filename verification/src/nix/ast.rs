//! Reading the rnix syntax tree as Nix's abstract syntax: which nodes are
//! expressions, which child plays which role, and the names of attributes.
use vstd::prelude::*;
use crate::text::{chars_of, push_all, slice_of, string_from};
use crate::nix::syntax::{
    SyntaxNode, NODE_APPLY, NODE_ASSERT, NODE_ATTR_SET, NODE_ATTRPATH, NODE_ATTRPATH_VALUE,
    NODE_BIN_OP, NODE_CUR_POS, NODE_DYNAMIC, NODE_ERROR, NODE_HAS_ATTR, NODE_IDENT, NODE_IF_ELSE,
    NODE_LAMBDA, NODE_LEGACY_LET, NODE_LET_IN, NODE_LIST, NODE_LITERAL, NODE_PAREN, NODE_PATH_ABS,
    NODE_PATH_HOME, NODE_PATH_REL, NODE_PATH_SEARCH, NODE_ROOT, NODE_SELECT, NODE_STRING,
    NODE_UNARY_OP, NODE_WITH, TOKEN_IDENT,
};

verus! {

/// The node kinds that rnix reads as an expression (`ast::Expr`).
pub open spec fn is_expr_kind(k: u16) -> bool {
    k == NODE_APPLY || k == NODE_ASSERT || k == NODE_ERROR || k == NODE_IF_ELSE || k == NODE_SELECT
        || k == NODE_STRING || k == NODE_PATH_ABS || k == NODE_PATH_REL || k == NODE_PATH_HOME
        || k == NODE_PATH_SEARCH || k == NODE_LITERAL || k == NODE_LAMBDA || k == NODE_LEGACY_LET
        || k == NODE_LET_IN || k == NODE_LIST || k == NODE_BIN_OP || k == NODE_PAREN || k == NODE_ROOT
        || k == NODE_ATTR_SET || k == NODE_UNARY_OP || k == NODE_IDENT || k == NODE_WITH
        || k == NODE_HAS_ATTR || k == NODE_CUR_POS
}

/// Whether a node kind is an expression kind.
pub fn is_expr(k: u16) -> (b: bool)
    ensures
        b == is_expr_kind(k),
{
    k == NODE_APPLY || k == NODE_ASSERT || k == NODE_ERROR || k == NODE_IF_ELSE || k == NODE_SELECT
        || k == NODE_STRING || k == NODE_PATH_ABS || k == NODE_PATH_REL || k == NODE_PATH_HOME
        || k == NODE_PATH_SEARCH || k == NODE_LITERAL || k == NODE_LAMBDA || k == NODE_LEGACY_LET
        || k == NODE_LET_IN || k == NODE_LIST || k == NODE_BIN_OP || k == NODE_PAREN || k == NODE_ROOT
        || k == NODE_ATTR_SET || k == NODE_UNARY_OP || k == NODE_IDENT || k == NODE_WITH
        || k == NODE_HAS_ATTR || k == NODE_CUR_POS
}

/// A class of children looked for: expressions, or one kind.
#[derive(Clone, Copy)]
pub enum Class {
    Expr,
    /// An attribute of an attribute path (`ast::Attr`): identifier,
    /// dynamic `${...}` or string.
    Attr,
    Kind(u16),
}

/// Whether a kind belongs to a class.
pub open spec fn in_class(k: u16, c: Class) -> bool {
    match c {
        Class::Expr => is_expr_kind(k),
        Class::Attr => k == NODE_IDENT || k == NODE_DYNAMIC || k == NODE_STRING,
        Class::Kind(want) => k == want,
    }
}

/// The index of the `n`-th child from index `i` on that belongs to `c`.
pub open spec fn nth_from(cs: Seq<SyntaxNode>, c: Class, i: int, n: nat) -> Option<int>
    decreases cs.len() - i,
{
    if i < 0 || i >= cs.len() {
        None
    } else if in_class(cs[i].kind, c) {
        if n == 0 {
            Some(i)
        } else {
            nth_from(cs, c, i + 1, (n - 1) as nat)
        }
    } else {
        nth_from(cs, c, i + 1, n)
    }
}

pub proof fn lemma_nth_from(cs: Seq<SyntaxNode>, c: Class, i: int, n: nat)
    requires
        0 <= i,
    ensures
        nth_from(cs, c, i, n) matches Some(j) ==> i <= j < cs.len() && in_class(cs[j].kind, c),
    decreases cs.len() - i,
{
    if i < cs.len() {
        if in_class(cs[i].kind, c) {
            if n > 0 {
                lemma_nth_from(cs, c, i + 1, (n - 1) as nat);
            }
        } else {
            lemma_nth_from(cs, c, i + 1, n);
        }
    }
}

/// The index of the `n`-th child of `node` that belongs to `c`.
pub open spec fn nth_child(node: SyntaxNode, c: Class, n: nat) -> Option<int> {
    nth_from(node.children@, c, 0, n)
}

fn class_has(k: u16, c: Class) -> (b: bool)
    ensures
        b == in_class(k, c),
{
    match c {
        Class::Expr => is_expr(k),
        Class::Attr => k == NODE_IDENT || k == NODE_DYNAMIC || k == NODE_STRING,
        Class::Kind(want) => k == want,
    }
}

/// The index of the `n`-th child of `node` that belongs to `c`.
pub fn nth_child_exec(node: &SyntaxNode, c: Class, n: usize) -> (r: Option<usize>)
    ensures
        match r {
            Some(j) => nth_child(*node, c, n as nat) == Some(j as int) && j < node.children@.len(),
            None => nth_child(*node, c, n as nat) is None,
        },
{
    let ghost cs = node.children@;
    let mut i: usize = 0;
    let mut left: usize = n;
    while i < node.children.len()
        invariant
            cs == node.children@,
            0 <= i <= cs.len(),
            nth_from(cs, c, 0, n as nat) == nth_from(cs, c, i as int, left as nat),
        decreases cs.len() - i,
    {
        if class_has(node.children[i].kind, c) {
            if left == 0 {
                return Some(i);
            }
            left -= 1;
        }
        i += 1;
    }
    None
}

/// The source text of a node.
pub open spec fn node_text(n: SyntaxNode, src: Seq<char>) -> Seq<char> {
    src.subrange(n.cstart as int, n.cend as int)
}

/// The source text of a node.
pub fn node_text_exec(n: &SyntaxNode, src: &Vec<char>) -> (r: Vec<char>)
    requires
        n.cstart <= n.cend <= src@.len(),
    ensures
        r@ == node_text(*n, src@),
{
    slice_of(src, n.cstart, n.cend)
}

/// A part of a Nix string: literal text, or an interpolation `${...}`.
pub enum StrPart {
    Literal(Seq<char>),
    Interpolation,
}

/// A part of a Nix string, as returned by [`string_parts_of`].
#[derive(Debug)]
pub enum StringPart {
    Literal(String),
    Interpolation,
}

/// The part as plain values.
pub open spec fn part_view(p: StringPart) -> StrPart {
    match p {
        StringPart::Literal(s) => StrPart::Literal(s@),
        StringPart::Interpolation => StrPart::Interpolation,
    }
}

/// The parts of the Nix string literal `text` as rnix normalises them
/// (indentation of `''` strings removed, escapes resolved); none when
/// `text` is not one string literal.
pub uninterp spec fn string_parts(text: Seq<char>) -> Option<Seq<StrPart>>;

/// Parse `text` with rnix and, when it is one string literal, return the
/// string's `normalized_parts` (rnix `ast::Str::normalized_parts`), each
/// literal part with its text and each interpolation without its content.
#[verifier::external_body]
pub(crate) fn string_parts_of(text: &str) -> (r: Option<Vec<StringPart>>)
    requires
        text@.len() < crate::nix::syntax::MAX_PARSE_CHARS,
    ensures
        match r {
            Some(v) => string_parts(text@) == Some(v@.map_values(|p: StringPart| part_view(p))),
            None => string_parts(text@) is None,
        },
{
    match rnix::Root::parse(text).tree().expr() {
        Some(rnix::ast::Expr::Str(s)) => Some(s.normalized_parts().into_iter().map(|p| match p {
            rnix::ast::InterpolPart::Literal(l) => StringPart::Literal(l),
            rnix::ast::InterpolPart::Interpolation(_) => StringPart::Interpolation,
        }).collect()),
        _ => None,
    }
}

/// The parts of a string literal of fewer than `MAX_PARSE_CHARS`
/// characters (see [`string_parts`]); none for a longer text, which is not
/// handed to rnix.
pub open spec fn parts_within(text: Seq<char>) -> Option<Seq<StrPart>> {
    if text.len() < crate::nix::syntax::MAX_PARSE_CHARS {
        string_parts(text)
    } else {
        None
    }
}

/// No part is an interpolation.
pub open spec fn no_interpolation(ps: Seq<StrPart>) -> bool {
    forall|i: int| 0 <= i < ps.len() ==> (#[trigger] ps[i]) is Literal
}

/// The literal parts' texts, concatenated.
pub open spec fn literal_text(ps: Seq<StrPart>) -> Seq<char>
    decreases ps.len(),
{
    if ps.len() == 0 {
        Seq::<char>::empty()
    } else {
        literal_text(ps.drop_last()) + match ps.last() {
            StrPart::Literal(t) => t,
            StrPart::Interpolation => Seq::<char>::empty(),
        }
    }
}

/// The value of a Nix string node with no interpolation: its literal text.
pub open spec fn plain_string(n: SyntaxNode, src: Seq<char>) -> Option<Seq<char>> {
    match parts_within(node_text(n, src)) {
        Some(ps) => if no_interpolation(ps) {
            Some(literal_text(ps))
        } else {
            None
        },
        None => None,
    }
}

/// Whether every node of the tree lies within `src`.
pub open spec fn within(n: SyntaxNode, src: Seq<char>) -> bool
    decreases n,
{
    &&& n.cstart <= n.cend <= src.len()
    &&& forall|i: int| 0 <= i < n.children@.len() ==> within(#[trigger] n.children@[i], src)
    &&& forall|i: int| 0 <= i < n.children@.len() ==> n.cstart <= (#[trigger] n.children@[i]).cstart && n.children@[i].cend <= n.cend
}

/// The plain text of a string node with no interpolation.
pub fn plain_string_exec(n: &SyntaxNode, src: &Vec<char>) -> (r: Option<Vec<char>>)
    requires
        n.cstart <= n.cend <= src@.len(),
    ensures
        match r {
            Some(t) => plain_string(*n, src@) == Some(t@),
            None => plain_string(*n, src@) is None,
        },
{
    let tc = node_text_exec(n, src);
    if tc.len() >= crate::nix::syntax::MAX_PARSE_CHARS {
        return None;
    }
    let t = string_from(&tc);
    match string_parts_of(t.as_str()) {
        Some(parts) => {
            let ghost pv = parts@.map_values(|p: StringPart| part_view(p));
            let mut out: Vec<char> = Vec::new();
            for i in 0..parts.len()
                invariant
                    pv == parts@.map_values(|p: StringPart| part_view(p)),
                    parts_within(node_text(*n, src@)) == Some(pv),
                    no_interpolation(pv.take(i as int)),
                    out@ == literal_text(pv.take(i as int)),
            {
                assert(pv.take(i + 1).drop_last() =~= pv.take(i as int));
                match &parts[i] {
                    StringPart::Literal(l) => {
                        push_all(&mut out, &chars_of(l.as_str()));
                    },
                    StringPart::Interpolation => {
                        assert(pv[i as int] is Interpolation);
                        assert(!no_interpolation(pv));
                        return None;
                    },
                }
                assert forall|j: int| 0 <= j < i + 1 implies (#[trigger] pv.take(i + 1)[j]) is Literal by {
                    if j < i {
                        assert(pv.take(i + 1)[j] == pv.take(i as int)[j]);
                    }
                }
            }
            assert(pv.take(parts@.len() as int) =~= pv);
            Some(out)
        },
        None => None,
    }
}

/// The name of an attribute (`ast::Attr`) when it is known statically: an
/// identifier's token text, or a string key without interpolation.
pub open spec fn attr_name(a: SyntaxNode, src: Seq<char>) -> Option<Seq<char>> {
    if a.kind == NODE_IDENT {
        match nth_child(a, Class::Kind(TOKEN_IDENT), 0) {
            Some(j) => Some(node_text(a.children@[j], src)),
            None => None,
        }
    } else if a.kind == NODE_STRING {
        plain_string(a, src)
    } else {
        None
    }
}

/// The known names of the attributes among `cs[i..]`, in order.
pub open spec fn names_from(cs: Seq<SyntaxNode>, i: int, src: Seq<char>) -> Seq<Seq<char>>
    decreases cs.len() - i,
{
    if i < 0 || i >= cs.len() {
        Seq::<Seq<char>>::empty()
    } else {
        let rest = names_from(cs, i + 1, src);
        let k = cs[i].kind;
        if k == NODE_IDENT || k == NODE_DYNAMIC || k == NODE_STRING {
            match attr_name(cs[i], src) {
                Some(n) => seq![n] + rest,
                None => rest,
            }
        } else {
            rest
        }
    }
}

/// The statically known segment names of an attribute path
/// (`collect_attr_names`): dynamic or interpolated segments are left out.
pub open spec fn attr_names(ap: SyntaxNode, src: Seq<char>) -> Seq<Seq<char>> {
    names_from(ap.children@, 0, src)
}

fn attr_name_exec(a: &SyntaxNode, src: &Vec<char>) -> (r: Option<Vec<char>>)
    requires
        within(*a, src@),
    ensures
        match r {
            Some(t) => attr_name(*a, src@) == Some(t@),
            None => attr_name(*a, src@) is None,
        },
{
    if a.kind == NODE_IDENT {
        match nth_child_exec(a, Class::Kind(TOKEN_IDENT), 0) {
            Some(j) => {
                assert(within(a.children@[j as int], src@));
                Some(node_text_exec(&a.children[j], src))
            },
            None => None,
        }
    } else if a.kind == NODE_STRING {
        plain_string_exec(a, src)
    } else {
        None
    }
}

/// The statically known segment names of an attribute path.
pub fn attr_names_exec(ap: &SyntaxNode, src: &Vec<char>) -> (r: Vec<Vec<char>>)
    requires
        within(*ap, src@),
    ensures
        crate::text::views(r@) == attr_names(*ap, src@),
{
    let ghost cs = ap.children@;
    let mut rev: Vec<Vec<char>> = Vec::new();
    let mut i: usize = ap.children.len();
    while i > 0
        invariant
            cs == ap.children@,
            i <= cs.len(),
            within(*ap, src@),
            crate::text::views(rev@).reverse() == names_from(cs, i as int, src@),
        decreases i,
    {
        let c = &ap.children[i - 1];
        assert(within(cs[i - 1], src@));
        let k = c.kind;
        if k == NODE_IDENT || k == NODE_DYNAMIC || k == NODE_STRING {
            match attr_name_exec(c, src) {
                Some(t) => {
                    let ghost prev = crate::text::views(rev@);
                    rev.push(t);
                    assert(crate::text::views(rev@) =~= prev.push(t@));
                    assert(prev.push(t@).reverse() =~= seq![t@] + prev.reverse());
                },
                None => {},
            }
        }
        i -= 1;
    }
    let mut out: Vec<Vec<char>> = Vec::new();
    let mut j: usize = rev.len();
    let ghost rv = crate::text::views(rev@);
    while j > 0
        invariant
            j <= rev@.len(),
            rv == crate::text::views(rev@),
            crate::text::views(out@) == rv.reverse().take(rv.len() - j),
        decreases j,
    {
        let ghost prev = crate::text::views(out@);
        let x = slice_of(&rev[j - 1], 0, rev[j - 1].len());
        assert(x@ =~= rv[j - 1]);
        out.push(x);
        assert(crate::text::views(out@) =~= prev.push(rv[j - 1]));
        assert(rv.reverse().take(rv.len() - j + 1) =~= rv.reverse().take(rv.len() - j).push(rv[j - 1]));
        j -= 1;
    }
    assert(rv.reverse().take(rv.len() as int) =~= rv.reverse());
    out
}

} // verus!

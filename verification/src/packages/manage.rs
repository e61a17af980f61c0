//! Editing package lists in Nix source: `with pkgs; [ vim git ]` (bare
//! names) and `[ pkgs.vim pkgs.git ]` (qualified names), multi-line or on
//! one line. An addition inserts the item and its spacing; a removal cuts
//! the item with its own line when it stands alone on it, else with one
//! neighbouring space, so other items and comments stay.
use vstd::prelude::*;
use vstd::string::*;
use crate::text::{chars_eq, chars_of, contains, contains_str, push_all, slice_of, string_from, trim, trim_chars, views};
use crate::nix::ast::{lemma_nth_from, nth_child, nth_child_exec, node_text, node_text_exec, within, Class};
use crate::nix::reader::{
    last_newline, lemma_ranges_within, parse_error_text, parse_string, syntax_error_text,
    validate_source, NixFile, NixParseError,
};
use crate::nix::syntax::{parse_error_of, SyntaxNode, NODE_ATTRPATH, NODE_IDENT, NODE_LIST, NODE_SELECT, NODE_WITH, TOKEN_IDENT, TOKEN_R_BRACK};
use crate::nix::traversal::{find_option, option_node};
use crate::nix::writer::{splice, splice_exec};
use crate::packages::types::PackageError;

verus! {

/// The list an option's value holds, and whether its items are bare names
/// (`with pkgs; [ ... ]`) rather than `pkgs.<name>`; or why there is none.
pub open spec fn list_of(e: SyntaxNode, s: Seq<char>) -> Result<(SyntaxNode, bool), Seq<char>> {
    if e.kind == NODE_WITH {
        match nth_child(e, Class::Expr, 1) {
            None => Err("with expression has no body"@),
            Some(j) => {
                let b = e.children@[j];
                if b.kind == NODE_LIST {
                    Ok((b, true))
                } else {
                    Err("with expression body is not a list: "@ + node_text(b, s))
                }
            },
        }
    } else if e.kind == NODE_LIST {
        Ok((e, false))
    } else {
        Err("option value is not a list or with-expression: "@ + node_text(e, s))
    }
}

/// The text of a node's identifier token, if it has one.
pub open spec fn ident_text(e: SyntaxNode, s: Seq<char>) -> Option<Seq<char>> {
    match nth_child(e, Class::Kind(TOKEN_IDENT), 0) {
        Some(j) => Some(node_text(e.children@[j], s)),
        None => None,
    }
}

/// The number of attributes among `cs[i..]`.
pub open spec fn attr_count(cs: Seq<SyntaxNode>, i: int) -> nat
    decreases cs.len() - i,
{
    if i < 0 || i >= cs.len() {
        0
    } else {
        attr_count(cs, i + 1) + if crate::nix::ast::in_class(cs[i].kind, Class::Attr) { 1nat } else { 0nat }
    }
}

/// The name selected by `x.<name>`: a select whose attribute path has one
/// attribute, an identifier.
pub open spec fn select_name(e: SyntaxNode, s: Seq<char>) -> Option<Seq<char>> {
    if e.kind == NODE_SELECT {
        match nth_child(e, Class::Kind(NODE_ATTRPATH), 0) {
            Some(a) => {
                let ap = e.children@[a];
                if attr_count(ap.children@, 0) == 1 {
                    match nth_child(ap, Class::Attr, 0) {
                        Some(k) => if ap.children@[k].kind == NODE_IDENT {
                            ident_text(ap.children@[k], s)
                        } else {
                            None
                        },
                        None => None,
                    }
                } else {
                    None
                }
            },
            None => None,
        }
    } else {
        None
    }
}

/// Whether a list item names `name`: for bare lists an identifier `name`
/// or any item whose trimmed text is `name` (`kdePackages.foo`); for
/// qualified lists `pkgs.<name>`.
pub open spec fn item_matches(item: SyntaxNode, name: Seq<char>, bare: bool, s: Seq<char>) -> bool {
    if bare {
        (item.kind == NODE_IDENT && ident_text(item, s) == Some(name)) || trim(node_text(item, s)) == name
    } else {
        select_name(item, s) == Some(name)
    }
}

/// The index of the first item (expression child) of `list` from child `i`
/// on that names `name`.
pub open spec fn match_from(list: SyntaxNode, i: int, name: Seq<char>, bare: bool, s: Seq<char>) -> Option<int>
    decreases list.children@.len() - i,
{
    if i < 0 || i >= list.children@.len() {
        None
    } else if crate::nix::ast::is_expr_kind(list.children@[i].kind) && item_matches(list.children@[i], name, bare, s) {
        Some(i)
    } else {
        match_from(list, i + 1, name, bare, s)
    }
}

/// The names of the items of `list` from child `i` on: for bare lists an
/// identifier's name or a select's whole text; for qualified lists the name
/// of `pkgs.<name>`; other items left out.
pub open spec fn names_from(list: SyntaxNode, i: int, bare: bool, s: Seq<char>) -> Seq<Seq<char>>
    decreases list.children@.len() - i,
{
    if i < 0 || i >= list.children@.len() {
        Seq::<Seq<char>>::empty()
    } else {
        let c = list.children@[i];
        let rest = names_from(list, i + 1, bare, s);
        if !crate::nix::ast::is_expr_kind(c.kind) {
            rest
        } else if bare {
            if c.kind == NODE_IDENT && ident_text(c, s) is Some {
                seq![ident_text(c, s).unwrap()] + rest
            } else if c.kind == NODE_SELECT {
                seq![node_text(c, s)] + rest
            } else {
                rest
            }
        } else if select_name(c, s) is Some {
            seq![select_name(c, s).unwrap()] + rest
        } else {
            rest
        }
    }
}

fn ident_text_exec(e: &SyntaxNode, s: &Vec<char>) -> (r: Option<Vec<char>>)
    requires
        within(*e, s@),
    ensures
        match r {
            Some(t) => ident_text(*e, s@) == Some(t@),
            None => ident_text(*e, s@) is None,
        },
{
    match nth_child_exec(e, Class::Kind(TOKEN_IDENT), 0) {
        Some(j) => {
            assert(within(e.children@[j as int], s@));
            Some(node_text_exec(&e.children[j], s))
        },
        None => None,
    }
}

fn attr_count_exec(n: &SyntaxNode) -> (c: usize)
    ensures
        c == attr_count(n.children@, 0),
{
    let mut c: usize = 0;
    let mut i: usize = n.children.len();
    while i > 0
        invariant
            i <= n.children@.len(),
            c == attr_count(n.children@, i as int),
            c <= n.children@.len() - i,
        decreases i,
    {
        assert(n.children@.len() == n.children.len());
        let k = n.children[i - 1].kind;
        if k == NODE_IDENT || k == crate::nix::syntax::NODE_DYNAMIC || k == crate::nix::syntax::NODE_STRING {
            c += 1;
        }
        i -= 1;
    }
    c
}

fn select_name_exec(e: &SyntaxNode, s: &Vec<char>) -> (r: Option<Vec<char>>)
    requires
        within(*e, s@),
    ensures
        match r {
            Some(t) => select_name(*e, s@) == Some(t@),
            None => select_name(*e, s@) is None,
        },
{
    if e.kind != NODE_SELECT {
        return None;
    }
    let a = match nth_child_exec(e, Class::Kind(NODE_ATTRPATH), 0) {
        Some(a) => a,
        None => return None,
    };
    let ap = &e.children[a];
    assert(within(*ap, s@));
    if attr_count_exec(ap) != 1 {
        return None;
    }
    match nth_child_exec(ap, Class::Attr, 0) {
        Some(k) => {
            assert(within(ap.children@[k as int], s@));
            if ap.children[k].kind == NODE_IDENT {
                ident_text_exec(&ap.children[k], s)
            } else {
                None
            }
        },
        None => None,
    }
}

fn item_matches_exec(item: &SyntaxNode, name: &Vec<char>, bare: bool, s: &Vec<char>) -> (b: bool)
    requires
        within(*item, s@),
    ensures
        b == item_matches(*item, name@, bare, s@),
{
    if bare {
        if item.kind == NODE_IDENT {
            match ident_text_exec(item, s) {
                Some(t) => {
                    if chars_eq(&t, name) {
                        return true;
                    }
                },
                None => {},
            }
        }
        let t = trim_chars(&node_text_exec(item, s));
        chars_eq(&t, name)
    } else {
        match select_name_exec(item, s) {
            Some(t) => chars_eq(&t, name),
            None => false,
        }
    }
}

fn match_exec(list: &SyntaxNode, name: &Vec<char>, bare: bool, s: &Vec<char>) -> (r: Option<usize>)
    requires
        within(*list, s@),
    ensures
        match r {
            Some(i) => match_from(*list, 0, name@, bare, s@) == Some(i as int) && i < list.children@.len(),
            None => match_from(*list, 0, name@, bare, s@) is None,
        },
{
    let mut i: usize = 0;
    while i < list.children.len()
        invariant
            i <= list.children@.len(),
            within(*list, s@),
            match_from(*list, 0, name@, bare, s@) == match_from(*list, i as int, name@, bare, s@),
        decreases list.children@.len() - i,
    {
        let c = &list.children[i];
        assert(within(*c, s@));
        if crate::nix::ast::is_expr(c.kind) && item_matches_exec(c, name, bare, s) {
            return Some(i);
        }
        i += 1;
    }
    None
}

/// The names of the items of a list.
fn names_exec(list: &SyntaxNode, bare: bool, s: &Vec<char>) -> (r: Vec<String>)
    requires
        within(*list, s@),
    ensures
        crate::text::string_views(r@) == names_from(*list, 0, bare, s@),
{
    let mut out: Vec<String> = Vec::new();
    let mut i: usize = 0;
    while i < list.children.len()
        invariant
            i <= list.children@.len(),
            within(*list, s@),
            crate::text::string_views(out@) + names_from(*list, i as int, bare, s@) == names_from(*list, 0, bare, s@),
        decreases list.children@.len() - i,
    {
        let c = &list.children[i];
        assert(within(*c, s@));
        let ghost prev = crate::text::string_views(out@);
        let ghost rest = names_from(*list, i + 1, bare, s@);
        if crate::nix::ast::is_expr(c.kind) {
            let name: Option<Vec<char>> = if bare {
                if c.kind == NODE_IDENT {
                    ident_text_exec(c, s)
                } else if c.kind == NODE_SELECT {
                    Some(node_text_exec(c, s))
                } else {
                    None
                }
            } else {
                select_name_exec(c, s)
            };
            match name {
                Some(t) => {
                    out.push(string_from(&t));
                    assert(crate::text::string_views(out@) =~= prev.push(t@));
                    assert(prev.push(t@) + rest =~= prev + (seq![t@] + rest));
                },
                None => {},
            }
        }
        i += 1;
    }
    assert(crate::text::string_views(out@) + names_from(*list, i as int, bare, s@) =~= crate::text::string_views(out@));
    out
}


/// The character position of the list's `]`.
pub open spec fn r_brack_pos(list: SyntaxNode) -> Option<int> {
    match nth_child(list, Class::Kind(TOKEN_R_BRACK), 0) {
        Some(j) => Some(list.children@[j].cstart as int),
        None => None,
    }
}

/// The indentation for a new item of a multi-line list: what precedes the
/// first item on its line; else what precedes the `]` on its line, plus two
/// spaces; else two spaces.
pub open spec fn item_indent(s: Seq<char>, list: SyntaxNode) -> Seq<char> {
    let ls = list.cstart as int;
    let from_item = match nth_child(list, Class::Expr, 0) {
        Some(j) => {
            let between = s.subrange(ls, list.children@[j].cstart as int);
            match last_newline(between) {
                Some(nl) => Some(between.skip(nl + 1)),
                None => None,
            }
        },
        None => None,
    };
    match from_item {
        Some(t) => t,
        None => match r_brack_pos(list) {
            Some(rb) => {
                let before = s.subrange(ls, rb);
                match last_newline(before) {
                    Some(nl) => before.skip(nl + 1) + "  "@,
                    None => "  "@,
                }
            },
            None => "  "@,
        },
    }
}

/// `s` without its trailing spaces and tabs.
pub open spec fn trim_end_blank(s: Seq<char>) -> Seq<char>
    decreases s.len(),
{
    if s.len() > 0 && (s.last() == ' ' || s.last() == '\t') {
        trim_end_blank(s.drop_last())
    } else {
        s
    }
}

/// The text with `name` added to the list (as `pkgs.<name>` unless bare):
/// on a line of its own before the `]` of a multi-line list, else after a
/// space before the blanks that precede the `]`.
pub open spec fn with_package(s: Seq<char>, list: SyntaxNode, name: Seq<char>, bare: bool) -> Option<Seq<char>> {
    match r_brack_pos(list) {
        None => None,
        Some(rb) => {
            let pkg = if bare { name } else { "pkgs."@ + name };
            if contains(node_text(list, s), "\n"@) {
                Some(splice(s, rb, rb, item_indent(s, list) + pkg + "\n"@))
            } else {
                let p = trim_end_blank(s.take(rb)).len() as int;
                Some(splice(s, p, p, " "@ + pkg))
            }
        },
    }
}

/// The index of the first newline of `s`, if any.
pub open spec fn first_newline(s: Seq<char>) -> Option<int>
    decreases s.len(),
{
    if s.len() == 0 {
        None
    } else if s[0] == '\n' {
        Some(0)
    } else {
        match first_newline(s.drop_first()) {
            Some(k) => Some(k + 1),
            None => None,
        }
    }
}

/// The item with one neighbouring space: the space after it, else the
/// space before it, else the item alone.
pub open spec fn spaced_removal(s: Seq<char>, is: int, ie: int) -> (int, int) {
    if 0 <= ie < s.len() && s[ie] == ' ' {
        (is, ie + 1)
    } else if is > 0 && is <= s.len() && s[is - 1] == ' ' {
        (is - 1, ie)
    } else {
        (is, ie)
    }
}

/// The characters removed for an item. In a multi-line list: its whole
/// line, indentation and newline included, when the item stands alone on
/// it (only spaces and tabs around it); otherwise the item with one
/// neighbouring space, so that other items and comments on its line stay.
/// On one line: the item with the space after it (first item) or before it
/// (others).
pub open spec fn item_removal(s: Seq<char>, list: SyntaxNode, item: SyntaxNode) -> (int, int) {
    let is = item.cstart as int;
    let ie = item.cend as int;
    if contains(node_text(list, s), "\n"@) {
        let before = s.subrange(list.cstart as int, is);
        let line_start = match last_newline(before) {
            Some(nl) => if crate::nix::writer::blank(before.skip(nl + 1)) {
                Some(list.cstart + nl + 1)
            } else {
                None
            },
            None => None,
        };
        let line_end = match first_newline(s.skip(ie)) {
            Some(k) => if crate::nix::writer::blank(s.subrange(ie, ie + k)) {
                Some(ie + k + 1)
            } else {
                None
            },
            None => None,
        };
        match (line_start, line_end) {
            (Some(a), Some(b)) => (a, b),
            _ => spaced_removal(s, is, ie),
        }
    } else {
        let first = match nth_child(list, Class::Expr, 0) {
            Some(j) => list.children@[j].cstart == item.cstart,
            None => false,
        };
        if first {
            (is, if ie < s.len() && s[ie] == ' ' { ie + 1 } else { ie })
        } else {
            (if is > 0 && s[is - 1] == ' ' { is - 1 } else { is }, ie)
        }
    }
}

/// The text without the item.
pub open spec fn without_item(s: Seq<char>, list: SyntaxNode, item: SyntaxNode) -> Seq<char> {
    let (a, b) = item_removal(s, list, item);
    s.take(a) + s.skip(b)
}

fn r_brack_exec(list: &SyntaxNode, s: &Vec<char>) -> (r: Option<usize>)
    requires
        within(*list, s@),
    ensures
        match r {
            Some(p) => r_brack_pos(*list) == Some(p as int) && list.cstart <= p <= list.cend,
            None => r_brack_pos(*list) is None,
        },
{
    match nth_child_exec(list, Class::Kind(TOKEN_R_BRACK), 0) {
        Some(j) => {
            assert(within(list.children@[j as int], s@));
            Some(list.children[j].cstart)
        },
        None => None,
    }
}

fn last_newline_exec(s: &Vec<char>, from: usize, to: usize) -> (r: Option<usize>)
    requires
        from <= to <= s@.len(),
    ensures
        match r {
            Some(k) => last_newline(s@.subrange(from as int, to as int)) == Some(k as int) && k < to - from,
            None => last_newline(s@.subrange(from as int, to as int)) is None,
        },
{
    let ghost t = s@.subrange(from as int, to as int);
    let mut j = to;
    assert(t.take(t.len() as int) =~= t);
    while j > from && s[j - 1] != '\n'
        invariant
            from <= j <= to <= s@.len(),
            t == s@.subrange(from as int, to as int),
            last_newline(t) == last_newline(t.take(j - from)),
        decreases j,
    {
        assert(t.take(j - from).drop_last() =~= t.take(j - 1 - from));
        j -= 1;
    }
    if j > from {
        assert(t.take(j - from).last() == s@[j - 1]);
        Some(j - 1 - from)
    } else {
        None
    }
}

fn item_indent_exec(s: &Vec<char>, list: &SyntaxNode) -> (r: Vec<char>)
    requires
        within(*list, s@),
    ensures
        r@ == item_indent(s@, *list),
{
    let ls = list.cstart;
    match nth_child_exec(list, Class::Expr, 0) {
        Some(j) => {
            let is = list.children[j].cstart;
            assert(within(list.children@[j as int], s@));
            assert(ls <= is);
            match last_newline_exec(s, ls, is) {
                Some(nl) => {
                    let r = slice_of(s, ls + nl + 1, is);
                    assert(r@ =~= s@.subrange(ls as int, is as int).skip(nl + 1));
                    return r;
                },
                None => {},
            }
        },
        None => {},
    }
    match r_brack_exec(list, s) {
        Some(rb) => {
            match last_newline_exec(s, ls, rb) {
                Some(nl) => {
                    let mut r = slice_of(s, ls + nl + 1, rb);
                    assert(r@ =~= s@.subrange(ls as int, rb as int).skip(nl + 1));
                    push_all(&mut r, &chars_of("  "));
                    r
                },
                None => chars_of("  "),
            }
        },
        None => chars_of("  "),
    }
}

fn with_package_exec(s: &Vec<char>, list: &SyntaxNode, name: &Vec<char>, bare: bool) -> (r: Option<Vec<char>>)
    requires
        within(*list, s@),
    ensures
        match r {
            Some(t) => with_package(s@, *list, name@, bare) == Some(t@),
            None => with_package(s@, *list, name@, bare) is None,
        },
        r matches Some(t) ==> exists|p: int, ins: Seq<char>| 0 <= p <= s@.len() && t@ == #[trigger] splice(s@, p, p, ins),
{
    let rb = match r_brack_exec(list, s) {
        Some(rb) => rb,
        None => return None,
    };
    let mut pkg = if bare { Vec::new() } else { chars_of("pkgs.") };
    push_all(&mut pkg, name);
    if contains_str(&node_text_exec(list, s), "\n") {
        let mut line = item_indent_exec(s, list);
        push_all(&mut line, &pkg);
        push_all(&mut line, &chars_of("\n"));
        let t = splice_exec(s, rb, rb, &line);
        assert(t@ == splice(s@, rb as int, rb as int, line@));
        Some(t)
    } else {
        let mut p = rb;
        assert(s@.take(rb as int).take(rb as int) =~= s@.take(rb as int));
        while p > 0 && (s[p - 1] == ' ' || s[p - 1] == '\t')
            invariant
                p <= rb <= s@.len(),
                trim_end_blank(s@.take(rb as int)) == trim_end_blank(s@.take(p as int)),
            decreases p,
        {
            assert(s@.take(p as int).drop_last() =~= s@.take(p - 1));
            p -= 1;
        }
        let mut ins = chars_of(" ");
        push_all(&mut ins, &pkg);
        let t = splice_exec(s, p, p, &ins);
        assert(t@ == splice(s@, p as int, p as int, ins@));
        Some(t)
    }
}

fn first_newline_exec(s: &Vec<char>, from: usize) -> (r: Option<usize>)
    requires
        from <= s@.len(),
    ensures
        match r {
            Some(k) => first_newline(s@.skip(from as int)) == Some(k as int) && from + k < s@.len(),
            None => first_newline(s@.skip(from as int)) is None,
        },
{
    let mut j = from;
    while j < s.len() && s[j] != '\n'
        invariant
            from <= j <= s@.len(),
            first_newline(s@.skip(from as int)) == match first_newline(s@.skip(j as int)) {
                Some(k) => Some(k + (j - from)),
                None => None,
            },
        decreases s@.len() - j,
    {
        assert(s@.skip(j as int).drop_first() =~= s@.skip(j + 1));
        j += 1;
    }
    if j < s.len() {
        Some(j - from)
    } else {
        None
    }
}

fn item_removal_exec(s: &Vec<char>, list: &SyntaxNode, item: &SyntaxNode) -> (r: (usize, usize))
    requires
        within(*list, s@),
        within(*item, s@),
        list.cstart <= item.cstart,
    ensures
        r.0 <= r.1 <= s@.len(),
        (r.0 as int, r.1 as int) == item_removal(s@, *list, *item),
{
    let is = item.cstart;
    let ie = item.cend;
    if contains_str(&node_text_exec(list, s), "\n") {
        let ghost before = s@.subrange(list.cstart as int, is as int);
        let line_start: Option<usize> = match last_newline_exec(s, list.cstart, is) {
            Some(nl) => {
                assert(before.skip(nl + 1) =~= s@.subrange(list.cstart + nl + 1, is as int));
                if blank_exec(s, list.cstart + nl + 1, is) {
                    Some(list.cstart + nl + 1)
                } else {
                    None
                }
            },
            None => None,
        };
        let line_end: Option<usize> = match first_newline_exec(s, ie) {
            Some(k) => {
                assert(s@.len() == s.len());
                if blank_exec(s, ie, ie + k) {
                    Some(ie + k + 1)
                } else {
                    None
                }
            },
            None => None,
        };
        match (line_start, line_end) {
            (Some(a), Some(b)) => (a, b),
            _ => {
                if ie < s.len() && s[ie] == ' ' {
                    (is, ie + 1)
                } else if is > 0 && s[is - 1] == ' ' {
                    (is - 1, ie)
                } else {
                    (is, ie)
                }
            },
        }
    } else {
        let first = match nth_child_exec(list, Class::Expr, 0) {
            Some(j) => list.children[j].cstart == item.cstart,
            None => false,
        };
        if first {
            (is, if ie < s.len() && s[ie] == ' ' { ie + 1 } else { ie })
        } else {
            (if is > 0 && s[is - 1] == ' ' { is - 1 } else { is }, ie)
        }
    }
}

/// Whether only spaces and tabs stand between `from` and `to`.
fn blank_exec(s: &Vec<char>, from: usize, to: usize) -> (b: bool)
    requires
        from <= to <= s@.len(),
    ensures
        b == crate::nix::writer::blank(s@.subrange(from as int, to as int)),
{
    let mut all_blank = true;
    let mut k = from;
    assert(s@.subrange(from as int, from as int) =~= Seq::<char>::empty());
    while k < to
        invariant
            from <= k <= to <= s@.len(),
            all_blank == crate::nix::writer::blank(s@.subrange(from as int, k as int)),
        decreases to - k,
    {
        let c = s[k];
        proof {
            assert(s@.subrange(from as int, k + 1) =~= s@.subrange(from as int, k as int).push(c));
            lemma_blank_push(s@.subrange(from as int, k as int), c);
        }
        all_blank = all_blank && (c == ' ' || c == '\t');
        k += 1;
    }
    all_blank
}

proof fn lemma_blank_push(t: Seq<char>, c: char)
    ensures
        crate::nix::writer::blank(t.push(c)) == (crate::nix::writer::blank(t) && (c == ' ' || c == '\t')),
{
    let u = t.push(c);
    if crate::nix::writer::blank(u) {
        assert(u[t.len() as int] == c);
        assert forall|i: int| 0 <= i < t.len() implies (#[trigger] t[i]) == ' ' || t[i] == '\t' by {
            assert(u[i] == t[i]);
        }
    }
}

/// The outcome of adding `name` to the list at the option's value node
/// `e` of a file's tree over `s`: nothing to do when it is there already,
/// the edited text, or the message of a `ParseError`.
pub open spec fn add_outcome(e: Option<SyntaxNode>, s: Seq<char>, option_path: Seq<char>, name: Seq<char>) -> Result<Option<Seq<char>>, Seq<char>> {
    match e {
        None => Err(option_path + " not found after locate"@),
        Some(e) => if !crate::nix::ast::is_expr_kind(e.kind) {
            Err("cannot cast value node to Expr"@)
        } else {
            match list_of(e, s) {
                Err(m) => Err(m),
                Ok((list, bare)) => if match_from(list, 0, name, bare, s) is Some {
                    Ok(None)
                } else {
                    match with_package(s, list, name, bare) {
                        None => Err("could not locate `]` in list"@),
                        Some(t) => match syntax_error_text(t) {
                            Some(m) => Err("validation failed after add: "@ + m),
                            None => Ok(Some(t)),
                        },
                    }
                },
            }
        },
    }
}

fn list_of_exec<'a>(e: &'a SyntaxNode, s: &Vec<char>) -> (r: Result<(&'a SyntaxNode, bool), String>)
    requires
        within(*e, s@),
    ensures
        match r {
            Ok((l, b)) => list_of(*e, s@) == Ok::<(SyntaxNode, bool), Seq<char>>((*l, b)) && within(*l, s@),
            Err(m) => list_of(*e, s@) == Err::<(SyntaxNode, bool), Seq<char>>(m@),
        },
{
    if e.kind == NODE_WITH {
        match nth_child_exec(e, Class::Expr, 1) {
            None => Err(String::from_str("with expression has no body")),
            Some(j) => {
                let b = &e.children[j];
                assert(within(*b, s@));
                if b.kind == NODE_LIST {
                    Ok((b, true))
                } else {
                    let mut m = String::from_str("with expression body is not a list: ");
                    m.append(string_from(&node_text_exec(b, s)).as_str());
                    Err(m)
                }
            },
        }
    } else if e.kind == NODE_LIST {
        Ok((e, false))
    } else {
        let mut m = String::from_str("option value is not a list or with-expression: ");
        m.append(string_from(&node_text_exec(e, s)).as_str());
        Err(m)
    }
}

/// Add `pkg_name` to the list at `option_path` in a parsed file: nothing
/// when the list names it already (`Ok(None)`), else the edited source.
pub fn add_package_in(file: &NixFile, option_path: &str, pkg_name: &str) -> (r: Result<Option<String>, PackageError>)
    requires
        file.wf(),
    ensures
        match add_outcome(option_node(file.root, option_path@, file.source@), file.source@, option_path@, pkg_name@) {
            Ok(None) => r matches Ok(None),
            Ok(Some(t)) => r matches Ok(Some(x)) && x@ == t,
            Err(m) => r matches Err(PackageError::ParseError(x)) && x@ == m,
        },
        r matches Ok(Some(x)) ==> exists|p: int, ins: Seq<char>|
            0 <= p <= file.source@.len() && x@ == #[trigger] splice(file.source@, p, p, ins),
{
    let s = &file.chars;
    let node = match find_option(file, option_path) {
        Some(p) => p.node,
        None => {
            let mut m = String::from_str(option_path);
            m.append(" not found after locate");
            return Err(PackageError::ParseError(m));
        },
    };
    if !crate::nix::ast::is_expr(node.kind) {
        return Err(PackageError::ParseError(String::from_str("cannot cast value node to Expr")));
    }
    let (list, bare) = match list_of_exec(node, s) {
        Ok(x) => x,
        Err(m) => return Err(PackageError::ParseError(m)),
    };
    let name = chars_of(pkg_name);
    if match_exec(list, &name, bare, s).is_some() {
        return Ok(None);
    }
    let t = match with_package_exec(s, list, &name, bare) {
        Some(t) => string_from(&t),
        None => return Err(PackageError::ParseError(String::from_str("could not locate `]` in list"))),
    };
    match validate_source(t.as_str()) {
        Ok(()) => Ok(Some(t)),
        Err(m) => {
            let mut x = String::from_str("validation failed after add: ");
            x.append(m.as_str());
            Err(PackageError::ParseError(x))
        },
    }
}

/// The outcome of removing `name` from the list at the option's value
/// node `e`: the edited text, or the error.
pub open spec fn remove_outcome(e: Option<SyntaxNode>, s: Seq<char>, option_path: Seq<char>, name: Seq<char>) -> Result<Seq<char>, (bool, Seq<char>)> {
    match e {
        None => Err((false, option_path + " not found after locate"@)),
        Some(e) => if !crate::nix::ast::is_expr_kind(e.kind) {
            Err((false, "cannot cast value node to Expr"@))
        } else {
            match list_of(e, s) {
                Err(m) => Err((false, m)),
                Ok((list, bare)) => match match_from(list, 0, name, bare, s) {
                    None => Err((true, name)),
                    Some(i) => {
                        let t = without_item(s, list, list.children@[i]);
                        match syntax_error_text(t) {
                            Some(m) => Err((false, "validation failed after remove: "@ + m)),
                            None => Ok(t),
                        }
                    },
                },
            }
        },
    }
}

/// Remove `pkg_name` from the list at `option_path` in a parsed file: the
/// edited source; `NotInConfig` when the list does not name it.
pub fn remove_package_in(file: &NixFile, option_path: &str, pkg_name: &str) -> (r: Result<String, PackageError>)
    requires
        file.wf(),
    ensures
        match remove_outcome(option_node(file.root, option_path@, file.source@), file.source@, option_path@, pkg_name@) {
            Ok(t) => r matches Ok(x) && x@ == t,
            Err((true, n)) => r matches Err(PackageError::NotInConfig(x)) && x@ == n,
            Err((false, m)) => r matches Err(PackageError::ParseError(x)) && x@ == m,
        },
        r matches Ok(x) ==> exists|a: int, b: int|
            0 <= a <= b <= file.source@.len() && x@ == #[trigger] file.source@.take(a) + #[trigger] file.source@.skip(b),
{
    let s = &file.chars;
    let node = match find_option(file, option_path) {
        Some(p) => p.node,
        None => {
            let mut m = String::from_str(option_path);
            m.append(" not found after locate");
            return Err(PackageError::ParseError(m));
        },
    };
    if !crate::nix::ast::is_expr(node.kind) {
        return Err(PackageError::ParseError(String::from_str("cannot cast value node to Expr")));
    }
    let (list, bare) = match list_of_exec(node, s) {
        Ok(x) => x,
        Err(m) => return Err(PackageError::ParseError(m)),
    };
    let name = chars_of(pkg_name);
    let i = match match_exec(list, &name, bare, s) {
        Some(i) => i,
        None => return Err(PackageError::NotInConfig(String::from_str(pkg_name))),
    };
    let item = &list.children[i];
    assert(within(*item, s@));
    let (a, b) = item_removal_exec(s, list, item);
    let mut out = slice_of(s, 0, a);
    push_all(&mut out, &slice_of(s, b, s.len()));
    assert(s@.subrange(0, a as int) =~= s@.take(a as int));
    assert(s@.subrange(b as int, s@.len() as int) =~= s@.skip(b as int));
    let t = string_from(&out);
    assert(t@ == s@.take(a as int) + s@.skip(b as int));
    match validate_source(t.as_str()) {
        Ok(()) => Ok(t),
        Err(m) => {
            let mut x = String::from_str("validation failed after remove: ");
            x.append(m.as_str());
            Err(PackageError::ParseError(x))
        },
    }
}

/// The package names in the list at the option's value node `e`: none when
/// the option is missing or its value is not a list.
pub open spec fn listed_names(e: Option<SyntaxNode>, s: Seq<char>) -> Seq<Seq<char>> {
    match e {
        None => Seq::<Seq<char>>::empty(),
        Some(e) => if !crate::nix::ast::is_expr_kind(e.kind) {
            Seq::<Seq<char>>::empty()
        } else {
            match list_of(e, s) {
                Err(_) => Seq::<Seq<char>>::empty(),
                Ok((list, bare)) => names_from(list, 0, bare, s),
            }
        },
    }
}

/// The package names declared in the list at `option_path` of a parsed
/// file; items that are not plain names are left out.
pub fn list_packages_in(file: &NixFile, option_path: &str) -> (r: Vec<String>)
    requires
        file.wf(),
    ensures
        crate::text::string_views(r@) == listed_names(option_node(file.root, option_path@, file.source@), file.source@),
{
    let s = &file.chars;
    let node = match find_option(file, option_path) {
        Some(p) => p.node,
        None => return Vec::new(),
    };
    if !crate::nix::ast::is_expr(node.kind) {
        return Vec::new();
    }
    match list_of_exec(node, s) {
        Ok((list, bare)) => names_exec(list, bare, s),
        Err(_) => Vec::new(),
    }
}

/// The value node holds a list that names `name`.
pub open spec fn listed_has(e: SyntaxNode, s: Seq<char>, name: Seq<char>) -> bool {
    &&& crate::nix::ast::is_expr_kind(e.kind)
    &&& match list_of(e, s) {
        Ok((list, bare)) => match_from(list, 0, name, bare, s) is Some,
        Err(_) => false,
    }
}

/// Whether the list at `option_path` of a parsed file names `pkg_name`, and
/// the byte offset of the list's value node (`remove_from_list`'s search
/// over definition sites): none when the option, or a list at it, is
/// missing.
pub fn package_hit(file: &NixFile, option_path: &str, pkg_name: &str) -> (r: Option<usize>)
    requires
        file.wf(),
    ensures
        match option_node(file.root, option_path@, file.source@) {
            Some(e) => (r is Some) == listed_has(e, file.source@, pkg_name@) && (r matches Some(b) ==> b == e.start),
            None => r is None,
        },
{
    let s = &file.chars;
    let node = match find_option(file, option_path) {
        Some(p) => p.node,
        None => return None,
    };
    if !crate::nix::ast::is_expr(node.kind) {
        return None;
    }
    match list_of_exec(node, s) {
        Ok((list, bare)) => {
            if match_exec(list, &chars_of(pkg_name), bare, s).is_some() {
                Some(node.start)
            } else {
                None
            }
        },
        Err(_) => None,
    }
}


/// The components of a path: its `/`-separated non-empty segments.
pub open spec fn path_components(p: Seq<char>) -> Seq<Seq<char>> {
    crate::nix::traversal::nonempty(crate::text::split_on(p, '/'))
}

/// `a` comes before `b` comparing component by component (the order of
/// paths), a proper prefix first.
pub open spec fn components_lt(a: Seq<Seq<char>>, b: Seq<Seq<char>>) -> bool
    decreases a.len(),
{
    if a.len() == 0 {
        b.len() > 0
    } else if b.len() == 0 {
        false
    } else if a[0] != b[0] {
        crate::text::lex_lt(a[0], b[0])
    } else {
        components_lt(a.drop_first(), b.drop_first())
    }
}

/// Candidate `a` is preferred to `b`: more items, or as many and an
/// earlier path.
pub open spec fn preferred(a: (Seq<char>, usize, usize, nat), b: (Seq<char>, usize, usize, nat)) -> bool {
    a.3 > b.3 || (a.3 == b.3 && components_lt(path_components(a.0), path_components(b.0)))
}

/// The index of the candidate chosen among `cs[..k]` (k at least 1): the
/// one with the most items, then the earliest path, then the first.
pub open spec fn chosen(cs: Seq<(Seq<char>, usize, usize, nat)>, k: int) -> int
    decreases k,
{
    if k <= 1 {
        0
    } else {
        let b = chosen(cs, k - 1);
        if preferred(cs[k - 1], cs[b]) {
            k - 1
        } else {
            b
        }
    }
}

proof fn lemma_chosen(cs: Seq<(Seq<char>, usize, usize, nat)>, k: int)
    requires
        1 <= k <= cs.len(),
    ensures
        0 <= chosen(cs, k) < k,
    decreases k,
{
    if k > 1 {
        lemma_chosen(cs, k - 1);
    }
}

fn components_lt_exec(a: &Vec<Vec<char>>, b: &Vec<Vec<char>>) -> (r: bool)
    ensures
        r == components_lt(views(a@), views(b@)),
{
    let mut i: usize = 0;
    assert(views(a@).skip(0) =~= views(a@));
    assert(views(b@).skip(0) =~= views(b@));
    while i < a.len() && i < b.len() && chars_eq(&a[i], &b[i])
        invariant
            i <= a@.len(),
            i <= b@.len(),
            components_lt(views(a@), views(b@)) == components_lt(views(a@).skip(i as int), views(b@).skip(i as int)),
        decreases a@.len() - i,
    {
        assert(views(a@).skip(i as int).drop_first() =~= views(a@).skip(i + 1));
        assert(views(b@).skip(i as int).drop_first() =~= views(b@).skip(i + 1));
        i += 1;
    }
    if i == a.len() {
        i < b.len()
    } else if i == b.len() {
        false
    } else {
        assert(views(a@).skip(i as int)[0] == a@[i as int]@);
        assert(views(b@).skip(i as int)[0] == b@[i as int]@);
        crate::text::lex_less(&a[i], &b[i])
    }
}

fn path_components_exec(p: &String) -> (r: Vec<Vec<char>>)
    ensures
        views(r@) == path_components(p@),
{
    let c = chars_of(p.as_str());
    let pieces = crate::text::split_on_exec(&c, '/');
    let ghost pv = views(pieces@);
    let mut out: Vec<Vec<char>> = Vec::new();
    for i in 0..pieces.len()
        invariant
            pv == views(pieces@),
            views(out@) == crate::nix::traversal::nonempty(pv.take(i as int)),
    {
        assert(pv.take(i + 1).drop_last() =~= pv.take(i as int));
        if pieces[i].len() > 0 {
            let ghost prev = views(out@);
            let x = slice_of(&pieces[i], 0, pieces[i].len());
            assert(x@ =~= pv[i as int]);
            out.push(x);
            assert(views(out@) =~= prev.push(pv[i as int]));
        }
    }
    assert(pv.take(pieces@.len() as int) =~= pv);
    out
}

/// Choose the file whose list an add or remove acts on, among the files
/// where the option is set: with a target file (its canonical form and the
/// path as given), the first candidate that is either; with none, the only
/// candidate, or the one with the most items (then the earliest path).
/// `ParseError` when there is no such candidate.
#[verifier::loop_isolation(false)]
pub fn select_candidate(
    candidates: &Vec<crate::nix::resolver::ResolvedCandidate>,
    target: Option<(String, String)>,
    option_path: &str,
) -> (r: Result<usize, PackageError>)
    ensures
        target matches Some(t) ==> match r {
            Ok(i) => i < candidates@.len() && (candidates@[i as int].file@ == t.0@ || candidates@[i as int].file@ == t.1@)
                && forall|j: int| 0 <= j < i ==> candidates@[j].file@ != t.0@ && candidates@[j].file@ != t.1@,
            Err(e) => (e matches PackageError::ParseError(m) && m@ == option_path@ + " not found in "@ + t.1@)
                && forall|j: int| 0 <= j < candidates@.len() ==> candidates@[j].file@ != t.0@ && candidates@[j].file@ != t.1@,
        },
        target is None ==> (
            if candidates@.len() == 0 {
                r matches Err(PackageError::ParseError(m)) && m@ == option_path@ + " not found in configuration"@
            } else {
                r matches Ok(i) && i == chosen(
                    candidates@.map_values(|c: crate::nix::resolver::ResolvedCandidate| crate::nix::resolver::candidate_view(c)),
                    candidates@.len() as int,
                )
            }),
{
    match target {
        Some((canon, given)) => {
            for i in 0..candidates.len()
                invariant
                    forall|j: int| 0 <= j < i ==> candidates@[j].file@ != canon@ && candidates@[j].file@ != given@,
            {
                let f = chars_of(candidates[i].file.as_str());
                if chars_eq(&f, &chars_of(canon.as_str())) || chars_eq(&f, &chars_of(given.as_str())) {
                    return Ok(i);
                }
            }
            let mut m = String::from_str(option_path);
            m.append(" not found in ");
            m.append(given.as_str());
            Err(PackageError::ParseError(m))
        },
        None => {
            if candidates.len() == 0 {
                let mut m = String::from_str(option_path);
                m.append(" not found in configuration");
                return Err(PackageError::ParseError(m));
            }
            let ghost cs = candidates@.map_values(|c: crate::nix::resolver::ResolvedCandidate| crate::nix::resolver::candidate_view(c));
            let mut best: usize = 0;
            let mut best_parts = path_components_exec(&candidates[0].file);
            let mut k: usize = 1;
            while k < candidates.len()
                invariant
                    1 <= k <= candidates@.len(),
                    cs == candidates@.map_values(|c: crate::nix::resolver::ResolvedCandidate| crate::nix::resolver::candidate_view(c)),
                    best == chosen(cs, k as int),
                    best < k,
                    views(best_parts@) == path_components(candidates@[best as int].file@),
                decreases candidates@.len() - k,
            {
                let kp = path_components_exec(&candidates[k].file);
                let better = candidates[k].item_count > candidates[best].item_count
                    || (candidates[k].item_count == candidates[best].item_count && components_lt_exec(&kp, &best_parts));
                if better {
                    best = k;
                    best_parts = kp;
                }
                k += 1;
            }
            Ok(best)
        },
    }
}

/// The outcome of removing a package without a target file, from the
/// definition sites whose list names it (file, source, byte offset of the
/// value): none gives `NotInConfig`; one, the index of that site; several,
/// `AmbiguousRemove` with each file and the line of its value.
pub fn removal_site(hits: &Vec<(String, String, usize)>, pkg_name: &str) -> (r: Result<usize, PackageError>)
    ensures
        hits@.len() == 0 ==> (r matches Err(PackageError::NotInConfig(n)) && n@ == pkg_name@),
        hits@.len() == 1 ==> r == Ok::<usize, PackageError>(0),
        hits@.len() > 1 ==> (r matches Err(PackageError::AmbiguousRemove(ps)) && ps@.len() == hits@.len()
            && forall|k: int| 0 <= k < hits@.len() ==> (#[trigger] ps@[k]).0@ == hits@[k].0@
                && ps@[k].1 == crate::nix::reader::line_col(hits@[k].1@, hits@[k].2 as int).0),
{
    if hits.len() == 0 {
        return Err(PackageError::NotInConfig(String::from_str(pkg_name)));
    }
    if hits.len() == 1 {
        return Ok(0);
    }
    let mut ps: Vec<(String, usize)> = Vec::new();
    for k in 0..hits.len()
        invariant
            ps@.len() == k,
            forall|j: int| 0 <= j < k ==> (#[trigger] ps@[j]).0@ == hits@[j].0@
                && ps@[j].1 == crate::nix::reader::line_col(hits@[j].1@, hits@[j].2 as int).0,
    {
        let (line, _) = crate::nix::reader::byte_offset_to_line_col(hits[k].1.as_str(), hits[k].2);
        ps.push((hits[k].0.clone(), line));
    }
    Err(PackageError::AmbiguousRemove(ps))
}

} // verus!

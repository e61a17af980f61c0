//! The rnix syntax tree of a Nix source text, held as plain values.
//!
//! `rnix` parses the text; its preorder walk (nodes and tokens, each entered
//! and left, with kind and byte range) comes back as a sequence of
//! [`SyntaxEvent`]s, from which [`build_tree`] rebuilds the tree as
//! [`SyntaxNode`] values whose preorder walk is that sequence.
use vstd::prelude::*;
use vstd::string::*;

verus! {

// Kinds of rnix's `SyntaxKind`, by their `u16` discriminant.
pub const TOKEN_FLOAT: u16 = 16;
pub const TOKEN_IDENT: u16 = 17;
pub const TOKEN_INTEGER: u16 = 22;
pub const TOKEN_R_BRACE: u16 = 45;
pub const TOKEN_R_BRACK: u16 = 46;
pub const TOKEN_URI: u16 = 56;
pub const NODE_APPLY: u16 = 59;
pub const NODE_ASSERT: u16 = 60;
pub const NODE_ATTR_SET: u16 = 61;
pub const NODE_ATTRPATH: u16 = 62;
pub const NODE_ATTRPATH_VALUE: u16 = 63;
pub const NODE_BIN_OP: u16 = 64;
pub const NODE_CUR_POS: u16 = 65;
pub const NODE_DYNAMIC: u16 = 66;
pub const NODE_ERROR: u16 = 67;
pub const NODE_HAS_ATTR: u16 = 68;
pub const NODE_IDENT: u16 = 69;
pub const NODE_IF_ELSE: u16 = 71;
pub const NODE_LAMBDA: u16 = 75;
pub const NODE_LEGACY_LET: u16 = 76;
pub const NODE_LET_IN: u16 = 77;
pub const NODE_LIST: u16 = 78;
pub const NODE_LITERAL: u16 = 79;
pub const NODE_PAREN: u16 = 80;
pub const NODE_PATH_ABS: u16 = 84;
pub const NODE_PATH_HOME: u16 = 85;
pub const NODE_PATH_REL: u16 = 86;
pub const NODE_PATH_SEARCH: u16 = 87;
pub const NODE_ROOT: u16 = 88;
pub const NODE_SELECT: u16 = 89;
pub const NODE_STRING: u16 = 90;
pub const NODE_UNARY_OP: u16 = 91;
pub const NODE_WITH: u16 = 92;

/// One step of the preorder walk of a syntax tree: entering or leaving a
/// node or token of the given kind and byte range.
#[derive(Debug, Clone, Copy, PartialEq, Eq)]
pub struct SyntaxEvent {
    pub enter: bool,
    pub kind: u16,
    pub start: usize,
    pub end: usize,
}

/// A node or token of a syntax tree (tokens have no children), with its
/// range in the source both in bytes (`start`, `end`) and in characters
/// (`cstart`, `cend`).
#[derive(Debug)]
pub struct SyntaxNode {
    pub kind: u16,
    pub start: usize,
    pub end: usize,
    pub cstart: usize,
    pub cend: usize,
    pub children: Vec<SyntaxNode>,
}

/// The index of the character that starts at byte offset `b` of the UTF-8
/// encoding of `s` (`s.len()` for the end), if `b` is a character boundary.
pub open spec fn char_index_of_byte(s: Seq<char>, b: int) -> Option<int>
    decreases s.len(),
{
    if b == 0 {
        Some(0)
    } else if s.len() == 0 || b < 0 {
        None
    } else {
        match char_index_of_byte(s.drop_first(), b - crate::text::char_utf8_len(s[0])) {
            Some(k) => Some(k + 1),
            None => None,
        }
    }
}

pub proof fn lemma_char_index_bound(s: Seq<char>, b: int)
    ensures
        char_index_of_byte(s, b) matches Some(k) ==> 0 <= k <= s.len(),
    decreases s.len(),
{
    if b != 0 && s.len() > 0 && b >= 0 {
        lemma_char_index_bound(s.drop_first(), b - crate::text::char_utf8_len(s[0]));
    }
}

/// Convert a byte offset of the UTF-8 encoding of `s` into a character
/// index, if it falls on a character boundary.
pub fn byte_to_char(s: &Vec<char>, b: usize) -> (r: Option<usize>)
    ensures
        match r {
            Some(k) => char_index_of_byte(s@, b as int) == Some(k as int) && k <= s@.len(),
            None => char_index_of_byte(s@, b as int) is None,
        },
{
    let mut k: usize = 0;
    let mut rest: usize = b;
    assert(s@.skip(0) =~= s@);
    while rest > 0 && k < s.len()
        invariant
            0 <= k <= s@.len(),
            char_index_of_byte(s@, b as int) == match char_index_of_byte(s@.skip(k as int), rest as int) {
                Some(j) => Some(j + k),
                None => None,
            },
        decreases s@.len() - k,
    {
        let w = crate::text::len_utf8(s[k]);
        assert(s@.skip(k as int).drop_first() =~= s@.skip(k + 1));
        if w > rest {
            proof {
                let t = s@.skip(k as int);
                assert(t[0] == s@[k as int]);
                lemma_char_index_neg(t.drop_first(), rest - w);
            }
            return None;
        }
        rest = rest - w;
        k += 1;
    }
    if rest == 0 {
        Some(k)
    } else {
        assert(s@.skip(k as int).len() == 0);
        None
    }
}

proof fn lemma_char_index_neg(s: Seq<char>, b: int)
    requires
        b < 0,
    ensures
        char_index_of_byte(s, b) is None,
{
}

/// The preorder walk of rnix's syntax tree for `source`.
pub uninterp spec fn rnix_walk(source: Seq<char>) -> Seq<SyntaxEvent>;

/// rnix's first parse error for `source`, if any: the start offset of its
/// range (for the errors that carry one) and its message.
pub uninterp spec fn rnix_first_error(source: Seq<char>) -> Option<(Option<usize>, Seq<char>)>;

/// The longest text, in characters, handed to rnix: below it the text has
/// fewer than 2^32 bytes, so no token or range overflows rnix's 32-bit text
/// sizes (rnix panics on a token of 2^32 bytes or more).
pub const MAX_PARSE_CHARS: usize = 0x4000_0000;

/// The message for a text too long to parse.
pub open spec fn too_large_message() -> Seq<char> {
    "source too large to parse"@
}

/// The first parse error of `source`: for a text of `MAX_PARSE_CHARS`
/// characters or more, a too-large error without a position; otherwise
/// rnix's first error, if any.
pub open spec fn parse_error_of(source: Seq<char>) -> Option<(Option<usize>, Seq<char>)> {
    if source.len() >= MAX_PARSE_CHARS {
        Some((None, too_large_message()))
    } else {
        rnix_first_error(source)
    }
}

/// Parse `source` with rnix and walk the tree in preorder
/// (`rnix::Root::parse` and rowan's `preorder_with_tokens`), each element
/// taken as its `SyntaxKind` discriminant and its byte range.
#[verifier::external_body]
pub(crate) fn walk_source(source: &str) -> (r: Vec<SyntaxEvent>)
    requires
        source@.len() < MAX_PARSE_CHARS,
    ensures
        r@ == rnix_walk(source@),
{
    rnix::Root::parse(source).syntax().preorder_with_tokens().map(|ev| {
        let (enter, el) = match ev {
            rnix::WalkEvent::Enter(el) => (true, el),
            rnix::WalkEvent::Leave(el) => (false, el),
        };
        let range = el.text_range();
        SyntaxEvent { enter, kind: el.kind() as u16, start: usize::from(range.start()), end: usize::from(range.end()) }
    }).collect()
}

/// The first error of rnix's parse of `source` (`rnix::Root::parse` and
/// `Parse::errors`): the start of its range when the error carries one,
/// and its `Display` text.
#[verifier::external_body]
pub(crate) fn first_parse_error(source: &str) -> (r: Option<(Option<usize>, String)>)
    requires
        source@.len() < MAX_PARSE_CHARS,
    ensures
        match r {
            None => rnix_first_error(source@) is None,
            Some((p, m)) => rnix_first_error(source@) == Some((p, m@)),
        },
{
    rnix::Root::parse(source).errors().first().map(|e| (match e {
        rnix::ParseError::Unexpected(r) | rnix::ParseError::UnexpectedExtra(r)
        | rnix::ParseError::UnexpectedWanted(_, r, _) | rnix::ParseError::UnexpectedDoubleBind(r)
        | rnix::ParseError::DuplicatedArgs(r, _) => Some(usize::from(r.start())),
        _ => None,
    }, e.to_string()))
}

/// The first parse error of `source` (see [`parse_error_of`]): a text too
/// long for rnix is refused before it reaches rnix.
pub fn source_error(source: &str) -> (r: Option<(Option<usize>, String)>)
    ensures
        match r {
            None => parse_error_of(source@) is None,
            Some((p, m)) => parse_error_of(source@) == Some((p, m@)),
        },
{
    let n = crate::text::chars_of(source).len();
    if n >= MAX_PARSE_CHARS {
        Some((None, String::from_str("source too large to parse")))
    } else {
        first_parse_error(source)
    }
}

/// The event entering `n`.
pub open spec fn enter_event(n: SyntaxNode) -> SyntaxEvent {
    SyntaxEvent { enter: true, kind: n.kind, start: n.start, end: n.end }
}

/// The event leaving `n`.
pub open spec fn leave_event(n: SyntaxNode) -> SyntaxEvent {
    SyntaxEvent { enter: false, kind: n.kind, start: n.start, end: n.end }
}

/// The preorder walk of a tree.
pub open spec fn walk(n: SyntaxNode) -> Seq<SyntaxEvent>
    decreases n,
{
    seq![enter_event(n)] + walk_all(n.children@) + seq![leave_event(n)]
}

/// The preorder walks of a sequence of trees, one after the other.
pub open spec fn walk_all(ns: Seq<SyntaxNode>) -> Seq<SyntaxEvent>
    decreases ns,
{
    if ns.len() == 0 {
        Seq::<SyntaxEvent>::empty()
    } else {
        walk_all(ns.drop_last()) + walk(ns.last())
    }
}

/// Every node of the tree has matching byte and character ranges in `s`,
/// each range ordered and within `s`.
pub open spec fn ranges_ok(n: SyntaxNode, s: Seq<char>) -> bool
    decreases n,
{
    &&& n.start <= n.end
    &&& n.cstart <= n.cend <= s.len()
    &&& char_index_of_byte(s, n.start as int) == Some(n.cstart as int)
    &&& char_index_of_byte(s, n.end as int) == Some(n.cend as int)
    &&& forall|i: int| 0 <= i < n.children@.len() ==> ranges_ok(#[trigger] n.children@[i], s)
    &&& forall|i: int| 0 <= i < n.children@.len() ==> nested_in(#[trigger] n.children@[i], n)
}

/// The range of `c` lies within that of `n`.
pub open spec fn nested_in(c: SyntaxNode, n: SyntaxNode) -> bool {
    n.start <= c.start && c.end <= n.end && n.cstart <= c.cstart && c.cend <= n.cend
}

/// The walk of `n` sits in `ev` from position `pos` on.
pub open spec fn walk_at(ev: Seq<SyntaxEvent>, pos: int, n: SyntaxNode) -> bool {
    0 <= pos && pos + walk(n).len() <= ev.len() && ev.subrange(pos, pos + walk(n).len()) == walk(n)
}

/// `src` has a tree whose preorder walk is `ev` and whose ranges fall on
/// character boundaries of `src`.
pub open spec fn has_tree(ev: Seq<SyntaxEvent>, src: Seq<char>) -> bool {
    exists|n: SyntaxNode| #[trigger] walk(n) == ev && ranges_ok(n, src)
}

proof fn lemma_walk_all_prefix(s: Seq<SyntaxNode>, j: int)
    requires
        0 <= j <= s.len(),
    ensures
        walk_all(s.take(j)).len() <= walk_all(s).len(),
        walk_all(s).take(walk_all(s.take(j)).len() as int) == walk_all(s.take(j)),
    decreases s.len(),
{
    if j == s.len() {
        assert(s.take(j) =~= s);
        assert(walk_all(s).take(walk_all(s).len() as int) =~= walk_all(s));
    } else {
        let d = s.drop_last();
        lemma_walk_all_prefix(d, j);
        assert(d.take(j) =~= s.take(j));
        let l = walk_all(s.take(j)).len() as int;
        assert(walk_all(s).take(l) =~= walk_all(d).take(l));
    }
}

proof fn lemma_walk_all_step(s: Seq<SyntaxNode>, k: int)
    requires
        0 <= k < s.len(),
    ensures
        walk_all(s.take(k + 1)) == walk_all(s.take(k)) + walk(s[k]),
{
    assert(s.take(k + 1).drop_last() =~= s.take(k));
    assert(s.take(k + 1).last() == s[k]);
}

/// Where the walk of a tree sits, the walk of its `k`-th child sits after
/// the entering event and the walks of the children before it.
proof fn lemma_child_at(ev: Seq<SyntaxEvent>, pos: int, n: SyntaxNode, k: int)
    requires
        walk_at(ev, pos, n),
        0 <= k < n.children@.len(),
    ensures
        walk_at(ev, pos + 1 + walk_all(n.children@.take(k)).len(), n.children@[k]),
{
    let s = n.children@;
    lemma_walk_all_prefix(s, k + 1);
    lemma_walk_all_step(s, k);
    let a = walk_all(s.take(k)).len() as int;
    let p = pos + 1 + a;
    let w = walk(s[k]);
    let wn = walk(n);
    let big = walk_all(s);
    let pre = walk_all(s.take(k + 1));
    assert(wn == seq![enter_event(n)] + big + seq![leave_event(n)]);
    assert forall|i: int| 0 <= i < w.len() implies ev.subrange(p, p + w.len())[i] == w[i] by {
        assert(pre[a + i] == w[i]);
        assert(big.take(pre.len() as int)[a + i] == big[a + i]);
        assert(wn[1 + a + i] == big[a + i]);
        assert(ev.subrange(pos, pos + wn.len())[1 + a + i] == ev[p + i]);
    }
    assert(ev.subrange(p, p + w.len()) =~= w);
}

/// Where the walk of a tree sits, it starts with the event entering it and
/// ends, after its children's walks, with the event leaving it.
proof fn lemma_ends_at(ev: Seq<SyntaxEvent>, pos: int, n: SyntaxNode)
    requires
        walk_at(ev, pos, n),
    ensures
        ev[pos] == enter_event(n),
        walk(n).len() == walk_all(n.children@).len() + 2,
        ev[pos + 1 + walk_all(n.children@).len()] == leave_event(n),
{
    let wn = walk(n);
    let l = wn.len() as int;
    assert(wn == seq![enter_event(n)] + walk_all(n.children@) + seq![leave_event(n)]);
    assert(ev.subrange(pos, pos + l)[0] == ev[pos]);
    assert(ev.subrange(pos, pos + l)[l - 1] == ev[pos + l - 1]);
}

/// A walk starts with the event entering its tree.
proof fn lemma_walk_first(n: SyntaxNode)
    ensures
        walk(n)[0] == enter_event(n),
{
}

/// Read the tree whose walk starts at `pos`, returning it and the position
/// after its walk; when `m`'s walk sits there with its ranges on character
/// boundaries, the walk read is as long as `m`'s.
fn build_node(ev: &Vec<SyntaxEvent>, pos: usize, src: &Vec<char>, Ghost(m): Ghost<SyntaxNode>) -> (r: Option<(SyntaxNode, usize)>)
    requires
        pos < ev.len(),
    ensures
        r matches Some((n, next)) ==> pos < next <= ev@.len() && walk(n) == ev@.subrange(
            pos as int,
            next as int,
        ) && ranges_ok(n, src@),
        walk_at(ev@, pos as int, m) && ranges_ok(m, src@) ==> (r matches Some((n, next)) && next == pos + walk(m).len()),
    decreases ev@.len() - pos,
{
    let ghost hm = walk_at(ev@, pos as int, m) && ranges_ok(m, src@);
    let ghost mc = m.children@;
    proof {
        if hm {
            lemma_ends_at(ev@, pos as int, m);
        }
    }
    let e = ev[pos];
    if !e.enter {
        return None;
    }
    let mut children: Vec<SyntaxNode> = Vec::new();
    let mut p = pos + 1;
    assert(mc.take(0) =~= Seq::<SyntaxNode>::empty());
    while p < ev.len() && ev[p].enter
        invariant
            pos < p <= ev@.len(),
            ev@.len() == ev.len(),
            walk_all(children@) == ev@.subrange(pos + 1, p as int),
            forall|i: int| 0 <= i < children@.len() ==> ranges_ok(#[trigger] children@[i], src@),
            hm == (walk_at(ev@, pos as int, m) && ranges_ok(m, src@)),
            mc == m.children@,
            hm ==> children@.len() <= mc.len() && p == pos + 1 + walk_all(mc.take(children@.len() as int)).len()
                && forall|i: int| 0 <= i < children@.len() ==> walk(#[trigger] children@[i]) == walk(mc[i]),
        decreases ev@.len() - p,
    {
        let ghost k = children@.len() as int;
        let ghost mk = if hm && k < mc.len() { mc[k] } else { m };
        proof {
            if hm {
                if k == mc.len() {
                    assert(mc.take(k) =~= mc);
                    lemma_ends_at(ev@, pos as int, m);
                    assert(false);
                }
                lemma_child_at(ev@, pos as int, m, k);
                assert(ranges_ok(mk, src@));
            }
        }
        match build_node(ev, p, src, Ghost(mk)) {
            Some((c, q)) => {
                let ghost prev = children@;
                children.push(c);
                assert(children@.drop_last() == prev);
                assert(ev@.subrange(pos + 1, q as int) =~= ev@.subrange(pos + 1, p as int)
                    + ev@.subrange(p as int, q as int));
                proof {
                    if hm {
                        lemma_walk_all_step(mc, k);
                        assert(walk(children@[k]) == walk(mc[k]));
                        assert forall|i: int| 0 <= i < children@.len() implies walk(#[trigger] children@[i]) == walk(mc[i]) by {
                            if i < k {
                                assert(children@[i] == prev[i]);
                            }
                        }
                    }
                }
                p = q;
            },
            None => {
                return None;
            },
        }
    }
    proof {
        if hm {
            let k = children@.len() as int;
            if k < mc.len() {
                lemma_child_at(ev@, pos as int, m, k);
                lemma_walk_first(mc[k]);
                assert(ev@.subrange(p as int, p + walk(mc[k]).len())[0] == ev@[p as int]);
                assert(false);
            }
            assert(mc.take(k) =~= mc);
            lemma_ends_at(ev@, pos as int, m);
        }
    }
    if p >= ev.len() {
        return None;
    }
    let l = ev[p];
    if l.enter || l.kind != e.kind || l.start != e.start || l.end != e.end || e.start > e.end {
        return None;
    }
    let cs = match byte_to_char(src, e.start) {
        Some(c) => c,
        None => return None,
    };
    let ce = match byte_to_char(src, e.end) {
        Some(c) => c,
        None => return None,
    };
    if cs > ce {
        return None;
    }
    let mut k: usize = 0;
    while k < children.len()
        invariant
            k <= children@.len(),
            forall|i: int| 0 <= i < k ==> (#[trigger] children@[i]).start >= e.start && children@[i].end <= e.end
                && children@[i].cstart >= cs && children@[i].cend <= ce,
            forall|i: int| 0 <= i < children@.len() ==> ranges_ok(#[trigger] children@[i], src@),
            hm == (walk_at(ev@, pos as int, m) && ranges_ok(m, src@)),
            hm ==> ranges_ok(m, src@) && children@.len() == mc.len() && mc == m.children@
                && e == enter_event(m) && cs == m.cstart && ce == m.cend
                && forall|i: int| 0 <= i < children@.len() ==> walk(#[trigger] children@[i]) == walk(mc[i]),
        decreases children@.len() - k,
    {
        let c = &children[k];
        proof {
            if hm {
                let ki = k as int;
                lemma_walk_first(children@[ki]);
                lemma_walk_first(mc[ki]);
                assert(walk(children@[ki]) == walk(mc[ki]));
                assert(enter_event(children@[ki]) == enter_event(mc[ki]));
                assert(ranges_ok(mc[ki], src@));
                assert(ranges_ok(children@[ki], src@));
                assert(nested_in(mc[ki], m));
                assert(c.start == mc[ki].start && c.end == mc[ki].end);
                assert(c.cstart == mc[ki].cstart && c.cend == mc[ki].cend);
                assert(e.start == m.start && e.end == m.end);
                assert(cs == m.cstart && ce == m.cend);
                assert(m.start <= mc[ki].start);
                assert(mc[ki].end <= m.end);
                assert(m.cstart <= mc[ki].cstart);
                assert(mc[ki].cend <= m.cend);
            }
        }
        if c.start < e.start || c.end > e.end || c.cstart < cs || c.cend > ce {
            return None;
        }
        k += 1;
    }
    let n = SyntaxNode { kind: e.kind, start: e.start, end: e.end, cstart: cs, cend: ce, children };
    assert(forall|i: int| 0 <= i < n.children@.len() ==> nested_in(#[trigger] n.children@[i], n));
    assert(walk(n) =~= ev@.subrange(pos as int, p + 1));
    Some((n, p + 1))
}

/// The tree whose preorder walk is `ev`, when `ev` is the walk of a tree
/// whose ranges fall on character boundaries of `src`; none otherwise.
pub fn build_tree(ev: &Vec<SyntaxEvent>, src: &Vec<char>) -> (r: Option<SyntaxNode>)
    ensures
        r matches Some(n) ==> walk(n) == ev@ && ranges_ok(n, src@),
        r is Some <==> has_tree(ev@, src@),
{
    let ghost m = choose|n: SyntaxNode| #[trigger] walk(n) == ev@ && ranges_ok(n, src@);
    proof {
        if has_tree(ev@, src@) {
            assert(ev@.subrange(0, walk(m).len() as int) =~= ev@);
            lemma_walk_first(m);
        }
    }
    if ev.len() == 0 {
        return None;
    }
    match build_node(ev, 0, src, Ghost(m)) {
        Some((n, next)) => {
            if next == ev.len() {
                assert(ev@.subrange(0, ev@.len() as int) == ev@);
                Some(n)
            } else {
                None
            }
        },
        None => None,
    }
}

} // verus!

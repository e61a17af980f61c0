//! Editing Nix source text in place: replacing a value, removing an option.
//! Only the edited characters change; everything else is kept as it was.
use vstd::prelude::*;
use vstd::string::*;
use crate::text::{chars_of, push_all, slice_of, string_from, views};
use crate::nix::ast::{attr_names, attr_names_exec, lemma_nth_from, nth_child, nth_child_exec, within, Class};
use crate::nix::format::{nix_text, value_to_nix, NixValue};
use crate::nix::reader::{
    NixFile, lemma_ranges_within, parse_error_text, parse_string, syntax_error_text, validate_source,
    NixParseError,
};
use crate::nix::syntax::{
    byte_to_char, char_index_of_byte, parse_error_of, SyntaxNode, NODE_ATTR_SET, NODE_ATTRPATH,
    NODE_ATTRPATH_VALUE,
};
use crate::nix::traversal::{
    entry_parts, lemma_peel_within, path_parts, path_parts_exec, root_attrset, root_attrset_exec,
    TextRange,
};

verus! {

/// Errors of editing Nix source.
#[derive(Debug)]
pub enum WriteError {
    /// The range is out of bounds or not on character boundaries.
    InvalidRange,
    /// The value or path could not be written.
    SerializationFailed(String),
    /// The edited source is not valid Nix.
    ValidationFailed(String),
    /// No place to insert or remove at was found.
    InsertionPointNotFound,
}

/// The display text of a write error.
pub open spec fn write_error_text(e: WriteError) -> Seq<char> {
    match e {
        WriteError::InvalidRange => "invalid text range"@,
        WriteError::SerializationFailed(m) => "serialization failed: "@ + m@,
        WriteError::ValidationFailed(m) => "validation failed: "@ + m@,
        WriteError::InsertionPointNotFound => "no suitable insertion or removal point found"@,
    }
}

impl WriteError {
    /// The error's display text.
    pub fn message(&self) -> (r: String)
        ensures
            r@ == write_error_text(*self),
    {
        match self {
            WriteError::InvalidRange => String::from_str("invalid text range"),
            WriteError::SerializationFailed(m) => {
                let mut r = String::from_str("serialization failed: ");
                r.append(m.as_str());
                r
            },
            WriteError::ValidationFailed(m) => {
                let mut r = String::from_str("validation failed: ");
                r.append(m.as_str());
                r
            },
            WriteError::InsertionPointNotFound => String::from_str("no suitable insertion or removal point found"),
        }
    }
}

/// `s` with the characters from `a` to `b` replaced by `t`.
pub open spec fn splice(s: Seq<char>, a: int, b: int, t: Seq<char>) -> Seq<char> {
    s.take(a) + t + s.skip(b)
}

/// Inserting a run at `p` and then cutting the text from `p` to the end of
/// that run gives the text back: when removal ([`remove_option`], or a
/// package removal) cuts exactly the run an insertion ([`add_option`], or a
/// package addition) put in, the source is restored.
pub proof fn law_cut_inserted_run(s: Seq<char>, p: int, ins: Seq<char>)
    requires
        0 <= p <= s.len(),
    ensures
        splice(s, p, p, ins).take(p) + splice(s, p, p, ins).skip(p + ins.len()) == s,
{
    let t = splice(s, p, p, ins);
    assert(t.take(p) =~= s.take(p));
    assert(t.skip(p + ins.len()) =~= s.skip(p));
    assert(s.take(p) + s.skip(p) =~= s);
}

/// `s` with the characters from `a` to `b` replaced by `t`.
pub fn splice_exec(s: &Vec<char>, a: usize, b: usize, t: &Vec<char>) -> (r: Vec<char>)
    requires
        a <= b <= s@.len(),
    ensures
        r@ == splice(s@, a as int, b as int, t@),
{
    let mut r = slice_of(s, 0, a);
    push_all(&mut r, t);
    push_all(&mut r, &slice_of(s, b, s.len()));
    assert(s@.subrange(0, a as int) =~= s@.take(a as int));
    assert(s@.subrange(b as int, s@.len() as int) =~= s@.skip(b as int));
    r
}

/// The result of replacing the byte range `start..end` of `src` with the
/// Nix text of `v`: the characters at those boundaries spliced, when both
/// are character boundaries in order.
pub open spec fn replaced(src: Seq<char>, start: usize, end: usize, v: crate::nix::format::NixVal) -> Option<Seq<char>> {
    match (char_index_of_byte(src, start as int), char_index_of_byte(src, end as int)) {
        (Some(a), Some(b)) => if start <= end {
            Some(splice(src, a, b, nix_text(v)))
        } else {
            None
        },
        _ => None,
    }
}

/// Replace the node at byte range `node_range` of `source` with the Nix
/// text of `new_value`, leaving every other character as it was. The range
/// must be ordered and fall on character boundaries (else `InvalidRange`);
/// the edited text must parse (else `ValidationFailed` with the syntax
/// error).
pub fn set_value(source: &str, node_range: TextRange, new_value: &NixValue) -> (r: Result<String, WriteError>)
    ensures
        match replaced(source@, node_range.start, node_range.end, new_value@) {
            None => r matches Err(WriteError::InvalidRange),
            Some(t) => match r {
                Ok(s) => s@ == t && parse_error_of(t) is None,
                Err(WriteError::ValidationFailed(m)) => syntax_error_text(t) == Some(m@),
                _ => false,
            },
        },
{
    let chars = chars_of(source);
    let a = match byte_to_char(&chars, node_range.start) {
        Some(a) => a,
        None => return Err(WriteError::InvalidRange),
    };
    let b = match byte_to_char(&chars, node_range.end) {
        Some(b) => b,
        None => return Err(WriteError::InvalidRange),
    };
    if node_range.start > node_range.end {
        return Err(WriteError::InvalidRange);
    }
    proof { lemma_char_index_mono(chars@, node_range.start as int, node_range.end as int); }
    let text = chars_of(value_to_nix(new_value).as_str());
    let result = string_from(&splice_exec(&chars, a, b, &text));
    match validate_source(result.as_str()) {
        Ok(()) => Ok(result),
        Err(m) => Err(WriteError::ValidationFailed(m)),
    }
}

/// Replacing a value by a value with the same text gives back the source
/// unchanged: only the replaced characters can change.
pub proof fn law_same_text_keeps_source(src: Seq<char>, start: usize, end: usize, v: crate::nix::format::NixVal)
    requires
        start <= end,
        char_index_of_byte(src, start as int) matches Some(a) && char_index_of_byte(src, end as int) matches Some(b)
            && a <= b && nix_text(v) == src.subrange(a, b),
    ensures
        replaced(src, start, end, v) == Some(src),
{
    let a = char_index_of_byte(src, start as int).unwrap();
    let b = char_index_of_byte(src, end as int).unwrap();
    crate::nix::syntax::lemma_char_index_bound(src, start as int);
    crate::nix::syntax::lemma_char_index_bound(src, end as int);
    assert(src.take(a) + src.subrange(a, b) + src.skip(b) =~= src);
}

/// A replacement keeps every character before the replaced range and
/// after it.
pub proof fn law_replacement_keeps_surroundings(src: Seq<char>, start: usize, end: usize, v: crate::nix::format::NixVal)
    requires
        replaced(src, start, end, v) is Some,
    ensures
        ({
            let a = char_index_of_byte(src, start as int).unwrap();
            let b = char_index_of_byte(src, end as int).unwrap();
            let t = replaced(src, start, end, v).unwrap();
            &&& t.take(a) == src.take(a)
            &&& t.skip(a + nix_text(v).len()) == src.skip(b)
        }),
{
    let a = char_index_of_byte(src, start as int).unwrap();
    let b = char_index_of_byte(src, end as int).unwrap();
    crate::nix::syntax::lemma_char_index_bound(src, start as int);
    crate::nix::syntax::lemma_char_index_bound(src, end as int);
    lemma_char_index_mono(src, start as int, end as int);
    let t = replaced(src, start, end, v).unwrap();
    assert(t.take(a) =~= src.take(a));
    assert(t.skip(a + nix_text(v).len()) =~= src.skip(b));
}

proof fn lemma_char_index_mono(s: Seq<char>, x: int, y: int)
    requires
        x <= y,
        char_index_of_byte(s, x) is Some,
        char_index_of_byte(s, y) is Some,
    ensures
        char_index_of_byte(s, x).unwrap() <= char_index_of_byte(s, y).unwrap(),
    decreases s.len(),
{
    crate::nix::syntax::lemma_char_index_bound(s, y);
    if x != 0 && s.len() > 0 {
        lemma_char_index_mono(s.drop_first(), x - crate::text::char_utf8_len(s[0]), y - crate::text::char_utf8_len(s[0]));
    }
}

// ---------------------------------------------------------------------------
// Removing an option
// ---------------------------------------------------------------------------

/// The chain of (attribute set, entry) pairs that leads to the entry whose
/// key is `rem` within `set`, outermost first (`find_attrpath_value`):
/// entries are tried in order; an entry without an attribute path or a
/// value ends the search with nothing; an entry with no readable key is
/// passed over; an entry whose key is a proper prefix of `rem` and whose
/// value is an attribute set leads the search into that set.
pub open spec fn find_av(set: SyntaxNode, rem: Seq<Seq<char>>, src: Seq<char>) -> Option<Seq<(SyntaxNode, SyntaxNode)>>
    decreases set, set.children@.len() + 1,
{
    find_av_from(set, 0, rem, src)
}

/// [`find_av`] over the entries from child `i` on.
pub open spec fn find_av_from(set: SyntaxNode, i: int, rem: Seq<Seq<char>>, src: Seq<char>) -> Option<Seq<(SyntaxNode, SyntaxNode)>>
    decreases set, set.children@.len() - i,
{
    if i < 0 || i >= set.children@.len() {
        None
    } else {
        let e = set.children@[i];
        if e.kind != NODE_ATTRPATH_VALUE {
            find_av_from(set, i + 1, rem, src)
        } else {
            match entry_parts(e) {
                Some((a, b)) => {
                    proof {
                        lemma_nth_from(e.children@, Class::Kind(NODE_ATTRPATH), 0, 0);
                        lemma_nth_from(e.children@, Class::Expr, 0, 0);
                        assert(decreases_to!(set => e));
                        assert(decreases_to!(e => e.children@[b]));
                    }
                    let keys = attr_names(e.children@[a], src);
                    let v = e.children@[b];
                    if keys.len() == 0 {
                        find_av_from(set, i + 1, rem, src)
                    } else if keys == rem {
                        Some(seq![(set, e)])
                    } else if rem.len() > keys.len() && keys.is_prefix_of(rem) && v.kind == NODE_ATTR_SET {
                        match find_av(v, rem.skip(keys.len() as int), src) {
                            Some(ch) => Some(seq![(set, e)] + ch),
                            None => None,
                        }
                    } else {
                        find_av_from(set, i + 1, rem, src)
                    }
                },
                None => None,
            }
        }
    }
}

/// The number of entries (`AttrpathValue` children) of a node, from child
/// `i` on.
pub open spec fn entry_count_from(n: SyntaxNode, i: int) -> nat
    decreases n.children@.len() - i,
{
    if i < 0 || i >= n.children@.len() {
        0
    } else {
        entry_count_from(n, i + 1) + if n.children@[i].kind == NODE_ATTRPATH_VALUE { 1nat } else { 0nat }
    }
}

/// The index in the chain of the entry to remove: from the innermost, move
/// out while the entry is the only one of its set and that set is the value
/// of an outer entry.
pub open spec fn removal_index(ch: Seq<(SyntaxNode, SyntaxNode)>, idx: int) -> int
    decreases idx,
{
    if idx > 0 && entry_count_from(ch[idx].0, 0) == 1 {
        removal_index(ch, idx - 1)
    } else {
        idx
    }
}

/// Which binding a removal takes, along the chain of sets leading to the
/// option (`ch[k].0` the set holding the `k`-th binding of the path, each
/// inner set the value of the binding before it): it moves out past every
/// set that holds only the binding being removed, and stops at the
/// outermost set or at one that keeps another entry. So every set between
/// the removed binding and the option goes with it, and no set that is the
/// value of a binding is left empty, whatever the depth.
pub proof fn law_removal_cascades_through_single_entry_sets(ch: Seq<(SyntaxNode, SyntaxNode)>, idx: int)
    requires
        0 <= idx < ch.len(),
    ensures
        0 <= removal_index(ch, idx) <= idx,
        forall|k: int| removal_index(ch, idx) < k <= idx ==> entry_count_from(#[trigger] ch[k].0, 0) == 1,
        removal_index(ch, idx) > 0 ==> entry_count_from(ch[removal_index(ch, idx)].0, 0) != 1,
    decreases idx,
{
    if idx > 0 && entry_count_from(ch[idx].0, 0) == 1 {
        law_removal_cascades_through_single_entry_sets(ch, idx - 1);
    }
}

/// Where a `;` after the entry ends: past the `;` when only spaces and tabs
/// come between, else the entry's end.
pub open spec fn semi_end(s: Seq<char>, j: int, av_end: int) -> int
    decreases s.len() - j,
{
    if j < 0 || j >= s.len() {
        av_end
    } else if s[j] == ';' {
        j + 1
    } else if s[j] == ' ' || s[j] == '\t' {
        semi_end(s, j + 1, av_end)
    } else {
        av_end
    }
}

/// Only spaces and tabs.
pub open spec fn blank(s: Seq<char>) -> bool {
    forall|i: int| 0 <= i < s.len() ==> (#[trigger] s[i]) == ' ' || s[i] == '\t'
}

/// Where the removal starts: at the start of the entry's line when only
/// indentation precedes the entry there, else at the entry.
pub open spec fn removal_start(s: Seq<char>, av_start: int) -> int {
    let prefix = s.take(av_start);
    match crate::nix::reader::last_newline(prefix) {
        Some(nl) => if blank(prefix.skip(nl + 1)) {
            nl + 1
        } else {
            av_start
        },
        None => if blank(prefix) {
            0
        } else {
            av_start
        },
    }
}

/// Where the removal ends: past the line's newline when only whitespace
/// (spaces, tabs, carriage returns) follows up to it, at the end of the text
/// when only such whitespace follows, else right after the `;`.
pub open spec fn removal_end(s: Seq<char>, j: int, semi: int) -> int
    decreases s.len() - j,
{
    if j < 0 || j >= s.len() {
        s.len() as int
    } else if s[j] == '\n' {
        j + 1
    } else if s[j] == '\r' || s[j] == ' ' || s[j] == '\t' {
        removal_end(s, j + 1, semi)
    } else {
        semi
    }
}

/// The characters removed for an entry: its line's indentation, the entry,
/// its `;` and the rest of its line when only whitespace.
pub open spec fn removal_range(s: Seq<char>, av: SyntaxNode) -> (int, int) {
    let se = semi_end(s, av.cend as int, av.cend as int);
    (removal_start(s, av.cstart as int), removal_end(s, se, se))
}

/// The source without the option at the path's segments, when the file's
/// root attribute set has it (none otherwise).
pub open spec fn removed_text(root: SyntaxNode, parts: Seq<Seq<char>>, s: Seq<char>) -> Option<Seq<char>> {
    match root_attrset(root) {
        Some(set) => match find_av(set, parts, s) {
            Some(ch) => {
                let av = ch[removal_index(ch, ch.len() - 1)].1;
                let (a, b) = removal_range(s, av);
                Some(s.take(a) + s.skip(b))
            },
            None => None,
        },
        None => None,
    }
}


/// The chain as plain nodes.
pub open spec fn chain_view<'a>(v: Seq<(&'a SyntaxNode, &'a SyntaxNode)>) -> Seq<(SyntaxNode, SyntaxNode)> {
    v.map_values(|p: (&'a SyntaxNode, &'a SyntaxNode)| (*p.0, *p.1))
}

fn keys_eq(a: &Vec<Vec<char>>, b: &[Vec<char>]) -> (r: bool)
    ensures
        r == (views(a@) == b@.map_values(|x: Vec<char>| x@)),
{
    if a.len() != b.len() {
        assert(views(a@).len() != b@.map_values(|x: Vec<char>| x@).len());
        return false;
    }
    for i in 0..a.len()
        invariant
            a@.len() == b@.len(),
            forall|j: int| 0 <= j < i ==> a@[j]@ == b@[j]@,
    {
        if !crate::text::chars_eq(&a[i], &b[i]) {
            assert(views(a@)[i as int] != b@.map_values(|x: Vec<char>| x@)[i as int]);
            return false;
        }
    }
    assert(views(a@) =~= b@.map_values(|x: Vec<char>| x@));
    true
}

fn keys_proper_prefix(a: &Vec<Vec<char>>, b: &[Vec<char>]) -> (r: bool)
    ensures
        r == (b@.len() > a@.len() && views(a@).is_prefix_of(b@.map_values(|x: Vec<char>| x@))),
{
    if b.len() <= a.len() {
        return false;
    }
    for i in 0..a.len()
        invariant
            a@.len() < b@.len(),
            forall|j: int| 0 <= j < i ==> a@[j]@ == b@[j]@,
    {
        if !crate::text::chars_eq(&a[i], &b[i]) {
            assert(views(a@)[i as int] != b@.map_values(|x: Vec<char>| x@)[i as int]);
            return false;
        }
    }
    true
}

/// [`find_av`], as references into the tree.
fn find_av_exec<'a>(set: &'a SyntaxNode, rem: &[Vec<char>], src: &Vec<char>) -> (r: Option<Vec<(&'a SyntaxNode, &'a SyntaxNode)>>)
    requires
        within(*set, src@),
    ensures
        match r {
            Some(v) => find_av(*set, rem@.map_values(|x: Vec<char>| x@), src@) == Some(chain_view(v@))
                && forall|k: int| 0 <= k < v@.len() ==> within(*(#[trigger] v@[k]).0, src@) && within(*v@[k].1, src@),
            None => find_av(*set, rem@.map_values(|x: Vec<char>| x@), src@) is None,
        },
    decreases set, set.children@.len() + 1,
{
    let ghost rv = rem@.map_values(|x: Vec<char>| x@);
    let mut i: usize = 0;
    while i < set.children.len()
        invariant
            0 <= i <= set.children@.len(),
            within(*set, src@),
            rv == rem@.map_values(|x: Vec<char>| x@),
            find_av(*set, rv, src@) == find_av_from(*set, i as int, rv, src@),
        decreases set.children@.len() - i,
    {
        let e = &set.children[i];
        assert(within(*e, src@));
        if e.kind == NODE_ATTRPATH_VALUE {
            let a = nth_child_exec(e, Class::Kind(NODE_ATTRPATH), 0);
            let b = nth_child_exec(e, Class::Expr, 0);
            match (a, b) {
                (Some(a), Some(b)) => {
                    assert(within(e.children@[a as int], src@));
                    assert(within(e.children@[b as int], src@));
                    let keys = attr_names_exec(&e.children[a], src);
                    let v = &e.children[b];
                    if keys.len() > 0 {
                        if keys_eq(&keys, rem) {
                            let mut out: Vec<(&'a SyntaxNode, &'a SyntaxNode)> = Vec::new();
                            out.push((set, e));
                            assert(chain_view(out@) =~= seq![(*set, *e)]);
                            return Some(out);
                        }
                        if keys_proper_prefix(&keys, rem) && v.kind == NODE_ATTR_SET {
                            proof {
                                assert(decreases_to!(*set => *e));
                                assert(decreases_to!(*e => *v));
                                assert(rem@.skip(keys@.len() as int).map_values(|x: Vec<char>| x@) =~= rv.skip(keys@.len() as int));
                            }
                            let sub = find_av_exec(v, vstd::slice::slice_subrange(rem, keys.len(), rem.len()), src);
                            match sub {
                                Some(ch) => {
                                    let mut out: Vec<(&'a SyntaxNode, &'a SyntaxNode)> = Vec::new();
                                    out.push((set, e));
                                    let mut k: usize = 0;
                                    while k < ch.len()
                                        invariant
                                            k <= ch@.len(),
                                            within(*set, src@),
                                            within(*e, src@),
                                            forall|j: int| 0 <= j < ch@.len() ==> within(*(#[trigger] ch@[j]).0, src@) && within(*ch@[j].1, src@),
                                            chain_view(out@) == seq![(*set, *e)] + chain_view(ch@).take(k as int),
                                            forall|j: int| 0 <= j < out@.len() ==> within(*(#[trigger] out@[j]).0, src@) && within(*out@[j].1, src@),
                                        decreases ch@.len() - k,
                                    {
                                        let ghost prev = chain_view(out@);
                                        out.push(ch[k]);
                                        assert(chain_view(out@) =~= prev.push((*ch@[k as int].0, *ch@[k as int].1)));
                                        assert(chain_view(ch@).take(k + 1) =~= chain_view(ch@).take(k as int).push((*ch@[k as int].0, *ch@[k as int].1)));
                                        k += 1;
                                    }
                                    assert(chain_view(ch@).take(ch@.len() as int) =~= chain_view(ch@));
                                    return Some(out);
                                },
                                None => {
                                    return None;
                                },
                            }
                        }
                    }
                },
                _ => {
                    return None;
                },
            }
        }
        i += 1;
    }
    None
}

fn entry_count_exec(n: &SyntaxNode) -> (c: usize)
    ensures
        c == entry_count_from(*n, 0),
{
    let mut c: usize = 0;
    let mut i: usize = n.children.len();
    while i > 0
        invariant
            i <= n.children@.len(),
            c == entry_count_from(*n, i as int),
            c <= n.children@.len() - i,
        decreases i,
    {
        assert(n.children@.len() == n.children.len());
        if n.children[i - 1].kind == NODE_ATTRPATH_VALUE {
            c += 1;
        }
        i -= 1;
    }
    c
}

fn removal_index_exec<'a>(ch: &Vec<(&'a SyntaxNode, &'a SyntaxNode)>) -> (r: usize)
    requires
        ch@.len() > 0,
    ensures
        r < ch@.len(),
        r == removal_index(chain_view(ch@), ch@.len() - 1),
{
    let ghost cv = chain_view(ch@);
    let mut idx: usize = ch.len() - 1;
    while idx > 0 && entry_count_exec(ch[idx].0) == 1
        invariant
            idx < ch@.len(),
            cv == chain_view(ch@),
            removal_index(cv, ch@.len() - 1) == removal_index(cv, idx as int),
        decreases idx,
    {
        idx -= 1;
    }
    idx
}

fn semi_end_exec(s: &Vec<char>, av_end: usize) -> (r: usize)
    requires
        av_end <= s@.len(),
    ensures
        r == semi_end(s@, av_end as int, av_end as int),
        av_end <= r <= s@.len(),
{
    let mut j = av_end;
    while j < s.len() && (s[j] == ' ' || s[j] == '\t')
        invariant
            av_end <= j <= s@.len(),
            semi_end(s@, av_end as int, av_end as int) == semi_end(s@, j as int, av_end as int),
        decreases s@.len() - j,
    {
        j += 1;
    }
    if j < s.len() && s[j] == ';' {
        j + 1
    } else {
        av_end
    }
}

fn removal_start_exec(s: &Vec<char>, av_start: usize) -> (r: usize)
    requires
        av_start <= s@.len(),
    ensures
        r == removal_start(s@, av_start as int),
        r <= av_start,
{
    let ghost prefix = s@.take(av_start as int);
    let mut j = av_start;
    let mut all_blank = true;
    assert(prefix.take(prefix.len() as int) =~= prefix);
    // Scan back for the last newline, noting whether only blanks follow it.
    while j > 0 && s[j - 1] != '\n'
        invariant
            j <= av_start <= s@.len(),
            prefix == s@.take(av_start as int),
            crate::nix::reader::last_newline(prefix) == crate::nix::reader::last_newline(prefix.take(j as int)),
            all_blank == blank(prefix.skip(j as int)),
        decreases j,
    {
        assert(prefix.take(j as int).drop_last() =~= prefix.take(j - 1));
        let c = s[j - 1];
        proof {
            assert(prefix[j - 1] == c);
            assert(prefix.skip(j - 1) =~= seq![c] + prefix.skip(j as int));
            lemma_blank_cons(c, prefix.skip(j as int));
        }
        all_blank = all_blank && (c == ' ' || c == '\t');
        j -= 1;
    }
    if j > 0 {
        assert(prefix.take(j as int).last() == '\n');
        if all_blank {
            j
        } else {
            av_start
        }
    } else {
        assert(prefix.take(0).len() == 0);
        assert(prefix.skip(0) =~= prefix);
        if all_blank {
            0
        } else {
            av_start
        }
    }
}

proof fn lemma_blank_cons(c: char, rest: Seq<char>)
    ensures
        blank(seq![c] + rest) == ((c == ' ' || c == '\t') && blank(rest)),
{
    let t = seq![c] + rest;
    if blank(t) {
        assert(t[0] == c);
        assert forall|i: int| 0 <= i < rest.len() implies (#[trigger] rest[i]) == ' ' || rest[i] == '\t' by {
            assert(t[i + 1] == rest[i]);
        }
    }
    if (c == ' ' || c == '\t') && blank(rest) {
        assert forall|i: int| 0 <= i < t.len() implies (#[trigger] t[i]) == ' ' || t[i] == '\t' by {
            if i > 0 {
                assert(t[i] == rest[i - 1]);
            }
        }
    }
}

fn removal_end_exec(s: &Vec<char>, semi: usize) -> (r: usize)
    requires
        semi <= s@.len(),
    ensures
        r == removal_end(s@, semi as int, semi as int),
        semi <= r <= s@.len(),
{
    let mut j = semi;
    while j < s.len() && (s[j] == '\r' || s[j] == ' ' || s[j] == '\t')
        invariant
            semi <= j <= s@.len(),
            removal_end(s@, semi as int, semi as int) == removal_end(s@, j as int, semi as int),
        decreases s@.len() - j,
    {
        j += 1;
    }
    if j >= s.len() {
        s.len()
    } else if s[j] == '\n' {
        j + 1
    } else {
        semi
    }
}

/// The source without the option at the path's segments in a parsed file:
/// the entry found as `find_option` does, moved out through sets it would
/// leave empty, removed with its line's indentation, its `;` and the rest
/// of its line when only whitespace; `InsertionPointNotFound` when the
/// option is not there, `ValidationFailed` when the result does not parse.
pub fn remove_option_in(file: &NixFile, parts: &Vec<Vec<char>>) -> (r: Result<String, WriteError>)
    requires
        file.wf(),
    ensures
        match removed_text(file.root, views(parts@), file.source@) {
            None => r matches Err(WriteError::InsertionPointNotFound),
            Some(t) => match r {
                Ok(s) => s@ == t && parse_error_of(t) is None,
                Err(WriteError::ValidationFailed(m)) => syntax_error_text(t) == Some(m@),
                _ => false,
            },
        },
        r matches Ok(s) ==> exists|a: int, b: int|
            0 <= a <= b <= file.source@.len() && s@ == #[trigger] file.source@.take(a) + #[trigger] file.source@.skip(b),
{
    proof {
        lemma_ranges_within(file.root, file.source@);
        lemma_peel_within(file.root, file.chars@);
    }
    let set = match root_attrset_exec(&file.root) {
        Some(s) => s,
        None => return Err(WriteError::InsertionPointNotFound),
    };
    let ch = match find_av_exec(set, parts.as_slice(), &file.chars) {
        Some(ch) => ch,
        None => return Err(WriteError::InsertionPointNotFound),
    };
    let ghost cv = chain_view(ch@);
    proof {
        lemma_find_av_nonempty(*set, views(parts@), file.source@);
    }
    let idx = removal_index_exec(&ch);
    let av = ch[idx].1;
    assert(within(*av, file.chars@));
    let src = &file.chars;
    let se = semi_end_exec(src, av.cend);
    let a = removal_start_exec(src, av.cstart);
    let b = removal_end_exec(src, se);
    let mut out = slice_of(src, 0, a);
    push_all(&mut out, &slice_of(src, b, src.len()));
    assert(src@.subrange(0, a as int) =~= src@.take(a as int));
    assert(src@.subrange(b as int, src@.len() as int) =~= src@.skip(b as int));
    let result = string_from(&out);
    assert(result@ == file.source@.take(a as int) + file.source@.skip(b as int));
    match validate_source(result.as_str()) {
        Ok(()) => Ok(result),
        Err(m) => Err(WriteError::ValidationFailed(m)),
    }
}

proof fn lemma_find_av_nonempty(set: SyntaxNode, rem: Seq<Seq<char>>, src: Seq<char>)
    ensures
        find_av(set, rem, src) matches Some(ch) ==> ch.len() > 0,
    decreases set, set.children@.len() + 1,
{
    lemma_find_av_from_nonempty(set, 0, rem, src);
}

proof fn lemma_find_av_from_nonempty(set: SyntaxNode, i: int, rem: Seq<Seq<char>>, src: Seq<char>)
    ensures
        find_av_from(set, i, rem, src) matches Some(ch) ==> ch.len() > 0,
    decreases set, set.children@.len() - i,
{
    if 0 <= i < set.children@.len() {
        let e = set.children@[i];
        if e.kind != NODE_ATTRPATH_VALUE {
            lemma_find_av_from_nonempty(set, i + 1, rem, src);
        } else {
            match entry_parts(e) {
                Some((a, b)) => {
                    lemma_nth_from(e.children@, Class::Kind(NODE_ATTRPATH), 0, 0);
                    lemma_nth_from(e.children@, Class::Expr, 0, 0);
                    assert(decreases_to!(set => e));
                    assert(decreases_to!(e => e.children@[b]));
                    lemma_find_av_from_nonempty(set, i + 1, rem, src);
                },
                None => {},
            }
        }
    }
}

/// The outcome of removing an option from a source with a given tree.
pub open spec fn removal_outcome(r: Result<String, WriteError>, t: Option<Seq<char>>) -> bool {
    match t {
        None => r matches Err(WriteError::InsertionPointNotFound),
        Some(t) => match r {
            Ok(s) => s@ == t && parse_error_of(t) is None,
            Err(WriteError::ValidationFailed(m)) => syntax_error_text(t) == Some(m@),
            _ => false,
        },
    }
}

/// `r` is a possible outcome of removing the option at `path` from
/// `source` (see [`remove_option`]).
pub open spec fn removal_result(source: Seq<char>, path: Seq<char>, r: Result<String, WriteError>) -> bool {
    &&& path_parts(path).len() == 0 ==> (r matches Err(WriteError::SerializationFailed(m)) && m@ == "empty option path"@)
    &&& path_parts(path).len() > 0 ==> match parse_error_of(source) {
        Some(_) => r matches Err(WriteError::ValidationFailed(m)) && syntax_error_text(source) == Some(m@),
        None => if crate::nix::reader::tree_readable(source) {
            exists|f: NixFile| f.wf() && f.source@ == source && #[trigger] removal_outcome(
                r,
                removed_text(f.root, path_parts(path), source),
            )
        } else {
            (r matches Err(WriteError::ValidationFailed(m)) && m@ == crate::nix::reader::syntax_error_message(
                1,
                1,
                crate::nix::reader::unreadable_tree_message(),
            ))
        },
    }
}

/// Remove the option at the dotted `option_path` from Nix source: the whole
/// `key = value;` binding, with its indentation and the rest of its line
/// when blank, and any enclosing binding that it leaves empty.
///
/// A path with no segment gives `SerializationFailed`; a source rnix
/// rejects gives `ValidationFailed` with the syntax error; otherwise the
/// outcome is [`remove_option_in`]'s on the parsed file.
///
/// Whatever it removes is one contiguous run of the source: every other
/// character, comments and layout included, is kept in order.
pub fn remove_option(source: &str, option_path: &str) -> (r: Result<String, WriteError>)
    ensures
        removal_result(source@, option_path@, r),
        r matches Ok(s) ==> exists|a: int, b: int|
            0 <= a <= b <= source@.len() && s@ == #[trigger] source@.take(a) + #[trigger] source@.skip(b),
{
    let parts = path_parts_exec(option_path);
    if parts.len() == 0 {
        return Err(WriteError::SerializationFailed(String::from_str("empty option path")));
    }
    match parse_string(source) {
        Ok(f) => {
            let r = remove_option_in(&f, &parts);
            assert(removal_outcome(r, removed_text(f.root, path_parts(option_path@), source@)));
            r
        },
        Err(e) => Err(WriteError::ValidationFailed(e.message())),
    }
}

} // verus!

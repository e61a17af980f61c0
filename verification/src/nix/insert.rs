//! Inserting a new option binding into Nix source text.
use vstd::prelude::*;
use vstd::string::*;
use crate::text::{chars_of, join, join_exec, push_all, slice_of, string_from, views};
use crate::nix::ast::{attr_names, attr_names_exec, lemma_nth_from, nth_child, nth_child_exec, within, Class};
use crate::nix::format::{nix_text, value_to_nix, NixVal, NixValue};
use crate::nix::reader::{lemma_ranges_within, parse_string, syntax_error_message, syntax_error_text, tree_readable, unreadable_tree_message, validate_source, NixFile};
use crate::nix::syntax::{parse_error_of, SyntaxNode, NODE_ATTR_SET, NODE_ATTRPATH, NODE_ATTRPATH_VALUE, TOKEN_R_BRACE};
use crate::nix::traversal::{entry_parts, lemma_peel_within, path_parts, path_parts_exec, root_attrset, root_attrset_exec};
use crate::nix::writer::{splice, splice_exec, WriteError};

verus! {

/// The attribute set reached from `set` by the segments of `prefix`
/// (`find_attrset_at_prefix`): the set itself for no segment; else entries
/// are tried in order, an entry without an attribute path or a value ends
/// the search with nothing, one with no readable key is passed over, and one
/// whose key begins `prefix` and whose value is an attribute set leads the
/// search into that set.
pub open spec fn find_set_at(set: SyntaxNode, prefix: Seq<Seq<char>>, src: Seq<char>) -> Option<SyntaxNode>
    decreases set, set.children@.len() + 1,
{
    if prefix.len() == 0 {
        Some(set)
    } else {
        find_set_from(set, 0, prefix, src)
    }
}

/// [`find_set_at`] over the entries from child `i` on.
pub open spec fn find_set_from(set: SyntaxNode, i: int, prefix: Seq<Seq<char>>, src: Seq<char>) -> Option<SyntaxNode>
    decreases set, set.children@.len() - i,
{
    if i < 0 || i >= set.children@.len() {
        None
    } else {
        let e = set.children@[i];
        if e.kind != NODE_ATTRPATH_VALUE {
            find_set_from(set, i + 1, prefix, src)
        } else {
            match entry_parts(e) {
                Some((a, b)) => {
                    proof {
                        lemma_nth_from(e.children@, Class::Kind(NODE_ATTRPATH), 0, 0);
                        lemma_nth_from(e.children@, Class::Expr, 0, 0);
                        assert(decreases_to!(set => e));
                        assert(decreases_to!(e => e.children@[b]));
                    }
                    let keys = attr_names(e.children@[a], src);
                    let v = e.children@[b];
                    if keys.len() == 0 {
                        find_set_from(set, i + 1, prefix, src)
                    } else if prefix.len() >= keys.len() && keys.is_prefix_of(prefix) && v.kind == NODE_ATTR_SET {
                        find_set_at(v, prefix.skip(keys.len() as int), src)
                    } else {
                        find_set_from(set, i + 1, prefix, src)
                    }
                },
                None => None,
            }
        }
    }
}

/// The deepest attribute set for the first `k` or fewer segments of
/// `parts` (at least one), with the number of segments it absorbs; the root
/// set with none when no prefix leads to a set.
pub open spec fn best_set(root_set: SyntaxNode, parts: Seq<Seq<char>>, src: Seq<char>, k: int) -> (SyntaxNode, int)
    decreases k,
{
    if k < 1 {
        (root_set, 0)
    } else {
        match find_set_at(root_set, parts.take(k), src) {
            Some(s) => (s, k),
            None => best_set(root_set, parts, src, k - 1),
        }
    }
}

/// The new binding line: indentation, the remaining segments joined by
/// dots, ` = `, the value's Nix text and `;` with a newline.
pub open spec fn binding_line(indent: Seq<char>, key: Seq<Seq<char>>, v: NixVal) -> Seq<char> {
    indent + join(key, "."@) + " = "@ + nix_text(v) + ";\n"@
}

/// The source with the new binding inserted just before the `}` of the
/// deepest attribute set that a prefix of the path leads to (the root set
/// when none does); none when there is no root set or no `}`.
pub open spec fn inserted_text(root: SyntaxNode, parts: Seq<Seq<char>>, v: NixVal, indent: Seq<char>, s: Seq<char>) -> Option<Seq<char>> {
    match root_attrset(root) {
        None => None,
        Some(rs) => {
            let (t, c) = best_set(rs, parts, s, parts.len() - 1);
            match nth_child(t, Class::Kind(TOKEN_R_BRACE), 0) {
                None => None,
                Some(j) => {
                    let pos = t.children@[j].cstart as int;
                    Some(splice(s, pos, pos, binding_line(indent, parts.skip(c), v)))
                },
            }
        },
    }
}

fn keys_lead(a: &Vec<Vec<char>>, b: &[Vec<char>]) -> (r: bool)
    ensures
        r == (b@.len() >= a@.len() && views(a@).is_prefix_of(b@.map_values(|x: Vec<char>| x@))),
{
    if b.len() < a.len() {
        return false;
    }
    for i in 0..a.len()
        invariant
            a@.len() <= b@.len(),
            forall|j: int| 0 <= j < i ==> a@[j]@ == b@[j]@,
    {
        if !crate::text::chars_eq(&a[i], &b[i]) {
            assert(views(a@)[i as int] != b@.map_values(|x: Vec<char>| x@)[i as int]);
            return false;
        }
    }
    true
}

fn find_set_at_exec<'a>(set: &'a SyntaxNode, prefix: &[Vec<char>], src: &Vec<char>) -> (r: Option<&'a SyntaxNode>)
    requires
        within(*set, src@),
    ensures
        match r {
            Some(n) => find_set_at(*set, prefix@.map_values(|x: Vec<char>| x@), src@) == Some(*n) && within(*n, src@),
            None => find_set_at(*set, prefix@.map_values(|x: Vec<char>| x@), src@) is None,
        },
    decreases set, set.children@.len() + 1,
{
    let ghost pv = prefix@.map_values(|x: Vec<char>| x@);
    if prefix.len() == 0 {
        return Some(set);
    }
    let mut i: usize = 0;
    while i < set.children.len()
        invariant
            0 <= i <= set.children@.len(),
            within(*set, src@),
            pv == prefix@.map_values(|x: Vec<char>| x@),
            pv.len() > 0,
            find_set_at(*set, pv, src@) == find_set_from(*set, i as int, pv, src@),
        decreases set.children@.len() - i,
    {
        let e = &set.children[i];
        assert(within(*e, src@));
        if e.kind == NODE_ATTRPATH_VALUE {
            let a = nth_child_exec(e, Class::Kind(NODE_ATTRPATH), 0);
            let b = nth_child_exec(e, Class::Expr, 0);
            match (a, b) {
                (Some(a), Some(b)) => {
                    assert(within(e.children@[a as int], src@));
                    assert(within(e.children@[b as int], src@));
                    let keys = attr_names_exec(&e.children[a], src);
                    let v = &e.children[b];
                    if keys.len() > 0 && keys_lead(&keys, prefix) && v.kind == NODE_ATTR_SET {
                        proof {
                            assert(decreases_to!(*set => *e));
                            assert(decreases_to!(*e => *v));
                            assert(prefix@.skip(keys@.len() as int).map_values(|x: Vec<char>| x@) =~= pv.skip(keys@.len() as int));
                        }
                        return find_set_at_exec(v, vstd::slice::slice_subrange(prefix, keys.len(), prefix.len()), src);
                    }
                },
                _ => {
                    return None;
                },
            }
        }
        i += 1;
    }
    None
}

/// Insert the binding for the path's segments `parts` and `value` into a
/// parsed file, just before the `}` of the deepest attribute set that a
/// proper prefix of the path leads to (the root set when none does), with
/// the remaining segments as its key and `indent` before it.
pub fn add_option_in(file: &NixFile, parts: &Vec<Vec<char>>, value: &NixValue, indent: &str) -> (r: Result<String, WriteError>)
    requires
        file.wf(),
        parts@.len() > 0,
    ensures
        match inserted_text(file.root, views(parts@), value@, indent@, file.source@) {
            None => r matches Err(WriteError::InsertionPointNotFound),
            Some(t) => match r {
                Ok(s) => s@ == t && parse_error_of(t) is None,
                Err(WriteError::ValidationFailed(m)) => syntax_error_text(t) == Some(m@),
                _ => false,
            },
        },
        r matches Ok(s) ==> exists|p: int, k: int|
            0 <= p <= file.source@.len() && 0 <= k < parts@.len() && s@ == #[trigger] splice(
                file.source@,
                p,
                p,
                binding_line(indent@, views(parts@).skip(k), value@),
            ),
{
    proof {
        lemma_ranges_within(file.root, file.source@);
        lemma_peel_within(file.root, file.chars@);
    }
    let rs = match root_attrset_exec(&file.root) {
        Some(s) => s,
        None => return Err(WriteError::InsertionPointNotFound),
    };
    let ghost pv = views(parts@);
    let src = &file.chars;
    // Longest proper prefix first.
    let mut k: usize = parts.len() - 1;
    let mut found: Option<&SyntaxNode> = None;
    loop
        invariant_except_break
            found is None,
        invariant
            k < parts@.len(),
            pv == views(parts@),
            within(*rs, src@),
            src == &file.chars,
            best_set(*rs, pv, src@, pv.len() - 1) == best_set(*rs, pv, src@, k as int),
        ensures
            k < parts@.len(),
            found matches Some(t) ==> best_set(*rs, pv, src@, pv.len() - 1) == (*t, k as int) && within(*t, src@),
            found is None ==> best_set(*rs, pv, src@, pv.len() - 1) == (*rs, 0int),
        decreases k,
    {
        if k < 1 {
            break;
        }
        let pre = vstd::slice::slice_subrange(parts.as_slice(), 0, k);
        assert(pre@.map_values(|x: Vec<char>| x@) =~= pv.take(k as int));
        match find_set_at_exec(rs, pre, src) {
            Some(t) => {
                found = Some(t);
                break;
            },
            None => {},
        }
        k -= 1;
    }
    let (target, consumed) = match found {
        Some(t) => (t, k),
        None => (rs, 0),
    };
    let j = match nth_child_exec(target, Class::Kind(TOKEN_R_BRACE), 0) {
        Some(j) => j,
        None => return Err(WriteError::InsertionPointNotFound),
    };
    assert(within(target.children@[j as int], src@));
    let pos = target.children[j].cstart;
    let rest = vstd::slice::slice_subrange(parts.as_slice(), consumed, parts.len());
    let mut rest_vec: Vec<Vec<char>> = Vec::new();
    for i in 0..rest.len()
        invariant
            views(rest_vec@) == rest@.map_values(|x: Vec<char>| x@).take(i as int),
    {
        let ghost prev = views(rest_vec@);
        let x = slice_of(&rest[i], 0, rest[i].len());
        assert(x@ =~= rest@[i as int]@);
        rest_vec.push(x);
        assert(views(rest_vec@) =~= prev.push(rest@[i as int]@));
        assert(rest@.map_values(|x: Vec<char>| x@).take(i + 1) =~= rest@.map_values(|x: Vec<char>| x@).take(i as int).push(rest@[i as int]@));
    }
    assert(rest@.map_values(|x: Vec<char>| x@).take(rest@.len() as int) =~= pv.skip(consumed as int));
    let mut line = chars_of(indent);
    push_all(&mut line, &join_exec(&rest_vec, &chars_of(".")));
    push_all(&mut line, &chars_of(" = "));
    push_all(&mut line, &chars_of(value_to_nix(value).as_str()));
    push_all(&mut line, &chars_of(";\n"));
    let result = string_from(&splice_exec(src, pos, pos, &line));
    assert(result@ == splice(file.source@, pos as int, pos as int, binding_line(indent@, pv.skip(consumed as int), value@)));
    match validate_source(result.as_str()) {
        Ok(()) => Ok(result),
        Err(m) => Err(WriteError::ValidationFailed(m)),
    }
}

/// The outcome of inserting an option into a source with a given tree.
pub open spec fn insertion_outcome(r: Result<String, WriteError>, t: Option<Seq<char>>) -> bool {
    match t {
        None => r matches Err(WriteError::InsertionPointNotFound),
        Some(t) => match r {
            Ok(s) => s@ == t && parse_error_of(t) is None,
            Err(WriteError::ValidationFailed(m)) => syntax_error_text(t) == Some(m@),
            _ => false,
        },
    }
}

/// `r` is a possible outcome of inserting the option at `path` with value
/// `v` into `source` (see [`add_option`]).
pub open spec fn insertion_result(source: Seq<char>, path: Seq<char>, v: NixVal, indent: Seq<char>, r: Result<String, WriteError>) -> bool {
    &&& path_parts(path).len() == 0 ==> (r matches Err(WriteError::SerializationFailed(m)) && m@ == "empty option path"@)
    &&& path_parts(path).len() > 0 ==> match parse_error_of(source) {
        Some(_) => r matches Err(WriteError::ValidationFailed(m)) && syntax_error_text(source) == Some(m@),
        None => if tree_readable(source) {
            exists|f: NixFile| f.wf() && f.source@ == source && #[trigger] insertion_outcome(
                r,
                inserted_text(f.root, path_parts(path), v, indent, source),
            )
        } else {
            (r matches Err(WriteError::ValidationFailed(m)) && m@ == syntax_error_message(1, 1, unreadable_tree_message()))
        },
    }
}

/// Insert a new option binding `<indent><key> = <value>;` into Nix source,
/// just before the closing `}` of the deepest attribute set that a proper
/// prefix of `option_path` leads to, the key being the rest of the path
/// (the root set and the whole path when no prefix leads to a set).
///
/// A path with no segment gives `SerializationFailed`; a source rnix
/// rejects gives `ValidationFailed` with the syntax error; otherwise the
/// outcome is [`add_option_in`]'s on the parsed file.
///
/// Whatever it inserts goes in at one place: every character of the source,
/// comments and layout included, is kept in order around the new binding.
pub fn add_option(source: &str, option_path: &str, value: &NixValue, indent: &str) -> (r: Result<String, WriteError>)
    ensures
        insertion_result(source@, option_path@, value@, indent@, r),
        r matches Ok(s) ==> exists|p: int, k: int|
            0 <= p <= source@.len() && 0 <= k < path_parts(option_path@).len() && s@ == #[trigger] splice(
                source@,
                p,
                p,
                binding_line(indent@, path_parts(option_path@).skip(k), value@),
            ),
{
    let parts = path_parts_exec(option_path);
    if parts.len() == 0 {
        return Err(WriteError::SerializationFailed(String::from_str("empty option path")));
    }
    match parse_string(source) {
        Ok(f) => {
            let r = add_option_in(&f, &parts, value, indent);
            assert(insertion_outcome(r, inserted_text(f.root, path_parts(option_path@), value@, indent@, source@)));
            r
        },
        Err(e) => Err(WriteError::ValidationFailed(e.message())),
    }
}

} // verus!

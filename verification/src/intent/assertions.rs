//! Reading assertion failures out of `nix eval` output.
use vstd::prelude::*;
use crate::text::{
    alphanumeric, chars_of, contains, contains_str, is_alphanumeric, is_whitespace, is_ws, lines,
    lines_exec, slice_of, starts_with_str, string_from, string_views, trim, trim_chars, views,
};
use crate::intent::types::{Conflict, ConflictModel};

verus! {

/// Separators of the words of an assertion message.
pub open spec fn is_word_sep(c: char) -> bool {
    is_ws(c) || c == '`' || c == '\'' || c == '"'
}

/// The pieces of `s` between separators (`str::split` with a predicate).
pub open spec fn split_words(s: Seq<char>) -> Seq<Seq<char>>
    decreases s.len(),
{
    if s.len() == 0 {
        seq![Seq::<char>::empty()]
    } else {
        let rest = split_words(s.drop_last());
        if is_word_sep(s.last()) {
            rest.push(Seq::<char>::empty())
        } else {
            rest.update(rest.len() - 1, rest.last().push(s.last()))
        }
    }
}

proof fn lemma_split_words_nonempty(s: Seq<char>)
    ensures
        split_words(s).len() >= 1,
    decreases s.len(),
{
    if s.len() > 0 {
        lemma_split_words_nonempty(s.drop_last());
    }
}

/// A character that may stand in an option path.
pub open spec fn path_char(c: char) -> bool {
    alphanumeric(c) || c == '.' || c == '-' || c == '_'
}

/// `s` without the characters at its start that cannot stand in a path.
pub open spec fn trim_start_path(s: Seq<char>) -> Seq<char>
    decreases s.len(),
{
    if s.len() > 0 && !path_char(s[0]) {
        trim_start_path(s.drop_first())
    } else {
        s
    }
}

/// `s` without the characters at its end that cannot stand in a path.
pub open spec fn trim_end_path(s: Seq<char>) -> Seq<char>
    decreases s.len(),
{
    if s.len() > 0 && !path_char(s.last()) {
        trim_end_path(s.drop_last())
    } else {
        s
    }
}

/// `str::trim_matches` with the characters that cannot stand in a path.
pub open spec fn trim_path(s: Seq<char>) -> Seq<char> {
    trim_end_path(trim_start_path(s))
}

/// The number of times `c` occurs in `s`.
pub open spec fn count_char(s: Seq<char>, c: char) -> nat
    decreases s.len(),
{
    if s.len() == 0 {
        0
    } else {
        count_char(s.drop_last(), c) + if s.last() == c { 1nat } else { 0nat }
    }
}

/// Every character of `s` may stand in a path.
pub open spec fn all_path_chars(s: Seq<char>) -> bool {
    forall|i: int| 0 <= i < s.len() ==> path_char(#[trigger] s[i])
}

/// A word that looks like a NixOS option path: at least two dots, only
/// path characters, and no dot at either end.
pub open spec fn is_option_path(w: Seq<char>) -> bool {
    &&& count_char(w, '.') >= 2
    &&& all_path_chars(w)
    &&& w[0] != '.'
    &&& w.last() != '.'
}

/// The option paths among the trimmed words, in order.
pub open spec fn option_paths(words: Seq<Seq<char>>) -> Seq<Seq<char>>
    decreases words.len(),
{
    if words.len() == 0 {
        Seq::<Seq<char>>::empty()
    } else {
        let r = option_paths(words.drop_last());
        let w = trim_path(words.last());
        if is_option_path(w) {
            r.push(w)
        } else {
            r
        }
    }
}

/// The option paths mentioned in an assertion message.
pub open spec fn message_paths(message: Seq<char>) -> Seq<Seq<char>> {
    option_paths(split_words(message))
}

/// The marker line that opens the list of failed assertions.
pub open spec fn failed_marker() -> Seq<char> {
    "Failed assertions:"@
}

/// The state after reading `ls`: whether a list of failed assertions is
/// open, and the messages read so far.
pub open spec fn assertion_scan(ls: Seq<Seq<char>>) -> (bool, Seq<Seq<char>>)
    decreases ls.len(),
{
    if ls.len() == 0 {
        (false, Seq::<Seq<char>>::empty())
    } else {
        let (open, msgs) = assertion_scan(ls.drop_last());
        let t = trim(ls.last());
        if contains(t, failed_marker()) {
            (true, msgs)
        } else if open && "- "@.is_prefix_of(t) {
            (true, msgs.push(t.skip(2)))
        } else if open && (t.len() == 0 || "error:"@.is_prefix_of(t)) {
            (false, msgs)
        } else {
            (open, msgs)
        }
    }
}

/// The assertion messages of `stderr`: the lines `- message` after a line
/// holding `Failed assertions:`, up to an empty line or an `error:` line.
pub open spec fn assertion_messages(stderr: Seq<char>) -> Seq<Seq<char>> {
    assertion_scan(lines(stderr)).1
}

/// The conflict made of an assertion message.
pub open spec fn conflict_of(message: Seq<char>) -> ConflictModel {
    ConflictModel {
        message,
        related_options: message_paths(message),
        resolved: false,
        resolution: None,
    }
}

fn trim_start_path_exec(s: &Vec<char>) -> (r: Vec<char>)
    ensures
        r@ == trim_start_path(s@),
{
    let mut i: usize = 0;
    assert(s@.skip(0) =~= s@);
    while i < s.len() && !(is_alphanumeric(s[i]) || s[i] == '.' || s[i] == '-' || s[i] == '_')
        invariant
            0 <= i <= s@.len(),
            trim_start_path(s@) == trim_start_path(s@.skip(i as int)),
        decreases s@.len() - i,
    {
        assert(s@.skip(i as int).drop_first() =~= s@.skip(i + 1));
        i += 1;
    }
    assert(s@.skip(i as int) =~= s@.subrange(i as int, s@.len() as int));
    slice_of(s, i, s.len())
}

fn trim_end_path_exec(s: &Vec<char>) -> (r: Vec<char>)
    ensures
        r@ == trim_end_path(s@),
{
    let mut i: usize = s.len();
    assert(s@.take(s@.len() as int) =~= s@);
    while i > 0 && !(is_alphanumeric(s[i - 1]) || s[i - 1] == '.' || s[i - 1] == '-' || s[i - 1] == '_')
        invariant
            0 <= i <= s@.len(),
            trim_end_path(s@) == trim_end_path(s@.take(i as int)),
        decreases i,
    {
        assert(s@.take(i as int).drop_last() =~= s@.take(i - 1));
        i -= 1;
    }
    assert(s@.take(i as int) =~= s@.subrange(0, i as int));
    slice_of(s, 0, i)
}

fn count_char_exec(s: &Vec<char>, c: char) -> (n: usize)
    ensures
        n == count_char(s@, c),
{
    let mut n: usize = 0;
    let mut i: usize = 0;
    while i < s.len()
        invariant
            0 <= i <= s@.len(),
            n == count_char(s@.take(i as int), c),
            n <= i,
        decreases s@.len() - i,
    {
        assert(s@.take(i + 1).drop_last() =~= s@.take(i as int));
        if s[i] == c {
            n += 1;
        }
        i += 1;
    }
    assert(s@.take(s@.len() as int) =~= s@);
    n
}

fn is_option_path_exec(w: &Vec<char>) -> (b: bool)
    ensures
        b == is_option_path(w@),
{
    if count_char_exec(w, '.') < 2 {
        return false;
    }
    let mut i: usize = 0;
    while i < w.len()
        invariant
            0 <= i <= w@.len(),
            forall|j: int| 0 <= j < i ==> path_char(#[trigger] w@[j]),
        decreases w@.len() - i,
    {
        if !(is_alphanumeric(w[i]) || w[i] == '.' || w[i] == '-' || w[i] == '_') {
            return false;
        }
        i += 1;
    }
    if w.len() == 0 {
        assert(count_char(w@, '.') == 0);
        return false;
    }
    w[0] != '.' && w[w.len() - 1] != '.'
}

fn split_words_exec(s: &Vec<char>) -> (r: Vec<Vec<char>>)
    ensures
        views(r@) == split_words(s@),
{
    let mut pieces: Vec<Vec<char>> = Vec::new();
    let mut cur: Vec<char> = Vec::new();
    let mut i: usize = 0;
    while i < s.len()
        invariant
            0 <= i <= s@.len(),
            views(pieces@).push(cur@) == split_words(s@.take(i as int)),
        decreases s@.len() - i,
    {
        let ghost before = views(pieces@).push(cur@);
        assert(s@.take(i + 1).drop_last() == s@.take(i as int));
        proof { lemma_split_words_nonempty(s@.take(i as int)); }
        let c = s[i];
        if is_whitespace(c) || c == '`' || c == '\'' || c == '"' {
            let done = cur;
            pieces.push(done);
            cur = Vec::new();
            assert(views(pieces@) =~= before);
        } else {
            cur.push(c);
            assert(views(pieces@).push(cur@) =~= before.update(
                before.len() - 1,
                before.last().push(s@[i as int]),
            ));
        }
        i += 1;
    }
    assert(s@.take(s@.len() as int) == s@);
    pieces.push(cur);
    assert(views(pieces@) =~= split_words(s@));
    pieces
}

/// The option paths mentioned in an assertion message: the words (split at
/// whitespace and quotes, trimmed of characters that cannot stand in a path)
/// that hold at least two dots, only path characters, and no dot at either
/// end.
pub fn extract_option_paths(message: &str) -> (r: Vec<String>)
    ensures
        string_views(r@) == message_paths(message@),
{
    let m = chars_of(message);
    let words = split_words_exec(&m);
    let mut r: Vec<String> = Vec::new();
    let mut i: usize = 0;
    while i < words.len()
        invariant
            0 <= i <= words@.len(),
            string_views(r@) == option_paths(views(words@).take(i as int)),
        decreases words@.len() - i,
    {
        let ghost prev = string_views(r@);
        assert(views(words@).take(i + 1).drop_last() =~= views(words@).take(i as int));
        let a = trim_start_path_exec(&words[i]);
        let w = trim_end_path_exec(&a);
        if is_option_path_exec(&w) {
            let ws = string_from(&w);
            r.push(ws);
            assert(string_views(r@) =~= prev.push(w@));
        }
        i += 1;
    }
    assert(views(words@).take(words@.len() as int) =~= views(words@));
    r
}

fn conflict_from(msg: &Vec<char>) -> (c: Conflict)
    ensures
        c@ == conflict_of(msg@),
{
    let m = string_from(msg);
    let paths = extract_option_paths(m.as_str());
    Conflict { message: m, related_options: paths, resolved: false, resolution: None }
}

/// The conflicts named by the failed assertions in `nix eval`'s stderr, in
/// order: each line `- message` after a line holding `Failed assertions:`,
/// up to an empty line or an `error:` line. No such line gives no conflict,
/// as for a type or syntax error.
pub fn parse_assertions(stderr: &str) -> (r: Vec<Conflict>)
    ensures
        r@.map_values(|c: Conflict| c@) == assertion_messages(stderr@).map_values(
            |m: Seq<char>| conflict_of(m),
        ),
{
    let s = chars_of(stderr);
    let ls = lines_exec(&s);
    let mut conflicts: Vec<Conflict> = Vec::new();
    let mut open = false;
    let ghost mut msgs: Seq<Seq<char>> = Seq::empty();
    let mut i: usize = 0;
    while i < ls.len()
        invariant
            0 <= i <= ls@.len(),
            views(ls@) == lines(s@),
            (open, msgs) == assertion_scan(views(ls@).take(i as int)),
            conflicts@.map_values(|c: Conflict| c@) == msgs.map_values(|m: Seq<char>| conflict_of(m)),
        decreases ls@.len() - i,
    {
        assert(views(ls@).take(i + 1).drop_last() =~= views(ls@).take(i as int));
        assert(views(ls@).take(i + 1).last() == ls@[i as int]@);
        let t = trim_chars(&ls[i]);
        if contains_str(&t, "Failed assertions:") {
            open = true;
        } else if open && starts_with_str(&t, "- ") {
            proof { reveal_strlit("- "); }
            let m = slice_of(&t, 2, t.len());
            assert(m@ == t@.skip(2));
            let c = conflict_from(&m);
            let ghost prev = conflicts@.map_values(|c: Conflict| c@);
            conflicts.push(c);
            proof {
                assert(conflicts@.map_values(|c: Conflict| c@) =~= prev.push(conflict_of(m@)));
                assert(msgs.push(m@).map_values(|m: Seq<char>| conflict_of(m)) =~= msgs.map_values(
                    |m: Seq<char>| conflict_of(m),
                ).push(conflict_of(m@)));
                msgs = msgs.push(m@);
            }
        } else if open && (t.len() == 0 || starts_with_str(&t, "error:")) {
            open = false;
        }
        i += 1;
    }
    assert(views(ls@).take(ls@.len() as int) =~= views(ls@));
    conflicts
}

/// Whether `stderr` reports failed assertions (rather than another
/// evaluation error).
pub fn is_assertion_failure(stderr: &str) -> (b: bool)
    ensures
        b == contains(stderr@, failed_marker()),
{
    let s = chars_of(stderr);
    contains_str(&s, "Failed assertions:")
}

/// Whether `stderr` reports an evaluation error other than failed
/// assertions (a type error, a missing attribute, ...).
pub fn is_eval_error(stderr: &str) -> (b: bool)
    ensures
        b == (contains(stderr@, "error:"@) && !contains(stderr@, failed_marker())),
{
    let s = chars_of(stderr);
    contains_str(&s, "error:") && !is_assertion_failure(stderr)
}

/// Reading lines none of which, trimmed, holds the marker opens no list
/// and collects no message.
proof fn lemma_scan_without_marker(ls: Seq<Seq<char>>)
    requires
        forall|k: int| 0 <= k < ls.len() ==> !contains(trim(#[trigger] ls[k]), failed_marker()),
    ensures
        assertion_scan(ls) == (false, Seq::<Seq<char>>::empty()),
    decreases ls.len(),
{
    if ls.len() > 0 {
        let d = ls.drop_last();
        assert forall|k: int| 0 <= k < d.len() implies !contains(trim(#[trigger] d[k]), failed_marker()) by {
            assert(d[k] == ls[k]);
        }
        lemma_scan_without_marker(d);
        assert(!contains(trim(ls[ls.len() - 1]), failed_marker()));
    }
}

/// Output that [`is_assertion_failure`] does not recognise names no
/// failed assertion: [`parse_assertions`] finds no conflict in it.
pub proof fn law_no_marker_no_conflicts(stderr: Seq<char>)
    requires
        !contains(stderr, failed_marker()),
    ensures
        assertion_messages(stderr).len() == 0,
{
    let ls = lines(stderr);
    crate::text::lemma_lines_sub(stderr);
    assert forall|k: int| 0 <= k < ls.len() implies !contains(trim(#[trigger] ls[k]), failed_marker()) by {
        if contains(trim(ls[k]), failed_marker()) {
            crate::text::lemma_trim_sub(ls[k]);
            crate::text::lemma_sub_trans(trim(ls[k]), ls[k], stderr);
            crate::text::lemma_contains_sub(trim(ls[k]), stderr, failed_marker());
        }
    }
    lemma_scan_without_marker(ls);
}

} // verus!

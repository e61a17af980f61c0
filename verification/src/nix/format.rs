//! Nix values, their serialisation to Nix syntax, and indentation detection.
use vstd::prelude::*;
use crate::text::{
    chars_of, dec_i64, dec_int, is_ws, join, lemma_join_push, lines, lines_exec, push_all,
    string_from, trim, trim_chars,
};

verus! {

/// A Nix value read from, or to be written into, a configuration file.
///
/// `Expression` holds the raw source of anything that is not a plain value
/// (function calls, `let` blocks, interpolated strings, ...).
#[derive(Debug, PartialEq)]
pub enum NixValue {
    Bool(bool),
    String(String),
    Int(i64),
    /// Items of a Nix list `[ a b c ]`.
    List(Vec<NixValue>),
    /// Attribute-set entries; dotted keys for flat entries (`"a.b"`).
    AttrSet(Vec<(String, NixValue)>),
    /// A path literal such as `/etc/nixos` or `./hardware.nix`.
    Path(String),
    Null,
    /// A complex expression kept verbatim.
    Expression(String),
}

/// The mathematical model of a [`NixValue`]: the same shape, with text as
/// character sequences.
pub enum NixVal {
    Bool(bool),
    Str(Seq<char>),
    Int(int),
    List(Seq<NixVal>),
    AttrSet(Seq<(Seq<char>, NixVal)>),
    Path(Seq<char>),
    Null,
    Expression(Seq<char>),
}

/// The model of a value.
pub open spec fn val(v: NixValue) -> NixVal
    decreases v,
{
    match v {
        NixValue::Bool(b) => NixVal::Bool(b),
        NixValue::String(s) => NixVal::Str(s@),
        NixValue::Int(n) => NixVal::Int(n as int),
        NixValue::List(items) => NixVal::List(vals(items@)),
        NixValue::AttrSet(entries) => NixVal::AttrSet(entry_vals(entries@)),
        NixValue::Path(p) => NixVal::Path(p@),
        NixValue::Null => NixVal::Null,
        NixValue::Expression(e) => NixVal::Expression(e@),
    }
}

/// The models of a sequence of values.
pub open spec fn vals(items: Seq<NixValue>) -> Seq<NixVal>
    decreases items,
{
    if items.len() == 0 {
        Seq::<NixVal>::empty()
    } else {
        vals(items.drop_last()).push(val(items.last()))
    }
}

/// The models of a sequence of attribute-set entries.
pub open spec fn entry_vals(entries: Seq<(String, NixValue)>) -> Seq<(Seq<char>, NixVal)>
    decreases entries,
{
    if entries.len() == 0 {
        Seq::<(Seq<char>, NixVal)>::empty()
    } else {
        entry_vals(entries.drop_last()).push((entries.last().0@, val(entries.last().1)))
    }
}

impl View for NixValue {
    type V = NixVal;

    open spec fn view(&self) -> NixVal {
        val(*self)
    }
}

/// A copy of `v` with the same model.
#[verifier::loop_isolation(false)]
pub fn copy_value(v: &NixValue) -> (r: NixValue)
    ensures
        r@ == v@,
    decreases v,
{
    match v {
        NixValue::Bool(b) => NixValue::Bool(*b),
        NixValue::String(s) => NixValue::String(s.clone()),
        NixValue::Int(n) => NixValue::Int(*n),
        NixValue::Path(p) => NixValue::Path(p.clone()),
        NixValue::Null => NixValue::Null,
        NixValue::Expression(e) => NixValue::Expression(e.clone()),
        NixValue::List(items) => {
            let mut out: Vec<NixValue> = Vec::new();
            for i in 0..items.len()
                invariant
                    vals(out@) == vals(items@.take(i as int)),
            {
                proof {
                    assert(decreases_to!(*v => items@[i as int]));
                }
                let c = copy_value(&items[i]);
                let ghost prev = out@;
                out.push(c);
                assert(out@.drop_last() == prev);
                assert(items@.take(i + 1).drop_last() == items@.take(i as int));
            }
            assert(items@.take(items@.len() as int) == items@);
            NixValue::List(out)
        },
        NixValue::AttrSet(entries) => {
            let mut out: Vec<(String, NixValue)> = Vec::new();
            for i in 0..entries.len()
                invariant
                    entry_vals(out@) == entry_vals(entries@.take(i as int)),
            {
                proof {
                    assert(decreases_to!(*v => entries@[i as int].1));
                }
                let c = copy_value(&entries[i].1);
                let ghost prev = out@;
                out.push((entries[i].0.clone(), c));
                assert(out@.drop_last() == prev);
                assert(entries@.take(i + 1).drop_last() == entries@.take(i as int));
            }
            assert(entries@.take(entries@.len() as int) == entries@);
            NixValue::AttrSet(out)
        },
    }
}

impl Clone for NixValue {
    fn clone(&self) -> (r: Self)
        ensures
            r@ == self@,
    {
        copy_value(self)
    }
}

// ---------------------------------------------------------------------------
// Serialisation
// ---------------------------------------------------------------------------

/// The escape sequence written for one character inside a Nix string.
pub open spec fn escape_char(c: char) -> Seq<char> {
    if c == '\\' {
        seq!['\\', '\\']
    } else if c == '"' {
        seq!['\\', '"']
    } else if c == '\n' {
        seq!['\\', 'n']
    } else if c == '\r' {
        seq!['\\', 'r']
    } else if c == '\t' {
        seq!['\\', 't']
    } else {
        seq![c]
    }
}

/// `s` with backslash, double quote, newline, carriage return and tab
/// escaped.
pub open spec fn escape(s: Seq<char>) -> Seq<char>
    decreases s.len(),
{
    if s.len() == 0 {
        Seq::<char>::empty()
    } else {
        escape(s.drop_last()) + escape_char(s.last())
    }
}

/// The Nix syntax of a value.
pub open spec fn nix_text(v: NixVal) -> Seq<char>
    decreases v,
{
    match v {
        NixVal::Bool(b) => if b { "true"@ } else { "false"@ },
        NixVal::Str(s) => seq!['"'] + escape(s) + seq!['"'],
        NixVal::Int(n) => dec_int(n),
        NixVal::Null => "null"@,
        NixVal::Path(p) => p,
        NixVal::Expression(e) => e,
        NixVal::List(items) => {
            if items.len() == 0 {
                "[ ]"@
            } else {
                "[ "@ + join(item_texts(items), " "@) + " ]"@
            }
        },
        NixVal::AttrSet(entries) => {
            if entries.len() == 0 {
                "{ }"@
            } else {
                "{ "@ + join(entry_texts(entries), " "@) + " }"@
            }
        },
    }
}

/// The Nix syntax of each list item.
pub open spec fn item_texts(items: Seq<NixVal>) -> Seq<Seq<char>>
    decreases items,
{
    if items.len() == 0 {
        Seq::<Seq<char>>::empty()
    } else {
        item_texts(items.drop_last()).push(nix_text(items.last()))
    }
}

/// `key = value;` for each attribute-set entry.
pub open spec fn entry_texts(entries: Seq<(Seq<char>, NixVal)>) -> Seq<Seq<char>>
    decreases entries,
{
    if entries.len() == 0 {
        Seq::<Seq<char>>::empty()
    } else {
        entry_texts(entries.drop_last()).push(
            entries.last().0 + " = "@ + nix_text(entries.last().1) + ";"@,
        )
    }
}

fn escape_exec(s: &Vec<char>) -> (r: Vec<char>)
    ensures
        r@ == escape(s@),
{
    let mut r: Vec<char> = Vec::new();
    let mut i: usize = 0;
    while i < s.len()
        invariant
            0 <= i <= s@.len(),
            r@ == escape(s@.take(i as int)),
        decreases s@.len() - i,
    {
        let c = s[i];
        assert(s@.take(i + 1).drop_last() == s@.take(i as int));
        if c == '\\' {
            r.push('\\');
            r.push('\\');
        } else if c == '"' {
            r.push('\\');
            r.push('"');
        } else if c == '\n' {
            r.push('\\');
            r.push('n');
        } else if c == '\r' {
            r.push('\\');
            r.push('r');
        } else if c == '\t' {
            r.push('\\');
            r.push('t');
        } else {
            r.push(c);
        }
        assert(r@ =~= escape(s@.take(i as int)) + escape_char(c));
        i += 1;
    }
    assert(s@.take(s@.len() as int) == s@);
    r
}

#[verifier::loop_isolation(false)]
fn nix_chars(value: &NixValue) -> (r: Vec<char>)
    ensures
        r@ == nix_text(value@),
    decreases value,
{
    match value {
        NixValue::Bool(b) => {
            if *b {
                chars_of("true")
            } else {
                chars_of("false")
            }
        },
        NixValue::String(s) => {
            let mut r = Vec::new();
            r.push('"');
            let e = escape_exec(&chars_of(s.as_str()));
            push_all(&mut r, &e);
            r.push('"');
            assert(r@ =~= seq!['"'] + escape(s@) + seq!['"']);
            r
        },
        NixValue::Int(n) => dec_i64(*n),
        NixValue::Null => chars_of("null"),
        NixValue::Path(p) => chars_of(p.as_str()),
        NixValue::Expression(e) => chars_of(e.as_str()),
        NixValue::List(items) => {
            if items.len() == 0 {
                chars_of("[ ]")
            } else {
                let mut r = chars_of("[ ");
                let mut i: usize = 0;
                while i < items.len()
                    invariant
                        0 <= i <= items@.len(),
                        items@.len() > 0,
                        r@ == "[ "@ + join(item_texts(vals(items@.take(i as int))), " "@),
                    decreases items@.len() - i,
                {
                    assert(items@.take(i + 1).drop_last() == items@.take(i as int));
                    proof {
                        assert(decreases_to!(*value => items@[i as int]));
                    }
                    let t = nix_chars(&items[i]);
                    let ghost prev = r@;
                    if i > 0 {
                        r.push(' ');
                    }
                    push_all(&mut r, &t);
                    assert(vals(items@.take(i + 1)) == vals(items@.take(i as int)).push(items@[i as int]@));
                    assert(vals(items@.take(i + 1)).drop_last() =~= vals(items@.take(i as int)));
                    assert(item_texts(vals(items@.take(i + 1))) == item_texts(vals(items@.take(i as int))).push(t@));
                    proof {
                        lemma_join_push(item_texts(vals(items@.take(i as int))), t@, " "@);
                        reveal_strlit(" ");
                    }
                    assert(r@ =~= "[ "@ + join(item_texts(vals(items@.take(i + 1))), " "@));
                    i += 1;
                }
                assert(items@.take(items@.len() as int) == items@);
                push_all(&mut r, &chars_of(" ]"));
                r
            }
        },
        NixValue::AttrSet(entries) => {
            if entries.len() == 0 {
                chars_of("{ }")
            } else {
                let mut r = chars_of("{ ");
                let mut i: usize = 0;
                while i < entries.len()
                    invariant
                        0 <= i <= entries@.len(),
                        entries@.len() > 0,
                        r@ == "{ "@ + join(entry_texts(entry_vals(entries@.take(i as int))), " "@),
                    decreases entries@.len() - i,
                {
                    assert(entries@.take(i + 1).drop_last() == entries@.take(i as int));
                    proof {
                        assert(decreases_to!(*value => entries@[i as int].1));
                    }
                    let mut t = chars_of(entries[i].0.as_str());
                    push_all(&mut t, &chars_of(" = "));
                    let vt = nix_chars(&entries[i].1);
                    push_all(&mut t, &vt);
                    t.push(';');
                    assert(t@ =~= entries@[i as int].0@ + " = "@ + nix_text(entries@[i as int].1@) + ";"@) by {
                        reveal_strlit(";");
                    }
                    if i > 0 {
                        r.push(' ');
                    }
                    push_all(&mut r, &t);
                    assert(entry_vals(entries@.take(i + 1)) == entry_vals(entries@.take(i as int)).push((entries@[i as int].0@, entries@[i as int].1@)));
                    assert(entry_vals(entries@.take(i + 1)).drop_last() =~= entry_vals(entries@.take(i as int)));
                    assert(entry_texts(entry_vals(entries@.take(i + 1))) == entry_texts(entry_vals(entries@.take(i as int))).push(t@));
                    proof {
                        lemma_join_push(entry_texts(entry_vals(entries@.take(i as int))), t@, " "@);
                        reveal_strlit(" ");
                    }
                    assert(r@ =~= "{ "@ + join(entry_texts(entry_vals(entries@.take(i + 1))), " "@));
                    i += 1;
                }
                assert(entries@.take(entries@.len() as int) == entries@);
                push_all(&mut r, &chars_of(" }"));
                r
            }
        },
    }
}

/// Serialise `value` to Nix syntax that can be pasted into a file as a
/// value expression.
pub fn value_to_nix(value: &NixValue) -> (r: String)
    ensures
        r@ == nix_text(value@),
{
    let v = nix_chars(value);
    string_from(&v)
}


// ---------------------------------------------------------------------------
// Indentation detection
// ---------------------------------------------------------------------------

/// A line holding nothing but whitespace.
pub open spec fn is_blank(l: Seq<char>) -> bool {
    trim(l).len() == 0
}

/// A non-blank line that starts with a tab.
pub open spec fn tab_indented(l: Seq<char>) -> bool {
    !is_blank(l) && l.len() > 0 && l[0] == '\t'
}

/// A non-blank line that starts with a space.
pub open spec fn space_indented(l: Seq<char>) -> bool {
    !is_blank(l) && l.len() > 0 && l[0] == ' '
}

/// Some line is tab-indented.
pub open spec fn any_tab_indented(ls: Seq<Seq<char>>) -> bool {
    exists|i: int| 0 <= i < ls.len() && tab_indented(#[trigger] ls[i])
}

/// The number of spaces a line starts with.
pub open spec fn leading_spaces(l: Seq<char>) -> nat
    decreases l.len(),
{
    if l.len() > 0 && l[0] == ' ' {
        1 + leading_spaces(l.drop_first())
    } else {
        0
    }
}

/// The leading-space counts of the space-indented lines, in order.
pub open spec fn indent_levels(ls: Seq<Seq<char>>) -> Seq<nat>
    decreases ls.len(),
{
    if ls.len() == 0 {
        Seq::<nat>::empty()
    } else if space_indented(ls.last()) {
        indent_levels(ls.drop_last()).push(leading_spaces(ls.last()))
    } else {
        indent_levels(ls.drop_last())
    }
}

/// Greatest common divisor (Euclid).
pub open spec fn gcd(a: nat, b: nat) -> nat
    decreases b,
{
    if b == 0 {
        a
    } else {
        gcd(b, a % b)
    }
}

/// `ns` folded with [`gcd`] from 0.
pub open spec fn gcd_all(ns: Seq<nat>) -> nat
    decreases ns.len(),
{
    if ns.len() == 0 {
        0
    } else {
        gcd(gcd_all(ns.drop_last()), ns.last())
    }
}

/// The least element of a non-empty sequence.
pub open spec fn min_all(ns: Seq<nat>) -> nat
    decreases ns.len(),
{
    if ns.len() <= 1 {
        if ns.len() == 1 { ns[0] } else { 0 }
    } else {
        let m = min_all(ns.drop_last());
        if ns.last() < m { ns.last() } else { m }
    }
}

/// `n` spaces.
pub open spec fn spaces(n: nat) -> Seq<char> {
    Seq::new(n, |i: int| ' ')
}

/// The indentation unit of a source text: a tab if any non-blank line is
/// tab-indented; otherwise the greatest common divisor of the leading-space
/// counts of the space-indented lines, or, when that is at most one, their
/// least count but at least two; two spaces when no line is indented.
pub open spec fn indent_unit(source: Seq<char>) -> Seq<char> {
    let ls = lines(source);
    if any_tab_indented(ls) {
        seq!['\t']
    } else {
        let ns = indent_levels(ls);
        if ns.len() == 0 {
            spaces(2)
        } else {
            let u = gcd_all(ns);
            if u <= 1 {
                spaces(if min_all(ns) < 2 { 2 } else { min_all(ns) })
            } else {
                spaces(u)
            }
        }
    }
}

fn gcd_exec(a: usize, b: usize) -> (r: usize)
    ensures
        r == gcd(a as nat, b as nat),
    decreases b,
{
    if b == 0 {
        a
    } else {
        gcd_exec(b, a % b)
    }
}

fn leading_spaces_exec(l: &Vec<char>) -> (r: usize)
    ensures
        r == leading_spaces(l@),
{
    let mut i: usize = 0;
    assert(l@.skip(0) == l@);
    while i < l.len() && l[i] == ' '
        invariant
            0 <= i <= l@.len(),
            forall|k: int| 0 <= k < i ==> l@[k] == ' ',
            leading_spaces(l@) == i + leading_spaces(l@.skip(i as int)),
        decreases l@.len() - i,
    {
        assert(l@.skip(i as int).drop_first() == l@.skip(i + 1));
        i += 1;
    }
    i
}

fn spaces_exec(n: usize) -> (r: Vec<char>)
    ensures
        r@ == spaces(n as nat),
{
    let mut r: Vec<char> = Vec::new();
    for i in 0..n
        invariant
            r@ == spaces(i as nat),
    {
        r.push(' ');
        assert(r@ =~= spaces((i + 1) as nat));
    }
    r
}

/// Detect the indentation unit used in `source` (see [`indent_unit`]).
pub fn detect_indent(source: &str) -> (r: String)
    ensures
        r@ == indent_unit(source@),
{
    let src = chars_of(source);
    let ls = lines_exec(&src);
    let ghost lv = ls@.map_values(|p: Vec<char>| p@);
    let mut i: usize = 0;
    while i < ls.len()
        invariant
            0 <= i <= ls@.len(),
            lv == ls@.map_values(|p: Vec<char>| p@),
            lv == lines(source@),
            forall|k: int| 0 <= k < i ==> !tab_indented(#[trigger] lv[k]),
        decreases ls@.len() - i,
    {
        let t = trim_chars(&ls[i]);
        if t.len() > 0 && ls[i].len() > 0 && ls[i][0] == '\t' {
            assert(tab_indented(lv[i as int]));
            assert(any_tab_indented(lv));

            let tab = chars_of("\t");
            proof { reveal_strlit("\t"); }
            assert(tab@ =~= seq!['\t']);
            return string_from(&tab);
        }
        i += 1;
    }
    assert(!any_tab_indented(lv));
    let mut levels: Vec<usize> = Vec::new();
    let mut unit: usize = 0;
    let mut min: usize = 0;
    let mut j: usize = 0;
    while j < ls.len()
        invariant
            0 <= j <= ls@.len(),
            lv == ls@.map_values(|p: Vec<char>| p@),
            levels@.map_values(|n: usize| n as nat) == indent_levels(lv.take(j as int)),
            unit == gcd_all(indent_levels(lv.take(j as int))),
            levels@.len() > 0 ==> min == min_all(indent_levels(lv.take(j as int))),
            forall|k: int| 0 <= k < levels@.len() ==> levels@[k] <= usize::MAX,
        decreases ls@.len() - j,
    {
        assert(lv.take(j + 1).drop_last() =~= lv.take(j as int));
        let t = trim_chars(&ls[j]);
        if t.len() > 0 && ls[j].len() > 0 && ls[j][0] == ' ' {
            let n = leading_spaces_exec(&ls[j]);
            let ghost prev = levels@;
            levels.push(n);
            assert(levels@.map_values(|n: usize| n as nat) =~= prev.map_values(|n: usize| n as nat).push(n as nat));
            unit = gcd_exec(unit, n);
            if levels.len() == 1 || n < min {
                min = n;
            }
            proof {
                let ns = indent_levels(lv.take(j + 1));
                assert(ns.drop_last() =~= indent_levels(lv.take(j as int)));
            }
        }
        j += 1;
    }
    assert(lv.take(ls@.len() as int) =~= lv);
    if levels.len() == 0 {
        return string_from(&spaces_exec(2));
    }
    if unit <= 1 {
        let m = if min < 2 { 2 } else { min };
        return string_from(&spaces_exec(m));
    }
    string_from(&spaces_exec(unit))
}

} // verus!

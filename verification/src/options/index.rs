//! Reading the evaluated NixOS option set (`options.json`) into an index.
use vstd::prelude::*;
use vstd::string::*;
use crate::text::{
    alphabetic, chars_eq, chars_of, contains, contains_str, copy_strings, is_alphabetic,
    is_whitespace, is_ws, lemma_trim_char_len, lemma_trim_len, lex_lt, lowercase, slice_of,
    starts_with_str, string_from, string_in, string_views, to_lowercase, trim, trim_chars,
    trim_end_char, trim_end_char_exec, trim_start_char, trim_start_char_exec, views,
};
use crate::options::types::{OptType, OptionMeta, OptionType};

verus! {

/// Errors of building the option index.
#[derive(Debug)]
pub enum IndexError {
    /// `nix build` or `nix eval` exited non-zero.
    NixBuildFailed(String),
    /// JSON or other structured data could not be parsed.
    ParseError(String),
    /// No `flake.lock` in the given directory.
    FlakeLockNotFound,
    /// An I/O error, by its message.
    IoError(String),
}

/// The display text of an index error.
pub open spec fn index_error_text(e: IndexError) -> Seq<char> {
    match e {
        IndexError::NixBuildFailed(m) => "nix build failed: "@ + m@,
        IndexError::ParseError(m) => "parse error: "@ + m@,
        IndexError::FlakeLockNotFound => "flake.lock not found"@,
        IndexError::IoError(m) => "I/O error: "@ + m@,
    }
}

impl IndexError {
    /// The error's display text.
    pub fn message(&self) -> (r: String)
        ensures
            r@ == index_error_text(*self),
    {
        match self {
            IndexError::NixBuildFailed(m) => {
                let mut r = String::from_str("nix build failed: ");
                r.append(m.as_str());
                r
            },
            IndexError::ParseError(m) => {
                let mut r = String::from_str("parse error: ");
                r.append(m.as_str());
                r
            },
            IndexError::FlakeLockNotFound => String::from_str("flake.lock not found"),
            IndexError::IoError(m) => {
                let mut r = String::from_str("I/O error: ");
                r.append(m.as_str());
                r
            },
        }
    }
}

// ---------------------------------------------------------------------------
// Option types
// ---------------------------------------------------------------------------

/// The state of reading `"a", "b"` after the characters of `s`: inside a
/// quote, the current variant, and the variants completed.
pub open spec fn enum_scan(s: Seq<char>) -> (bool, Seq<char>, Seq<Seq<char>>)
    decreases s.len(),
{
    if s.len() == 0 {
        (false, Seq::<char>::empty(), Seq::<Seq<char>>::empty())
    } else {
        let (inq, cur, out) = enum_scan(s.drop_last());
        let c = s.last();
        if !inq {
            if c == '"' {
                (true, Seq::<char>::empty(), out)
            } else {
                (false, cur, out)
            }
        } else if c == '"' {
            (false, Seq::<char>::empty(), if cur.len() > 0 { out.push(cur) } else { out })
        } else {
            (true, cur.push(c), out)
        }
    }
}

/// The quoted, non-empty variants of the tail of a `one of ...` type, in
/// order; an unterminated last quote counts.
pub open spec fn enum_variants(s: Seq<char>) -> Seq<Seq<char>> {
    let (inq, cur, out) = enum_scan(s);
    if inq && cur.len() > 0 {
        out.push(cur)
    } else {
        out
    }
}

/// Extract the quoted variants of the tail of a `one of ...` type string
/// (`"tcp", "udp"` gives `tcp` and `udp`).
pub fn parse_enum_variants(s: &str) -> (r: Vec<String>)
    ensures
        string_views(r@) == enum_variants(s@),
{
    let cs = chars_of(s);
    let mut inq = false;
    let mut cur: Vec<char> = Vec::new();
    let mut out: Vec<String> = Vec::new();
    let mut i: usize = 0;
    while i < cs.len()
        invariant
            0 <= i <= cs@.len(),
            (inq, cur@, string_views(out@)) == enum_scan(cs@.take(i as int)),
        decreases cs@.len() - i,
    {
        assert(cs@.take(i + 1).drop_last() =~= cs@.take(i as int));
        let c = cs[i];
        if !inq {
            if c == '"' {
                inq = true;
                cur = Vec::new();
            }
        } else if c == '"' {
            if cur.len() > 0 {
                let ghost prev = string_views(out@);
                out.push(string_from(&cur));
                assert(string_views(out@) =~= prev.push(cur@));
            }
            inq = false;
            cur = Vec::new();
        } else {
            cur.push(c);
        }
        i += 1;
    }
    assert(cs@.take(cs@.len() as int) =~= cs@);
    if inq && cur.len() > 0 {
        let ghost prev = string_views(out@);
        out.push(string_from(&cur));
        assert(string_views(out@) =~= prev.push(cur@));
    }
    out
}

/// The inner type text of `list of X` or `attribute set of X`: without the
/// prefix and surrounding parentheses.
pub open spec fn inner_type(s: Seq<char>, prefix_len: int) -> Seq<char> {
    trim_end_char(trim_start_char(s.skip(prefix_len), '('), ')')
}

/// The option type named by a NixOS type string.
pub open spec fn option_type_of(s0: Seq<char>) -> OptType
    decreases s0.len(),
{
    let s = trim(s0);
    if s == "boolean"@ {
        OptType::Bool
    } else if s == "string"@ || s == "non-empty string"@ {
        OptType::Str
    } else if s == "signed integer"@ || s == "integer"@ {
        OptType::Int
    } else if s == "floating point number"@ || s == "float"@ {
        OptType::Float
    } else if s == "path"@ {
        OptType::Path
    } else if s == "package"@ {
        OptType::Package
    } else if s == "submodule"@ {
        OptType::Submodule
    } else if s == ""@ || s == "unspecified"@ {
        OptType::Unspecified
    } else if contains(s, "integer"@) || contains(s, "unsigned"@) {
        OptType::Int
    } else if "list of "@.is_prefix_of(s) {
        proof {
            reveal_strlit("list of ");
            lemma_trim_len(s0);
            lemma_trim_char_len(s.skip(8), '(', ')');
            lemma_trim_char_len(trim_start_char(s.skip(8), '('), '(', ')');
        }
        OptType::ListOf(Box::new(option_type_of(inner_type(s, 8))))
    } else if "attribute set of "@.is_prefix_of(s) {
        proof {
            reveal_strlit("attribute set of ");
            lemma_trim_len(s0);
            lemma_trim_char_len(s.skip(17), '(', ')');
            lemma_trim_char_len(trim_start_char(s.skip(17), '('), '(', ')');
        }
        OptType::AttrsOf(Box::new(option_type_of(inner_type(s, 17))))
    } else if "one of "@.is_prefix_of(s) {
        OptType::Enum(enum_variants(s.skip(7)))
    } else {
        OptType::Unspecified
    }
}

fn eq_lit(a: &Vec<char>, lit: &str) -> (b: bool)
    ensures
        b == (a@ == lit@),
{
    chars_eq(a, &chars_of(lit))
}

fn parse_type_chars(s0: &Vec<char>) -> (r: OptionType)
    ensures
        r@ == option_type_of(s0@),
    decreases s0@.len(),
{
    let s = trim_chars(s0);
    proof { lemma_trim_len(s0@); }
    if eq_lit(&s, "boolean") {
        OptionType::Bool
    } else if eq_lit(&s, "string") || eq_lit(&s, "non-empty string") {
        OptionType::String
    } else if eq_lit(&s, "signed integer") || eq_lit(&s, "integer") {
        OptionType::Int
    } else if eq_lit(&s, "floating point number") || eq_lit(&s, "float") {
        OptionType::Float
    } else if eq_lit(&s, "path") {
        OptionType::Path
    } else if eq_lit(&s, "package") {
        OptionType::Package
    } else if eq_lit(&s, "submodule") {
        OptionType::Submodule
    } else if eq_lit(&s, "") || eq_lit(&s, "unspecified") {
        OptionType::Unspecified
    } else if contains_str(&s, "integer") || contains_str(&s, "unsigned") {
        OptionType::Int
    } else if starts_with_str(&s, "list of ") {
        proof { reveal_strlit("list of "); }
        let rest = slice_of(&s, 8, s.len());
        assert(rest@ =~= s@.skip(8));
        let a = trim_start_char_exec(&rest, '(');
        let inner = trim_end_char_exec(&a, ')');
        proof {
            lemma_trim_char_len(rest@, '(', ')');
            lemma_trim_char_len(a@, '(', ')');
        }
        OptionType::ListOf(Box::new(parse_type_chars(&inner)))
    } else if starts_with_str(&s, "attribute set of ") {
        proof { reveal_strlit("attribute set of "); }
        let rest = slice_of(&s, 17, s.len());
        assert(rest@ =~= s@.skip(17));
        let a = trim_start_char_exec(&rest, '(');
        let inner = trim_end_char_exec(&a, ')');
        proof {
            lemma_trim_char_len(rest@, '(', ')');
            lemma_trim_char_len(a@, '(', ')');
        }
        OptionType::AttrsOf(Box::new(parse_type_chars(&inner)))
    } else if starts_with_str(&s, "one of ") {
        proof { reveal_strlit("one of "); }
        let rest = slice_of(&s, 7, s.len());
        assert(rest@ =~= s@.skip(7));
        let t = string_from(&rest);
        OptionType::Enum(parse_enum_variants(t.as_str()))
    } else {
        OptionType::Unspecified
    }
}

/// Parse a NixOS type string into an option type: the common names, any
/// integer type, `list of`, `attribute set of` and `one of`; anything else
/// is unspecified.
pub fn parse_option_type(s: &str) -> (r: OptionType)
    ensures
        r@ == option_type_of(s@),
{
    parse_type_chars(&chars_of(s))
}


// ---------------------------------------------------------------------------
// Descriptions
// ---------------------------------------------------------------------------

/// The DocBook tag names stripped from descriptions.
pub open spec fn is_known_tag(n: Seq<char>) -> bool {
    n == "para"@ || n == "emphasis"@ || n == "code"@ || n == "literal"@ || n == "option"@
        || n == "filename"@ || n == "command"@ || n == "replaceable"@ || n == "programlisting"@
        || n == "note"@ || n == "warning"@ || n == "caution"@ || n == "important"@ || n == "tip"@
        || n == "simpara"@ || n == "term"@ || n == "varlistentry"@ || n == "variablelist"@
        || n == "link"@ || n == "xref"@ || n == "ulink"@ || n == "package"@ || n == "envar"@
        || n == "varname"@ || n == "function"@ || n == "type"@ || n == "classname"@
        || n == "methodname"@ || n == "listitem"@ || n == "itemizedlist"@ || n == "orderedlist"@
}

fn is_known_tag_exec(n: &Vec<char>) -> (b: bool)
    ensures
        b == is_known_tag(n@),
{
    eq_lit(n, "para") || eq_lit(n, "emphasis") || eq_lit(n, "code") || eq_lit(n, "literal")
        || eq_lit(n, "option") || eq_lit(n, "filename") || eq_lit(n, "command") || eq_lit(
        n,
        "replaceable",
    ) || eq_lit(n, "programlisting") || eq_lit(n, "note") || eq_lit(n, "warning") || eq_lit(
        n,
        "caution",
    ) || eq_lit(n, "important") || eq_lit(n, "tip") || eq_lit(n, "simpara") || eq_lit(n, "term")
        || eq_lit(n, "varlistentry") || eq_lit(n, "variablelist") || eq_lit(n, "link") || eq_lit(
        n,
        "xref",
    ) || eq_lit(n, "ulink") || eq_lit(n, "package") || eq_lit(n, "envar") || eq_lit(n, "varname")
        || eq_lit(n, "function") || eq_lit(n, "type") || eq_lit(n, "classname") || eq_lit(
        n,
        "methodname",
    ) || eq_lit(n, "listitem") || eq_lit(n, "itemizedlist") || eq_lit(n, "orderedlist")
}

/// The end of a tag name starting at `k`: the first whitespace, `>` or `/`
/// at or after `k`, or the end of `s`.
pub open spec fn name_end(s: Seq<char>, k: int) -> int
    decreases s.len() - k,
{
    if k < 0 || k >= s.len() || is_ws(s[k]) || s[k] == '>' || s[k] == '/' {
        k
    } else {
        name_end(s, k + 1)
    }
}

/// The first `>` at or after `k`, or the end of `s`.
pub open spec fn next_gt(s: Seq<char>, k: int) -> int
    decreases s.len() - k,
{
    if k < 0 || k >= s.len() || s[k] == '>' {
        k
    } else {
        next_gt(s, k + 1)
    }
}

pub proof fn lemma_next_gt(s: Seq<char>, k: int)
    requires
        0 <= k,
    ensures
        k <= next_gt(s, k),
        next_gt(s, k) < s.len() ==> s[next_gt(s, k)] == '>',
        next_gt(s, k) <= s.len() || k > s.len(),
    decreases s.len() - k,
{
    if k < s.len() && s[k] != '>' {
        lemma_next_gt(s, k + 1);
    }
}

proof fn lemma_name_end(s: Seq<char>, k: int)
    requires
        0 <= k <= s.len(),
    ensures
        k <= name_end(s, k) <= s.len(),
    decreases s.len() - k,
{
    if k < s.len() && !(is_ws(s[k]) || s[k] == '>' || s[k] == '/') {
        lemma_name_end(s, k + 1);
    }
}

/// Where reading continues after a known tag opening at `i` (a `<`, then
/// an optional `/`, a letter, a known tag name, and a closing `>`): just
/// past the `>`.
pub open spec fn tag_end(s: Seq<char>, i: int) -> Option<int> {
    let start = i + 1;
    if 0 <= i && s[i] == '<' && start < s.len() {
        let tcs = if s[start] == '/' {
            start + 1
        } else {
            start
        };
        if tcs < s.len() && alphabetic(s[tcs]) && is_known_tag(s.subrange(tcs, name_end(s, tcs))) && next_gt(
            s,
            i,
        ) < s.len() {
            Some(next_gt(s, i) + 1)
        } else {
            None
        }
    } else {
        None
    }
}

/// The characters of `s` from `i` on, known tags removed.
pub open spec fn cleaned_from(s: Seq<char>, i: int) -> Seq<char>
    decreases s.len() - i,
{
    if i < 0 || i >= s.len() {
        Seq::<char>::empty()
    } else {
        match tag_end(s, i) {
            Some(j) => {
                proof {
                    lemma_next_gt(s, i);
                }
                cleaned_from(s, j)
            },
            None => seq![s[i]] + cleaned_from(s, i + 1),
        }
    }
}

/// A description with known DocBook tags removed and surrounding whitespace
/// trimmed; other `<` and `>` (such as `a < 5`) stay.
pub open spec fn cleaned_description(s: Seq<char>) -> Seq<char> {
    trim(cleaned_from(s, 0))
}

proof fn lemma_cleaned_plain(s: Seq<char>, i: int)
    requires
        0 <= i <= s.len(),
        forall|k: int| i <= k < s.len() ==> s[k] != '<',
    ensures
        cleaned_from(s, i) == s.skip(i),
    decreases s.len() - i,
{
    if i < s.len() {
        lemma_cleaned_plain(s, i + 1);
        assert(seq![s[i]] + s.skip(i + 1) =~= s.skip(i));
    } else {
        assert(s.skip(i) =~= Seq::<char>::empty());
    }
}

/// A description without `<` is only trimmed.
pub proof fn law_plain_description_trimmed(s: Seq<char>)
    requires
        !s.contains('<'),
    ensures
        cleaned_description(s) == trim(s),
{
    assert forall|k: int| 0 <= k < s.len() implies s[k] != '<' by {
        if s[k] == '<' {
            assert(s.contains(s[k]));
        }
    }
    lemma_cleaned_plain(s, 0);
    assert(s.skip(0) =~= s);
}

fn tag_end_exec(s: &Vec<char>, i: usize) -> (r: Option<usize>)
    requires
        i < s@.len(),
    ensures
        match r {
            Some(j) => tag_end(s@, i as int) == Some(j as int),
            None => tag_end(s@, i as int) is None,
        },
{
    if s[i] != '<' {
        return None;
    }
    if i >= s.len() - 1 {
        return None;
    }
    let start = i + 1;
    let tcs = if s[start] == '/' { start + 1 } else { start };
    if tcs >= s.len() || !is_alphabetic(s[tcs]) {
        return None;
    }
    let mut e = tcs;
    while e < s.len() && !is_whitespace(s[e]) && s[e] != '>' && s[e] != '/'
        invariant
            tcs <= e <= s@.len(),
            name_end(s@, tcs as int) == name_end(s@, e as int),
        decreases s@.len() - e,
    {
        e += 1;
    }
    let name = slice_of(s, tcs, e);
    if !is_known_tag_exec(&name) {
        return None;
    }
    let mut c = i;
    while c < s.len() && s[c] != '>'
        invariant
            i <= c <= s@.len(),
            next_gt(s@, i as int) == next_gt(s@, c as int),
        decreases s@.len() - c,
    {
        c += 1;
    }
    if c < s.len() {
        Some(c + 1)
    } else {
        None
    }
}

/// Strip the known DocBook tags from an option description and trim it;
/// a `<` or `>` that does not form a known tag is kept.
pub fn clean_description(s: &str) -> (r: String)
    ensures
        r@ == cleaned_description(s@),
{
    let cs = chars_of(s);
    let mut out: Vec<char> = Vec::new();
    let mut i: usize = 0;
    while i < cs.len()
        invariant
            0 <= i <= cs@.len(),
            out@ + cleaned_from(cs@, i as int) == cleaned_from(cs@, 0),
        decreases cs@.len() - i,
    {
        match tag_end_exec(&cs, i) {
            Some(j) => {
                proof { lemma_next_gt(cs@, i as int); }
                i = j;
            },
            None => {
                let ghost rest = cleaned_from(cs@, i + 1);
                assert(cleaned_from(cs@, i as int) == seq![cs@[i as int]] + rest);
                out.push(cs[i]);
                assert(out@ + rest =~= out@.drop_last() + (seq![cs@[i as int]] + rest));
                i += 1;
            },
        }
    }
    assert(out@ + cleaned_from(cs@, i as int) =~= out@);
    string_from(&trim_chars(&out))
}


// ---------------------------------------------------------------------------
// Raw entries of options.json
// ---------------------------------------------------------------------------

/// A `default`, `example` or `description` field of `options.json`, as far
/// as the index reads it.
#[derive(Debug, Clone)]
pub enum RawValue {
    /// `null` or absent.
    Null,
    /// A NixOS literal wrapper `{ _type, text }` with a string `text`.
    Literal(String),
    /// A JSON string.
    Str(String),
    /// Any other JSON value, as its JSON text (`true`, `42`, `[1,2]`, ...).
    Other(String),
}

/// One element of an option's `declarations`.
#[derive(Debug, Clone)]
pub enum RawDeclaration {
    /// A bare path string.
    Path(String),
    /// An object `{ name, line, column }`, with its `name` if that is a
    /// string.
    Object(Option<String>),
    /// Any other JSON value.
    Other,
}

/// One entry of `options.json`.
#[derive(Debug, Clone)]
pub struct RawOption {
    pub declarations: Vec<RawDeclaration>,
    pub description: RawValue,
    pub default: RawValue,
    pub example: RawValue,
    /// The type string, such as `boolean` or `list of string`.
    pub type_str: String,
}

/// The text of a raw value: none for `null`, the `text` of a literal
/// wrapper, a string's contents, or the JSON text of anything else.
pub open spec fn raw_text(v: RawValue) -> Option<Seq<char>> {
    match v {
        RawValue::Null => None,
        RawValue::Literal(t) => Some(t@),
        RawValue::Str(s) => Some(s@),
        RawValue::Other(j) => Some(j@),
    }
}

/// The text of a default, example or description value.
pub fn value_to_string(val: &RawValue) -> (r: Option<String>)
    ensures
        crate::intent::types::opt_view(r) == raw_text(*val),
{
    match val {
        RawValue::Null => None,
        RawValue::Literal(t) => Some(t.clone()),
        RawValue::Str(s) => Some(s.clone()),
        RawValue::Other(j) => Some(j.clone()),
    }
}

/// The file that declares an option: the first declaration's path (bare or
/// as the object's `name`), or empty.
pub open spec fn declaration_of(decls: Seq<RawDeclaration>) -> Seq<char> {
    if decls.len() == 0 {
        Seq::<char>::empty()
    } else {
        match decls[0] {
            RawDeclaration::Path(p) => p@,
            RawDeclaration::Object(Some(n)) => n@,
            _ => Seq::<char>::empty(),
        }
    }
}

/// The primary declaration path of an option.
pub fn extract_declaration(declarations: &[RawDeclaration]) -> (r: String)
    ensures
        r@ == declaration_of(declarations@),
{
    if declarations.len() == 0 {
        return String::new();
    }
    match &declarations[0] {
        RawDeclaration::Path(p) => p.clone(),
        RawDeclaration::Object(Some(n)) => n.clone(),
        _ => String::new(),
    }
}

/// The metadata of the option at `path` with raw entry `raw`.
pub open spec fn meta_of(path: Seq<char>, raw: RawOption) -> crate::options::types::MetaModel {
    crate::options::types::MetaModel {
        path,
        option_type: option_type_of(raw.type_str@),
        default: raw_text(raw.default),
        description: cleaned_description(
            match raw_text(raw.description) {
                Some(t) => t,
                None => Seq::<char>::empty(),
            },
        ),
        declared_in: declaration_of(raw.declarations@),
        example: raw_text(raw.example),
    }
}

/// `s` with `m` placed after every entry whose path is not above its own.
pub open spec fn insert_by_path(s: Seq<crate::options::types::MetaModel>, m: crate::options::types::MetaModel) -> Seq<crate::options::types::MetaModel>
    decreases s.len(),
{
    if s.len() == 0 {
        seq![m]
    } else if !lex_lt(m.path, s.last().path) {
        s.push(m)
    } else {
        insert_by_path(s.drop_last(), m).push(s.last())
    }
}

/// The entries ordered by path (a stable sort).
pub open spec fn sorted_by_path(s: Seq<crate::options::types::MetaModel>) -> Seq<crate::options::types::MetaModel>
    decreases s.len(),
{
    if s.len() == 0 {
        Seq::<crate::options::types::MetaModel>::empty()
    } else {
        insert_by_path(sorted_by_path(s.drop_last()), s.last())
    }
}

/// `a` does not sort after `b`.
pub open spec fn path_le(a: Seq<char>, b: Seq<char>) -> bool {
    !lex_lt(b, a)
}

/// The paths never decrease along `s`.
pub open spec fn paths_ascending(s: Seq<crate::options::types::MetaModel>) -> bool {
    forall|i: int, j: int| 0 <= i < j < s.len() ==> path_le((#[trigger] s[i]).path, (#[trigger] s[j]).path)
}

proof fn lemma_path_le_trans(a: Seq<char>, b: Seq<char>, c: Seq<char>)
    requires
        path_le(a, b),
        path_le(b, c),
    ensures
        path_le(a, c),
{
    if lex_lt(c, a) {
        if a != b {
            crate::text::lemma_lex_total(a, b);
        }
        if b != c {
            crate::text::lemma_lex_total(b, c);
        }
        if a != b && b != c {
            crate::text::lemma_lex_transitive(a, b, c);
            crate::text::lemma_lex_transitive(a, c, a);
            crate::text::lemma_lex_irreflexive(a);
        }
    }
}

/// Inserting keeps a bound that every entry and the new one meet.
proof fn lemma_insert_keeps_bound(s: Seq<crate::options::types::MetaModel>, m: crate::options::types::MetaModel, top: Seq<char>)
    requires
        forall|k: int| 0 <= k < s.len() ==> path_le((#[trigger] s[k]).path, top),
        path_le(m.path, top),
    ensures
        forall|k: int| 0 <= k < insert_by_path(s, m).len() ==> path_le((#[trigger] insert_by_path(s, m)[k]).path, top),
    decreases s.len(),
{
    let r = insert_by_path(s, m);
    if s.len() == 0 {
    } else if !lex_lt(m.path, s.last().path) {
        assert forall|k: int| 0 <= k < r.len() implies path_le((#[trigger] r[k]).path, top) by {
            if k < s.len() {
                assert(r[k] == s[k]);
            }
        }
    } else {
        let d = s.drop_last();
        assert forall|k: int| 0 <= k < d.len() implies path_le((#[trigger] d[k]).path, top) by {
            assert(d[k] == s[k]);
        }
        lemma_insert_keeps_bound(d, m, top);
        let pd = insert_by_path(d, m);
        assert forall|k: int| 0 <= k < r.len() implies path_le((#[trigger] r[k]).path, top) by {
            if k < pd.len() {
                assert(r[k] == pd[k]);
            } else {
                assert(r[k] == s[s.len() - 1]);
            }
        }
    }
}

proof fn lemma_insert_by_path(s: Seq<crate::options::types::MetaModel>, m: crate::options::types::MetaModel)
    requires
        paths_ascending(s),
    ensures
        paths_ascending(insert_by_path(s, m)),
        insert_by_path(s, m).to_multiset() == s.to_multiset().insert(m),
    decreases s.len(),
{
    broadcast use vstd::seq_lib::group_to_multiset_ensures;
    let r = insert_by_path(s, m);
    if s.len() == 0 {
        assert(r =~= s.push(m));
    } else if !lex_lt(m.path, s.last().path) {
        assert forall|i: int, j: int| 0 <= i < j < r.len() implies path_le((#[trigger] r[i]).path, (#[trigger] r[j]).path) by {
            if j == s.len() {
                assert(r[i] == s[i]);
                if i < s.len() - 1 {
                    assert(path_le(s[i].path, s[s.len() - 1].path));
                } else {
                    crate::text::lemma_lex_irreflexive(s[i].path);
                }
                lemma_path_le_trans(s[i].path, s.last().path, m.path);
            } else {
                assert(r[i] == s[i] && r[j] == s[j]);
            }
        }
    } else {
        let d = s.drop_last();
        let last = s.last();
        assert(paths_ascending(d)) by {
            assert forall|i: int, j: int| 0 <= i < j < d.len() implies path_le((#[trigger] d[i]).path, (#[trigger] d[j]).path) by {
                assert(d[i] == s[i] && d[j] == s[j]);
            }
        }
        lemma_insert_by_path(d, m);
        assert forall|k: int| 0 <= k < d.len() implies path_le((#[trigger] d[k]).path, last.path) by {
            assert(d[k] == s[k]);
        }
        assert(path_le(m.path, last.path)) by {
            if lex_lt(last.path, m.path) {
                crate::text::lemma_lex_transitive(m.path, last.path, m.path);
                crate::text::lemma_lex_irreflexive(m.path);
            }
        }
        lemma_insert_keeps_bound(d, m, last.path);
        let pd = insert_by_path(d, m);
        assert(s =~= d.push(last));
        assert forall|i: int, j: int| 0 <= i < j < r.len() implies path_le((#[trigger] r[i]).path, (#[trigger] r[j]).path) by {
            if j == pd.len() {
                assert(r[i] == pd[i]);
            } else {
                assert(r[i] == pd[i] && r[j] == pd[j]);
            }
        }
    }
}

/// The options of an index come out ordered by path, and are exactly the
/// entries read: [`raw_options_to_meta`] sorts without losing, adding or
/// changing an entry.
pub proof fn law_options_sorted(s: Seq<crate::options::types::MetaModel>)
    ensures
        paths_ascending(sorted_by_path(s)),
        sorted_by_path(s).to_multiset() == s.to_multiset(),
    decreases s.len(),
{
    broadcast use vstd::seq_lib::group_to_multiset_ensures;
    if s.len() > 0 {
        law_options_sorted(s.drop_last());
        lemma_insert_by_path(sorted_by_path(s.drop_last()), s.last());
        assert(s =~= s.drop_last().push(s.last()));
    }
}

fn meta_from(path: &String, raw: &RawOption) -> (r: OptionMeta)
    ensures
        r@ == meta_of(path@, *raw),
{
    let desc = match value_to_string(&raw.description) {
        Some(t) => t,
        None => String::new(),
    };
    OptionMeta {
        path: path.clone(),
        option_type: parse_option_type(raw.type_str.as_str()),
        default: value_to_string(&raw.default),
        description: clean_description(desc.as_str()),
        declared_in: extract_declaration(raw.declarations.as_slice()),
        example: value_to_string(&raw.example),
    }
}

fn insert_position(v: &Vec<OptionMeta>, path: &String) -> (p: usize)
    ensures
        p <= v@.len(),
        forall|m: crate::options::types::MetaModel| m.path == path@ ==> insert_by_path(
            v@.map_values(|x: OptionMeta| x@),
            m,
        ) == v@.map_values(|x: OptionMeta| x@).take(p as int).push(m) + v@.map_values(|x: OptionMeta| x@).skip(p as int),
{
    let ghost vm = v@.map_values(|x: OptionMeta| x@);
    let pc = chars_of(path.as_str());
    let mut p: usize = v.len();
    assert(vm.take(vm.len() as int) =~= vm);
    while p > 0 && crate::text::lex_less(&pc, &chars_of(v[p - 1].path.as_str()))
        invariant
            0 <= p <= v@.len(),
            vm == v@.map_values(|x: OptionMeta| x@),
            pc@ == path@,
            forall|m: crate::options::types::MetaModel| m.path == path@ ==> insert_by_path(vm, m) == insert_by_path(
                vm.take(p as int),
                m,
            ) + vm.skip(p as int),
        decreases p,
    {
        proof {
            assert forall|m: crate::options::types::MetaModel| m.path == path@ implies insert_by_path(vm, m)
                == insert_by_path(vm.take(p - 1), m) + vm.skip(p - 1) by {
                let t = vm.take(p as int);
                assert(t.drop_last() =~= vm.take(p - 1));
                assert(t.last() == vm[p - 1]);
                assert(vm.skip(p - 1) =~= seq![vm[p - 1]] + vm.skip(p as int));
                assert(insert_by_path(vm.take(p - 1), m).push(vm[p - 1]) + vm.skip(p as int)
                    =~= insert_by_path(vm.take(p - 1), m) + vm.skip(p - 1));
            }
        }
        p -= 1;
    }
    proof {
        assert forall|m: crate::options::types::MetaModel| m.path == path@ implies insert_by_path(vm, m)
            == vm.take(p as int).push(m) + vm.skip(p as int) by {
            let t = vm.take(p as int);
            if p == 0 {
                assert(t.len() == 0);
            } else {
                assert(t.last() == vm[p - 1]);
            }
        }
    }
    p
}

/// The metadata of raw `options.json` entries (path and entry, in the order
/// they were read), sorted by path; entries with equal paths keep their
/// order.
pub fn raw_options_to_meta(raw: &Vec<(String, RawOption)>) -> (r: Vec<OptionMeta>)
    ensures
        r@.map_values(|m: OptionMeta| m@) == sorted_by_path(
            raw@.map_values(|e: (String, RawOption)| meta_of(e.0@, e.1)),
        ),
{
    let ghost all = raw@.map_values(|e: (String, RawOption)| meta_of(e.0@, e.1));
    let mut out: Vec<OptionMeta> = Vec::new();
    for i in 0..raw.len()
        invariant
            all == raw@.map_values(|e: (String, RawOption)| meta_of(e.0@, e.1)),
            out@.map_values(|m: OptionMeta| m@) == sorted_by_path(all.take(i as int)),
    {
        let m = meta_from(&raw[i].0, &raw[i].1);
        let p = insert_position(&out, &raw[i].0);
        let ghost before = out@.map_values(|m: OptionMeta| m@);
        let ghost mm = m@;
        out.insert(p, m);
        assert(all.take(i + 1).drop_last() =~= all.take(i as int));
        assert(all.take(i + 1).last() == mm);
        assert(out@.map_values(|m: OptionMeta| m@) =~= before.take(p as int).push(mm) + before.skip(p as int));
    }
    assert(all.take(raw@.len() as int) =~= all);
    out
}

// ---------------------------------------------------------------------------
// Flake lock and configuration names
// ---------------------------------------------------------------------------

/// The revision of the first node of `nodes` named `name` that has one.
pub open spec fn rev_of_node(nodes: Seq<(Seq<char>, Option<Seq<char>>)>, name: Seq<char>) -> Option<Seq<char>>
    decreases nodes.len(),
{
    if nodes.len() == 0 {
        None
    } else {
        match rev_of_node(nodes.drop_last(), name) {
            Some(r) => Some(r),
            None => if nodes.last().0 == name {
                nodes.last().1
            } else {
                None
            },
        }
    }
}

/// The revision of the first node whose lowercase name holds `nixpkgs`
/// and that has a revision.
pub open spec fn rev_of_nixpkgs_like(nodes: Seq<(Seq<char>, Option<Seq<char>>)>) -> Option<Seq<char>>
    decreases nodes.len(),
{
    if nodes.len() == 0 {
        None
    } else {
        match rev_of_nixpkgs_like(nodes.drop_last()) {
            Some(r) => Some(r),
            None => if contains(lowercase(nodes.last().0), "nixpkgs"@) {
                nodes.last().1
            } else {
                None
            },
        }
    }
}

/// The nixpkgs revision pinned by a lock file, from its nodes (name and
/// `locked.rev`, in the lock file's key order): that of the node `nixpkgs`,
/// `nixpkgs-stable`, `nixos-stable` or `nixos-unstable`, tried in that
/// order, else of the first node whose name holds `nixpkgs` in any case,
/// else `unknown`.
pub open spec fn nixpkgs_rev_of(nodes: Seq<(Seq<char>, Option<Seq<char>>)>) -> Seq<char> {
    if rev_of_node(nodes, "nixpkgs"@) is Some {
        rev_of_node(nodes, "nixpkgs"@).unwrap()
    } else if rev_of_node(nodes, "nixpkgs-stable"@) is Some {
        rev_of_node(nodes, "nixpkgs-stable"@).unwrap()
    } else if rev_of_node(nodes, "nixos-stable"@) is Some {
        rev_of_node(nodes, "nixos-stable"@).unwrap()
    } else if rev_of_node(nodes, "nixos-unstable"@) is Some {
        rev_of_node(nodes, "nixos-unstable"@).unwrap()
    } else if rev_of_nixpkgs_like(nodes) is Some {
        rev_of_nixpkgs_like(nodes).unwrap()
    } else {
        "unknown"@
    }
}

/// The nodes as plain values.
pub open spec fn node_views(nodes: Seq<(String, Option<String>)>) -> Seq<(Seq<char>, Option<Seq<char>>)> {
    nodes.map_values(|n: (String, Option<String>)| (n.0@, crate::intent::types::opt_view(n.1)))
}

fn rev_of_node_exec(nodes: &Vec<(String, Option<String>)>, name: &str) -> (r: Option<String>)
    ensures
        crate::intent::types::opt_view(r) == rev_of_node(node_views(nodes@), name@),
{
    let ghost nv = node_views(nodes@);
    let nm = chars_of(name);
    for i in 0..nodes.len()
        invariant
            nv == node_views(nodes@),
            nm@ == name@,
            rev_of_node(nv.take(i as int), name@) is None,
    {
        assert(nv.take(i + 1).drop_last() =~= nv.take(i as int));
        if chars_eq(&chars_of(nodes[i].0.as_str()), &nm) {
            match &nodes[i].1 {
                Some(r) => {
                    proof { lemma_rev_of_node_prefix(nv, name@, i + 1); }
                    return Some(r.clone());
                },
                None => {},
            }
        }
    }
    assert(nv.take(nodes@.len() as int) =~= nv);
    None
}

proof fn lemma_rev_of_node_prefix(nv: Seq<(Seq<char>, Option<Seq<char>>)>, name: Seq<char>, k: int)
    requires
        0 <= k <= nv.len(),
        rev_of_node(nv.take(k), name) is Some,
    ensures
        rev_of_node(nv, name) == rev_of_node(nv.take(k), name),
    decreases nv.len() - k,
{
    if k < nv.len() {
        assert(nv.drop_last().take(k) =~= nv.take(k));
        lemma_rev_of_node_prefix(nv.drop_last(), name, k);
    } else {
        assert(nv.take(k) =~= nv);
    }
}

proof fn lemma_rev_like_prefix(nv: Seq<(Seq<char>, Option<Seq<char>>)>, k: int)
    requires
        0 <= k <= nv.len(),
        rev_of_nixpkgs_like(nv.take(k)) is Some,
    ensures
        rev_of_nixpkgs_like(nv) == rev_of_nixpkgs_like(nv.take(k)),
    decreases nv.len() - k,
{
    if k < nv.len() {
        assert(nv.drop_last().take(k) =~= nv.take(k));
        lemma_rev_like_prefix(nv.drop_last(), k);
    } else {
        assert(nv.take(k) =~= nv);
    }
}

/// Read the nixpkgs revision from the nodes of `flake.lock` (name and
/// `locked.rev` of each node, in key order).
#[verifier::loop_isolation(false)]
pub fn pick_nixpkgs_rev(nodes: &Vec<(String, Option<String>)>) -> (r: String)
    ensures
        r@ == nixpkgs_rev_of(node_views(nodes@)),
{
    if let Some(r) = rev_of_node_exec(nodes, "nixpkgs") {
        return r;
    }
    if let Some(r) = rev_of_node_exec(nodes, "nixpkgs-stable") {
        return r;
    }
    if let Some(r) = rev_of_node_exec(nodes, "nixos-stable") {
        return r;
    }
    if let Some(r) = rev_of_node_exec(nodes, "nixos-unstable") {
        return r;
    }
    let ghost nv = node_views(nodes@);
    for i in 0..nodes.len()
        invariant
            nv == node_views(nodes@),
            rev_of_nixpkgs_like(nv.take(i as int)) is None,
    {
        assert(nv.take(i + 1).drop_last() =~= nv.take(i as int));
        let lower = to_lowercase(nodes[i].0.as_str());
        if contains_str(&lower, "nixpkgs") {
            match &nodes[i].1 {
                Some(r) => {
                    proof { lemma_rev_like_prefix(nv, i + 1); }
                    return r.clone();
                },
                None => {},
            }
        }
    }
    assert(nv.take(nodes@.len() as int) =~= nv);
    String::from_str("unknown")
}

/// The configuration to build among `names`: `preferred` (the machine's
/// hostname or user name) when it is one of them, else the first; none
/// when there are none.
pub fn pick_configuration(names: &Vec<String>, preferred: Option<String>) -> (r: Option<String>)
    ensures
        names@.len() == 0 <==> r is None,
        r matches Some(n) ==> (match preferred {
            Some(p) => if string_views(names@).contains(p@) {
                n@ == p@
            } else {
                n@ == names@[0]@
            },
            None => n@ == names@[0]@,
        }),
{
    if names.len() == 0 {
        return None;
    }
    match preferred {
        Some(p) => {
            if string_in(names, &p) {
                Some(p)
            } else {
                Some(names[0].clone())
            }
        },
        None => Some(names[0].clone()),
    }
}

} // verus!

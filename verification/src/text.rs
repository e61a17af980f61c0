//! Character-sequence utilities shared by the whole library.
//!
//! Text is modelled as `Seq<char>`; executable code works on `Vec<char>`.
//! Each helper here has the behaviour of the standard-library `str` method
//! of the same name, stated over that model.
use vstd::prelude::*;

verus! {

// ---------------------------------------------------------------------------
// Conversions
// ---------------------------------------------------------------------------

/// Collect the characters of `s` into a vector.
pub fn chars_of(s: &str) -> (v: Vec<char>)
    ensures
        v@ == s@,
{
    let mut v: Vec<char> = Vec::new();
    for c in it: s.chars()
        invariant
            v@ == it.seq().take(it.index() as int),
    {
        v.push(c);
    }
    v
}

/// `String` made of the characters of `v`, in order
/// (`FromIterator<&char> for String`).
#[verifier::external_body]
pub(crate) fn string_from(v: &Vec<char>) -> (s: String)
    ensures
        s@ == v@,
{
    v.iter().collect()
}

/// Append every character of `src` to `dst`.
pub fn push_all(dst: &mut Vec<char>, src: &Vec<char>)
    ensures
        final(dst)@ == old(dst)@ + src@,
{
    let ghost start = dst@;
    for i in 0..src.len()
        invariant
            dst@ == start + src@.take(i as int),
    {
        dst.push(src[i]);
        assert(src@.take(i + 1) == src@.take(i as int).push(src@[i as int]));
    }
    assert(src@.take(src@.len() as int) == src@);
}

/// A copy of `v[from..to]`.
pub fn slice_of(v: &Vec<char>, from: usize, to: usize) -> (r: Vec<char>)
    requires
        from <= to <= v@.len(),
    ensures
        r@ == v@.subrange(from as int, to as int),
{
    let mut r: Vec<char> = Vec::new();
    let mut i = from;
    while i < to
        invariant
            from <= i <= to <= v@.len(),
            r@ == v@.subrange(from as int, i as int),
        decreases to - i,
    {
        r.push(v[i]);
        i += 1;
    }
    r
}

// ---------------------------------------------------------------------------
// Whitespace (Unicode `White_Space`, as used by `char::is_whitespace`)
// ---------------------------------------------------------------------------

/// The Unicode `White_Space` property.
pub open spec fn is_ws(c: char) -> bool {
    let u = c as u32;
    (0x9 <= u <= 0xD) || u == 0x20 || u == 0x85 || u == 0xA0 || u == 0x1680
        || (0x2000 <= u <= 0x200A) || u == 0x2028 || u == 0x2029 || u == 0x202F
        || u == 0x205F || u == 0x3000
}

/// `char::is_whitespace`.
pub fn is_whitespace(c: char) -> (b: bool)
    ensures
        b == is_ws(c),
{
    let u = c as u32;
    (0x9 <= u && u <= 0xD) || u == 0x20 || u == 0x85 || u == 0xA0 || u == 0x1680
        || (0x2000 <= u && u <= 0x200A) || u == 0x2028 || u == 0x2029 || u == 0x202F
        || u == 0x205F || u == 0x3000
}

/// `s` without its leading whitespace.
pub open spec fn trim_start(s: Seq<char>) -> Seq<char>
    decreases s.len(),
{
    if s.len() > 0 && is_ws(s[0]) {
        trim_start(s.drop_first())
    } else {
        s
    }
}

/// `s` without its trailing whitespace.
pub open spec fn trim_end(s: Seq<char>) -> Seq<char>
    decreases s.len(),
{
    if s.len() > 0 && is_ws(s.last()) {
        trim_end(s.drop_last())
    } else {
        s
    }
}

/// `s` without leading and trailing whitespace (`str::trim`).
pub open spec fn trim(s: Seq<char>) -> Seq<char> {
    trim_end(trim_start(s))
}

proof fn lemma_trim_start_skip(s: Seq<char>, i: int)
    requires
        0 <= i <= s.len(),
        forall|j: int| 0 <= j < i ==> is_ws(#[trigger] s[j]),
    ensures
        trim_start(s) == trim_start(s.skip(i)),
    decreases i,
{
    if i > 0 {
        assert(s.skip(1) == s.drop_first());
        lemma_trim_start_skip(s.drop_first(), i - 1);
        assert(s.drop_first().skip(i - 1) == s.skip(i));
    } else {
        assert(s.skip(0) == s);
    }
}

proof fn lemma_trim_end_take(s: Seq<char>, i: int)
    requires
        0 <= i <= s.len(),
        forall|j: int| i <= j < s.len() ==> is_ws(#[trigger] s[j]),
    ensures
        trim_end(s) == trim_end(s.take(i)),
    decreases s.len() - i,
{
    if i < s.len() {
        assert(s.take(s.len() - 1) == s.drop_last());
        lemma_trim_end_take(s.drop_last(), i);
        assert(s.drop_last().take(i) == s.take(i));
    } else {
        assert(s.take(s.len() as int) == s);
    }
}

/// `str::trim_start`.
pub fn trim_start_chars(s: &Vec<char>) -> (r: Vec<char>)
    ensures
        r@ == trim_start(s@),
{
    let mut i: usize = 0;
    while i < s.len() && is_whitespace(s[i])
        invariant
            0 <= i <= s@.len(),
            forall|j: int| 0 <= j < i ==> is_ws(#[trigger] s@[j]),
        decreases s@.len() - i,
    {
        i += 1;
    }
    proof {
        lemma_trim_start_skip(s@, i as int);
        assert(s@.skip(i as int) == s@.subrange(i as int, s@.len() as int));
    }
    slice_of(s, i, s.len())
}

/// `str::trim_end`.
pub fn trim_end_chars(s: &Vec<char>) -> (r: Vec<char>)
    ensures
        r@ == trim_end(s@),
{
    let mut i: usize = s.len();
    while i > 0 && is_whitespace(s[i - 1])
        invariant
            0 <= i <= s@.len(),
            forall|j: int| i <= j < s@.len() ==> is_ws(#[trigger] s@[j]),
        decreases i,
    {
        i -= 1;
    }
    proof {
        lemma_trim_end_take(s@, i as int);
        assert(s@.take(i as int) == s@.subrange(0, i as int));
    }
    slice_of(s, 0, i)
}

/// `str::trim`.
pub fn trim_chars(s: &Vec<char>) -> (r: Vec<char>)
    ensures
        r@ == trim(s@),
{
    let a = trim_start_chars(s);
    trim_end_chars(&a)
}


pub proof fn lemma_trim_len(s: Seq<char>)
    ensures
        trim(s).len() <= s.len(),
{
    lemma_trim_start_len(s);
    lemma_trim_end_len(trim_start(s));
}

proof fn lemma_trim_start_len(s: Seq<char>)
    ensures
        trim_start(s).len() <= s.len(),
    decreases s.len(),
{
    if s.len() > 0 && is_ws(s[0]) {
        lemma_trim_start_len(s.drop_first());
    }
}

proof fn lemma_trim_end_len(s: Seq<char>)
    ensures
        trim_end(s).len() <= s.len(),
    decreases s.len(),
{
    if s.len() > 0 && is_ws(s.last()) {
        lemma_trim_end_len(s.drop_last());
    }
}

/// `s` without the copies of `c` at its start (`str::trim_start_matches`).
pub open spec fn trim_start_char(s: Seq<char>, c: char) -> Seq<char>
    decreases s.len(),
{
    if s.len() > 0 && s[0] == c {
        trim_start_char(s.drop_first(), c)
    } else {
        s
    }
}

/// `s` without the copies of `c` at its end (`str::trim_end_matches`).
pub open spec fn trim_end_char(s: Seq<char>, c: char) -> Seq<char>
    decreases s.len(),
{
    if s.len() > 0 && s.last() == c {
        trim_end_char(s.drop_last(), c)
    } else {
        s
    }
}

pub proof fn lemma_trim_char_len(s: Seq<char>, a: char, b: char)
    ensures
        trim_start_char(s, a).len() <= s.len(),
        trim_end_char(s, b).len() <= s.len(),
    decreases s.len(),
{
    if s.len() > 0 {
        lemma_trim_char_len(s.drop_first(), a, b);
        lemma_trim_char_len(s.drop_last(), a, b);
    }
}

/// `str::trim_start_matches` with a `char`.
pub fn trim_start_char_exec(s: &Vec<char>, c: char) -> (r: Vec<char>)
    ensures
        r@ == trim_start_char(s@, c),
{
    let mut i: usize = 0;
    assert(s@.skip(0) =~= s@);
    while i < s.len() && s[i] == c
        invariant
            0 <= i <= s@.len(),
            trim_start_char(s@, c) == trim_start_char(s@.skip(i as int), c),
        decreases s@.len() - i,
    {
        assert(s@.skip(i as int).drop_first() =~= s@.skip(i + 1));
        i += 1;
    }
    assert(s@.skip(i as int) =~= s@.subrange(i as int, s@.len() as int));
    slice_of(s, i, s.len())
}

/// `str::trim_end_matches` with a `char`.
pub fn trim_end_char_exec(s: &Vec<char>, c: char) -> (r: Vec<char>)
    ensures
        r@ == trim_end_char(s@, c),
{
    let mut i: usize = s.len();
    assert(s@.take(s@.len() as int) =~= s@);
    while i > 0 && s[i - 1] == c
        invariant
            0 <= i <= s@.len(),
            trim_end_char(s@, c) == trim_end_char(s@.take(i as int), c),
        decreases i,
    {
        assert(s@.take(i as int).drop_last() =~= s@.take(i - 1));
        i -= 1;
    }
    assert(s@.take(i as int) =~= s@.subrange(0, i as int));
    slice_of(s, 0, i)
}

/// The Unicode `Alphabetic` property, as `char::is_alphabetic` computes it.
pub uninterp spec fn alphabetic(c: char) -> bool;

/// `char::is_alphabetic`; of ASCII characters exactly the letters are.
#[verifier::external_body]
pub(crate) fn is_alphabetic(c: char) -> (b: bool)
    ensures
        b == alphabetic(c),
        (c as u32) < 128 ==> b == (('a' <= c && c <= 'z') || ('A' <= c && c <= 'Z')),
{
    c.is_alphabetic()
}

// ---------------------------------------------------------------------------
// Searching
// ---------------------------------------------------------------------------

/// `needle` occurs in `hay` at position `i`.
pub open spec fn occurs_at(hay: Seq<char>, needle: Seq<char>, i: int) -> bool {
    0 <= i && i + needle.len() <= hay.len() && hay.subrange(i, i + needle.len()) == needle
}

/// `str::contains` with a string pattern.
pub open spec fn contains(hay: Seq<char>, needle: Seq<char>) -> bool {
    exists|i: int| occurs_at(hay, needle, i)
}

/// `a` occurs somewhere in `s` as a contiguous run.
pub open spec fn sub_of(a: Seq<char>, s: Seq<char>) -> bool {
    exists|i: int| 0 <= i && i + a.len() <= s.len() && #[trigger] s.subrange(i, i + a.len()) == a
}

proof fn lemma_sub_at(a: Seq<char>, s: Seq<char>, i: int)
    requires
        0 <= i,
        i + a.len() <= s.len(),
        s.subrange(i, i + a.len()) == a,
    ensures
        sub_of(a, s),
{
}

/// What a run of `s` contains, `s` contains.
pub proof fn lemma_contains_sub(t: Seq<char>, s: Seq<char>, m: Seq<char>)
    requires
        sub_of(t, s),
        contains(t, m),
    ensures
        contains(s, m),
{
    let i = choose|i: int| 0 <= i && i + t.len() <= s.len() && #[trigger] s.subrange(i, i + t.len()) == t;
    let j = choose|j: int| occurs_at(t, m, j);
    assert(s.subrange(i + j, i + j + m.len()) =~= t.subrange(j, j + m.len()));
    assert(occurs_at(s, m, i + j));
}

/// A run of a run of `s` is a run of `s`.
pub proof fn lemma_sub_trans(a: Seq<char>, b: Seq<char>, s: Seq<char>)
    requires
        sub_of(a, b),
        sub_of(b, s),
    ensures
        sub_of(a, s),
{
    let i = choose|i: int| 0 <= i && i + a.len() <= b.len() && #[trigger] b.subrange(i, i + a.len()) == a;
    let k = choose|k: int| 0 <= k && k + b.len() <= s.len() && #[trigger] s.subrange(k, k + b.len()) == b;
    assert(s.subrange(k + i, k + i + a.len()) =~= a);
}

proof fn lemma_trim_start_suffix(s: Seq<char>)
    ensures
        trim_start(s) == s.skip(s.len() - trim_start(s).len()),
        trim_start(s).len() <= s.len(),
    decreases s.len(),
{
    if s.len() > 0 && is_ws(s[0]) {
        lemma_trim_start_suffix(s.drop_first());
        assert(s.drop_first().skip(s.drop_first().len() - trim_start(s).len()) =~= s.skip(s.len() - trim_start(s).len()));
    } else {
        assert(s.skip(0) =~= s);
    }
}

proof fn lemma_trim_end_prefix(s: Seq<char>)
    ensures
        trim_end(s) == s.take(trim_end(s).len() as int),
        trim_end(s).len() <= s.len(),
    decreases s.len(),
{
    if s.len() > 0 && is_ws(s.last()) {
        lemma_trim_end_prefix(s.drop_last());
        assert(s.drop_last().take(trim_end(s).len() as int) =~= s.take(trim_end(s).len() as int));
    } else {
        assert(s.take(s.len() as int) =~= s);
    }
}

/// The trimmed text is a run of the text.
pub proof fn lemma_trim_sub(s: Seq<char>)
    ensures
        sub_of(trim(s), s),
{
    lemma_trim_start_suffix(s);
    let a = trim_start(s);
    lemma_trim_end_prefix(a);
    let t = trim(s);
    let i = s.len() - a.len();
    assert(s.subrange(i, i + t.len()) =~= t);
}

/// Each piece of splitting `s` at `c` is a run of `s`; the last is a
/// suffix.
pub proof fn lemma_split_sub(s: Seq<char>, c: char)
    ensures
        forall|k: int| 0 <= k < split_on(s, c).len() ==> sub_of(#[trigger] split_on(s, c)[k], s),
        split_on(s, c).len() >= 1,
        split_on(s, c).last() == s.skip(s.len() - split_on(s, c).last().len()),
        split_on(s, c).last().len() <= s.len(),
    decreases s.len(),
{
    let p = split_on(s, c);
    if s.len() == 0 {
        assert(p[0] =~= s.subrange(0, 0));
        lemma_sub_at(p[0], s, 0);
        assert(s.skip(0) =~= s);
    } else {
        let d = s.drop_last();
        lemma_split_sub(d, c);
        let rest = split_on(d, c);
        assert forall|k: int| 0 <= k < rest.len() implies sub_of(#[trigger] rest[k], s) by {
            let i = choose|i: int| 0 <= i && i + rest[k].len() <= d.len() && #[trigger] d.subrange(i, i + rest[k].len()) == rest[k];
            assert(s.subrange(i, i + rest[k].len()) =~= d.subrange(i, i + rest[k].len()));
            lemma_sub_at(rest[k], s, i);
        }
        if s.last() == c {
            assert forall|k: int| 0 <= k < p.len() implies sub_of(#[trigger] p[k], s) by {
                if k < rest.len() {
                    assert(p[k] == rest[k]);
                } else {
                    assert(p[k] =~= s.subrange(0, 0));
                    lemma_sub_at(p[k], s, 0);
                }
            }
            assert(s.skip(s.len() as int) =~= p.last());
        } else {
            let l = rest.last().push(s.last());
            assert(l =~= s.skip(s.len() - l.len()));
            assert forall|k: int| 0 <= k < p.len() implies sub_of(#[trigger] p[k], s) by {
                if k < rest.len() - 1 {
                    assert(p[k] == rest[k]);
                } else {
                    assert(p[k] == l);
                    assert(s.subrange(s.len() - l.len(), s.len() as int) =~= l);
                    lemma_sub_at(l, s, s.len() - l.len());
                }
            }
        }
    }
}

/// Each line of `s` is a run of `s`.
pub proof fn lemma_lines_sub(s: Seq<char>)
    ensures
        forall|k: int| 0 <= k < lines(s).len() ==> sub_of(#[trigger] lines(s)[k], s),
{
    lemma_split_sub(s, '\n');
    let p = split_on(s, '\n');
    assert forall|k: int| 0 <= k < lines(s).len() implies sub_of(#[trigger] lines(s)[k], s) by {
        if s.len() > 0 {
            if k < p.len() - 1 {
                let x = p[k];
                assert(lines(s)[k] == strip_cr(x));
                assert(sub_of(x, s));
                if x.len() > 0 && x.last() == '\r' {
                    assert(x.subrange(0, x.len() - 1) =~= strip_cr(x));
                } else {
                    assert(x.subrange(0, x.len() as int) =~= x);
                }
                lemma_sub_at(strip_cr(x), x, 0);
                lemma_sub_trans(strip_cr(x), x, s);
            } else {
                assert(lines(s)[k] == p.last());
                assert(sub_of(p[p.len() - 1], s));
            }
        }
    }
}

/// Whether `needle` occurs in `hay` at position `i`.
pub fn occurs_at_exec(hay: &Vec<char>, needle: &Vec<char>, i: usize) -> (b: bool)
    ensures
        b == occurs_at(hay@, needle@, i as int),
{
    if i > hay.len() || needle.len() > hay.len() - i {
        return false;
    }
    let mut k: usize = 0;
    while k < needle.len()
        invariant
            i + needle@.len() <= hay@.len(),
            hay@.len() == hay.len(),
            0 <= k <= needle@.len(),
            forall|j: int| 0 <= j < k ==> hay@[i + j] == needle@[j],
        decreases needle@.len() - k,
    {
        if hay[i + k] != needle[k] {
            assert(hay@.subrange(i as int, i + needle@.len())[k as int] != needle@[k as int]);
            return false;
        }
        k += 1;
    }
    assert(hay@.subrange(i as int, i + needle@.len()) =~= needle@);
    true
}

/// `str::contains`.
pub fn contains_exec(hay: &Vec<char>, needle: &Vec<char>) -> (b: bool)
    ensures
        b == contains(hay@, needle@),
{
    let mut i: usize = 0;
    while i < hay.len()
        invariant
            0 <= i <= hay@.len(),
            forall|j: int| 0 <= j < i ==> !occurs_at(hay@, needle@, j),
        decreases hay@.len() - i,
    {
        if occurs_at_exec(hay, needle, i) {
            return true;
        }
        i += 1;
    }
    if occurs_at_exec(hay, needle, i) {
        return true;
    }
    assert forall|j: int| !occurs_at(hay@, needle@, j) by {
        if 0 <= j <= i {
        }
    }
    false
}

/// `str::contains` against a literal.
pub fn contains_str(hay: &Vec<char>, needle: &str) -> (b: bool)
    ensures
        b == contains(hay@, needle@),
{
    let n = chars_of(needle);
    contains_exec(hay, &n)
}

/// `str::starts_with`.
pub fn starts_with(hay: &Vec<char>, needle: &Vec<char>) -> (b: bool)
    ensures
        b == needle@.is_prefix_of(hay@),
{
    let r = occurs_at_exec(hay, needle, 0);
    proof {
        if r {
            assert forall|i: int| 0 <= i < needle@.len() implies needle@[i] == hay@[i] by {
                assert(hay@.subrange(0, needle@.len() as int)[i] == hay@[i]);
            }
        } else if needle@.is_prefix_of(hay@) {
            assert(hay@.subrange(0, needle@.len() as int) =~= needle@);
        }
    }
    r
}

/// `str::starts_with` against a literal.
pub fn starts_with_str(hay: &Vec<char>, needle: &str) -> (b: bool)
    ensures
        b == needle@.is_prefix_of(hay@),
{
    let n = chars_of(needle);
    starts_with(hay, &n)
}

/// `str::ends_with`.
pub fn ends_with(hay: &Vec<char>, needle: &Vec<char>) -> (b: bool)
    ensures
        b == needle@.is_suffix_of(hay@),
{
    if needle.len() > hay.len() {
        return false;
    }
    let start = hay.len() - needle.len();
    let r = occurs_at_exec(hay, needle, start);
    proof {
        if r {
            assert forall|i: int| 0 <= i < needle@.len() implies needle@[i] == hay@[hay@.len()
                - needle@.len() + i] by {
                assert(hay@.subrange(start as int, hay@.len() as int)[i] == hay@[start + i]);
            }
        } else if needle@.is_suffix_of(hay@) {
            assert(hay@.subrange(start as int, start + needle@.len()) =~= needle@);
        }
    }
    r
}

/// `str::ends_with` against a literal.
pub fn ends_with_str(hay: &Vec<char>, needle: &str) -> (b: bool)
    ensures
        b == needle@.is_suffix_of(hay@),
{
    let n = chars_of(needle);
    ends_with(hay, &n)
}

/// `str::find` with a `char` pattern.
pub fn find_char_exec(s: &Vec<char>, c: char) -> (r: Option<usize>)
    ensures
        r matches Some(i) ==> i < s@.len() && s@[i as int] == c && forall|j: int| 0 <= j < i ==> s@[j] != c,
        r is None ==> forall|j: int| 0 <= j < s@.len() ==> s@[j] != c,
{
    let mut i: usize = 0;
    while i < s.len()
        invariant
            0 <= i <= s@.len(),
            forall|j: int| 0 <= j < i ==> s@[j] != c,
        decreases s@.len() - i,
    {
        if s[i] == c {
            return Some(i);
        }
        i += 1;
    }
    None
}


// ---------------------------------------------------------------------------
// Splitting and joining
// ---------------------------------------------------------------------------

/// The pieces of `s` separated by `c` (`str::split` with a `char` pattern):
/// always at least one piece, the last one possibly empty.
pub open spec fn split_on(s: Seq<char>, c: char) -> Seq<Seq<char>>
    decreases s.len(),
{
    if s.len() == 0 {
        seq![Seq::<char>::empty()]
    } else {
        let rest = split_on(s.drop_last(), c);
        if s.last() == c {
            rest.push(Seq::<char>::empty())
        } else {
            rest.update(rest.len() - 1, rest.last().push(s.last()))
        }
    }
}

pub proof fn lemma_split_on_nonempty(s: Seq<char>, c: char)
    ensures
        split_on(s, c).len() >= 1,
    decreases s.len(),
{
    if s.len() > 0 {
        lemma_split_on_nonempty(s.drop_last(), c);
    }
}

/// Splitting at `c` a text that ends in `c` and a piece without `c` gives
/// the pieces of the front, then that piece.
pub proof fn lemma_split_last_piece(x: Seq<char>, y: Seq<char>, c: char)
    requires
        !y.contains(c),
    ensures
        split_on(x.push(c) + y, c) == split_on(x, c).push(y),
    decreases y.len(),
{
    if y.len() == 0 {
        assert(x.push(c) + y =~= x.push(c));
        assert(x.push(c).drop_last() =~= x);
        assert(y =~= Seq::<char>::empty());
        assert(split_on(x.push(c), c) == split_on(x, c).push(Seq::<char>::empty()));
    } else {
        let y2 = y.drop_last();
        assert(!y2.contains(c)) by {
            if y2.contains(c) {
                let j = choose|j: int| 0 <= j < y2.len() && y2[j] == c;
                assert(y[j] == c);
            }
        }
        lemma_split_last_piece(x, y2, c);
        let t = x.push(c) + y;
        assert(t.drop_last() =~= x.push(c) + y2);
        assert(t.last() == y.last());
        assert(y.last() != c) by {
            assert(y[y.len() - 1] == y.last());
        }
        lemma_split_on_nonempty(x, c);
        let r = split_on(x, c).push(y2);
        assert(split_on(t.drop_last(), c) == r);
        assert(split_on(t, c) == r.update(r.len() - 1, r.last().push(t.last())));
        assert(r.update(r.len() - 1, r.last().push(y.last())) =~= split_on(x, c).push(y2.push(y.last())));
        assert(y2.push(y.last()) =~= y);
    }
}

/// Joining the pieces of `a` split at `c` with `c` gives `a` back.
pub proof fn lemma_join_split(a: Seq<char>, c: char)
    ensures
        join(split_on(a, c), seq![c]) == a,
    decreases a.len(),
{
    if a.len() == 0 {
        assert(split_on(a, c) =~= seq![Seq::<char>::empty()]);
    } else {
        let d = a.drop_last();
        let x = a.last();
        lemma_join_split(d, c);
        lemma_split_on_nonempty(d, c);
        let s0 = split_on(d, c);
        let f = s0.drop_last();
        let l = s0.last();
        assert(s0 =~= f.push(l));
        lemma_join_push(f, l, seq![c]);
        if x == c {
            lemma_join_push(s0, Seq::<char>::empty(), seq![c]);
            assert(join(s0, seq![c]) + seq![c] + Seq::<char>::empty() =~= a);
        } else {
            let u = s0.update(s0.len() - 1, l.push(x));
            assert(u =~= f.push(l.push(x)));
            lemma_join_push(f, l.push(x), seq![c]);
            if f.len() == 0 {
                assert(l.push(x) =~= a);
            } else {
                assert(join(f, seq![c]) + seq![c] + l.push(x) =~= (join(f, seq![c]) + seq![c] + l).push(x));
                assert(d.push(x) =~= a);
            }
        }
    }
}

/// `str::split` with a `char` pattern.
pub fn split_on_exec(s: &Vec<char>, c: char) -> (r: Vec<Vec<char>>)
    ensures
        r@.map_values(|p: Vec<char>| p@) == split_on(s@, c),
{
    let mut pieces: Vec<Vec<char>> = Vec::new();
    let mut cur: Vec<char> = Vec::new();
    let mut i: usize = 0;
    while i < s.len()
        invariant
            0 <= i <= s@.len(),
            pieces@.map_values(|p: Vec<char>| p@).push(cur@) == split_on(s@.take(i as int), c),
        decreases s@.len() - i,
    {
        let ghost before = pieces@.map_values(|p: Vec<char>| p@).push(cur@);
        assert(s@.take(i + 1).drop_last() == s@.take(i as int));
        proof { lemma_split_on_nonempty(s@.take(i as int), c); }
        if s[i] == c {
            let done = cur;
            pieces.push(done);
            cur = Vec::new();
            assert(pieces@.map_values(|p: Vec<char>| p@) == before);
        } else {
            cur.push(s[i]);
            assert(pieces@.map_values(|p: Vec<char>| p@).push(cur@) =~= before.update(
                before.len() - 1,
                before.last().push(s@[i as int]),
            ));
        }
        i += 1;
    }
    assert(s@.take(s@.len() as int) == s@);
    pieces.push(cur);
    assert(pieces@.map_values(|p: Vec<char>| p@) =~= split_on(s@, c));
    pieces
}

/// `p` without one trailing carriage return.
pub open spec fn strip_cr(p: Seq<char>) -> Seq<char> {
    if p.len() > 0 && p.last() == '\r' {
        p.drop_last()
    } else {
        p
    }
}

/// The lines of `s` (`str::lines`): split at `\n`, a `\r` that precedes a
/// `\n` removed, and no final empty line after a trailing newline.
pub open spec fn lines(s: Seq<char>) -> Seq<Seq<char>> {
    let p = split_on(s, '\n');
    if s.len() == 0 {
        Seq::<Seq<char>>::empty()
    } else if s.last() == '\n' {
        p.drop_last().map_values(|x: Seq<char>| strip_cr(x))
    } else {
        p.drop_last().map_values(|x: Seq<char>| strip_cr(x)).push(p.last())
    }
}

fn strip_cr_exec(p: Vec<char>) -> (r: Vec<char>)
    ensures
        r@ == strip_cr(p@),
{
    let mut p = p;
    if p.len() > 0 && p[p.len() - 1] == '\r' {
        p.pop();
    }
    p
}

/// `str::lines`.
pub fn lines_exec(s: &Vec<char>) -> (r: Vec<Vec<char>>)
    ensures
        r@.map_values(|p: Vec<char>| p@) == lines(s@),
{
    let mut out: Vec<Vec<char>> = Vec::new();
    if s.len() == 0 {
        assert(out@.map_values(|p: Vec<char>| p@) =~= lines(s@));
        return out;
    }
    let pieces = split_on_exec(s, '\n');
    let ghost pv = pieces@.map_values(|p: Vec<char>| p@);
    proof { lemma_split_on_nonempty(s@, '\n'); }
    let n = pieces.len();
    let mut i: usize = 0;
    let mut pieces = pieces;
    let mut rest: Vec<Vec<char>> = Vec::new();
    // Move the pieces out in order.
    while i + 1 < n
        invariant
            pieces@.len() == n,
            n == pv.len(),
            n >= 1,
            0 <= i < n,
            forall|k: int| i <= k < n ==> (#[trigger] pieces@[k])@ == pv[k],
            out@.map_values(|p: Vec<char>| p@) == pv.take(i as int).map_values(|x: Seq<char>| strip_cr(x)),
        decreases n - i,
    {
        let ghost prev = out@;
        let p = slice_of(&pieces[i], 0, pieces[i].len());
        assert(p@ == pv[i as int]);
        let q = strip_cr_exec(p);
        out.push(q);
        assert(pv.take(i + 1) == pv.take(i as int).push(pv[i as int]));
        assert(out@.map_values(|p: Vec<char>| p@) =~= prev.map_values(|p: Vec<char>| p@).push(q@));
        assert(pv.take(i + 1).map_values(|x: Seq<char>| strip_cr(x)) =~= pv.take(i as int).map_values(|x: Seq<char>| strip_cr(x)).push(strip_cr(pv[i as int])));
        i += 1;
    }
    assert(pv.take(i as int) == pv.drop_last());
    if s[s.len() - 1] != '\n' {
        let ghost prev = out@;
        let last = slice_of(&pieces[n - 1], 0, pieces[n - 1].len());
        assert(last@ == pv.last());
        out.push(last);
        assert(out@.map_values(|p: Vec<char>| p@) =~= prev.map_values(|p: Vec<char>| p@).push(last@));
        assert(out@.map_values(|p: Vec<char>| p@) =~= lines(s@));
    } else {
        assert(out@.map_values(|p: Vec<char>| p@) =~= lines(s@));
    }
    out
}

/// `parts` joined with `sep` between consecutive parts (`[T]::join`).
pub open spec fn join(parts: Seq<Seq<char>>, sep: Seq<char>) -> Seq<char>
    decreases parts.len(),
{
    if parts.len() == 0 {
        Seq::<char>::empty()
    } else if parts.len() == 1 {
        parts[0]
    } else {
        join(parts.drop_last(), sep) + sep + parts.last()
    }
}

pub proof fn lemma_join_push(parts: Seq<Seq<char>>, t: Seq<char>, sep: Seq<char>)
    ensures
        join(parts.push(t), sep) == if parts.len() == 0 {
            t
        } else {
            join(parts, sep) + sep + t
        },
{
    assert(parts.push(t).drop_last() =~= parts);
    if parts.len() == 0 {
        assert(parts.push(t)[0] == t);
    }
}

/// `[String]::join`.
pub fn join_exec(parts: &Vec<Vec<char>>, sep: &Vec<char>) -> (r: Vec<char>)
    ensures
        r@ == join(parts@.map_values(|p: Vec<char>| p@), sep@),
{
    let ghost pv = parts@.map_values(|p: Vec<char>| p@);
    let mut out: Vec<char> = Vec::new();
    let mut i: usize = 0;
    while i < parts.len()
        invariant
            0 <= i <= parts@.len(),
            pv == parts@.map_values(|p: Vec<char>| p@),
            out@ == join(pv.take(i as int), sep@),
        decreases parts@.len() - i,
    {
        assert(pv.take(i + 1).drop_last() == pv.take(i as int));
        if i > 0 {
            push_all(&mut out, sep);
        }
        push_all(&mut out, &parts[i]);
        i += 1;
    }
    assert(pv.take(parts@.len() as int) == pv);
    out
}

// ---------------------------------------------------------------------------
// Decimal numbers
// ---------------------------------------------------------------------------

/// The ASCII digit for `d < 10`.
pub open spec fn digit_char(d: nat) -> char {
    (('0' as u32) + d) as char
}

/// Decimal representation of `n` without leading zeros (`u64::to_string`).
pub open spec fn dec(n: nat) -> Seq<char>
    decreases n,
{
    if n < 10 {
        seq![digit_char(n)]
    } else {
        dec(n / 10).push(digit_char(n % 10))
    }
}

/// Decimal representation of a signed integer (`i64::to_string`).
pub open spec fn dec_int(n: int) -> Seq<char> {
    if n < 0 {
        seq!['-'] + dec((-n) as nat)
    } else {
        dec(n as nat)
    }
}

fn digit_exec(d: u64) -> (c: char)
    requires
        d < 10,
    ensures
        c == digit_char(d as nat),
{
    if d == 0 { '0' } else if d == 1 { '1' } else if d == 2 { '2' } else if d == 3 { '3' }
    else if d == 4 { '4' } else if d == 5 { '5' } else if d == 6 { '6' } else if d == 7 { '7' }
    else if d == 8 { '8' } else { '9' }
}

/// `u64::to_string`.
pub fn dec_u64(n: u64) -> (r: Vec<char>)
    ensures
        r@ == dec(n as nat),
    decreases n,
{
    if n < 10 {
        let mut r = Vec::new();
        r.push(digit_exec(n));
        r
    } else {
        let mut r = dec_u64(n / 10);
        r.push(digit_exec(n % 10));
        r
    }
}

/// `i64::to_string`.
pub fn dec_i64(n: i64) -> (r: Vec<char>)
    ensures
        r@ == dec_int(n as int),
{
    if n < 0 {
        let m: u64 = if n == i64::MIN {
            9223372036854775808u64
        } else {
            (-n) as u64
        };
        let mut r = Vec::new();
        r.push('-');
        let d = dec_u64(m);
        push_all(&mut r, &d);
        r
    } else {
        dec_u64(n as u64)
    }
}

/// `c` is an ASCII decimal digit.
pub open spec fn is_digit(c: char) -> bool {
    '0' <= c <= '9'
}

/// The value of a string of decimal digits.
pub open spec fn digits_value(s: Seq<char>) -> nat
    decreases s.len(),
{
    if s.len() == 0 {
        0
    } else {
        digits_value(s.drop_last()) * 10 + ((s.last() as u32) - ('0' as u32)) as nat
    }
}

/// Every character of `d` is an ASCII digit.
pub open spec fn all_digits(d: Seq<char>) -> bool {
    forall|i: int| 0 <= i < d.len() ==> is_digit(#[trigger] d[i])
}

/// `str::parse::<u32>`: an optional `+`, then one or more ASCII digits whose
/// value fits in a `u32`.
pub open spec fn parse_u32(s: Seq<char>) -> Option<u32> {
    let d = if s.len() > 0 && s[0] == '+' { s.drop_first() } else { s };
    if d.len() > 0 && all_digits(d) && digits_value(d) <= u32::MAX {
        Some(digits_value(d) as u32)
    } else {
        None
    }
}

/// `str::parse::<i64>`: an optional sign, then one or more ASCII digits
/// whose signed value fits in an `i64`.
pub open spec fn parse_i64(s: Seq<char>) -> Option<i64> {
    let neg = s.len() > 0 && s[0] == '-';
    let d = if s.len() > 0 && (s[0] == '+' || s[0] == '-') { s.drop_first() } else { s };
    let v: int = if neg { -(digits_value(d) as int) } else { digits_value(d) as int };
    if d.len() > 0 && all_digits(d) && i64::MIN <= v <= i64::MAX {
        Some(v as i64)
    } else {
        None
    }
}

proof fn lemma_digits_value_mono(s: Seq<char>, i: int)
    requires
        0 <= i <= s.len(),
        forall|k: int| 0 <= k < s.len() ==> is_digit(#[trigger] s[k]),
    ensures
        digits_value(s.take(i)) <= digits_value(s),
    decreases s.len() - i,
{
    if i < s.len() {
        assert(s.drop_last().take(i) == s.take(i));
        lemma_digits_value_mono(s.drop_last(), i);
    } else {
        assert(s.take(i) == s);
    }
}

/// Value of the digit string `d`, or `None` once it exceeds `bound`.
fn digits_upto(d: &Vec<char>, start: usize, bound: u64) -> (r: Option<u64>)
    requires
        start <= d@.len(),
    ensures
        ({
            let t = d@.skip(start as int);
            &&& r matches Some(v) ==> all_digits(t) && v == digits_value(t) && v <= bound
            &&& r is None ==> !all_digits(t) || digits_value(t) > bound
        }),
{
    let ghost t = d@.skip(start as int);
    let mut v: u64 = 0;
    let mut i: usize = start;
    while i < d.len()
        invariant
            start <= i <= d@.len(),
            t == d@.skip(start as int),
            forall|k: int| 0 <= k < i - start ==> is_digit(#[trigger] t[k]),
            v == digits_value(t.take(i - start)),
            v <= bound,
        decreases d@.len() - i,
    {
        let c = d[i];
        assert(t.take(i - start + 1).drop_last() == t.take(i - start));
        if !('0' <= c && c <= '9') {
            assert(!is_digit(t[i - start]));
            return None;
        }
        let dv = (c as u32 - '0' as u32) as u64;
        if dv > bound || v > (bound - dv) / 10 {
            proof {
                assert(forall|k: int| 0 <= k < i - start + 1 ==> is_digit(#[trigger] t[k]));
                if forall|k: int| 0 <= k < t.len() ==> is_digit(#[trigger] t[k]) {
                    lemma_digits_value_mono(t, i - start + 1);
                }
                assert(digits_value(t.take(i - start + 1)) == v * 10 + dv) by (nonlinear_arith)
                    requires digits_value(t.take(i - start + 1)) == v * 10 + dv;
                assert(v * 10 + dv > bound) by (nonlinear_arith)
                    requires dv > bound || v > (bound - dv) / 10, dv <= 9;
            }
            return None;
        }
        proof {
            assert(v * 10 + dv <= bound) by (nonlinear_arith)
                requires v <= (bound - dv) / 10, dv <= 9;
        }
        v = v * 10 + dv;
        i += 1;
    }
    assert(t.take(i - start) == t);
    Some(v)
}


/// `str::parse::<u32>`.
pub fn parse_u32_exec(s: &Vec<char>) -> (r: Option<u32>)
    ensures
        r == parse_u32(s@),
{
    let start: usize = if s.len() > 0 && s[0] == '+' { 1 } else { 0 };
    let ghost d = if s@.len() > 0 && s@[0] == '+' { s@.drop_first() } else { s@ };
    assert(d == s@.skip(start as int));
    if start >= s.len() {
        return None;
    }
    match digits_upto(s, start, 4294967295u64) {
        Some(v) => Some(v as u32),
        None => None,
    }
}

/// `str::parse::<i64>`.
pub fn parse_i64_exec(s: &Vec<char>) -> (r: Option<i64>)
    ensures
        r == parse_i64(s@),
{
    let neg = s.len() > 0 && s[0] == '-';
    let start: usize = if s.len() > 0 && (s[0] == '+' || s[0] == '-') { 1 } else { 0 };
    let ghost d = if s@.len() > 0 && (s@[0] == '+' || s@[0] == '-') { s@.drop_first() } else { s@ };
    assert(d == s@.skip(start as int));
    if start >= s.len() {
        return None;
    }
    if neg {
        match digits_upto(s, start, 9223372036854775808u64) {
            Some(v) => {
                if v == 9223372036854775808u64 {
                    Some(i64::MIN)
                } else {
                    Some(-(v as i64))
                }
            },
            None => None,
        }
    } else {
        match digits_upto(s, start, 9223372036854775807u64) {
            Some(v) => Some(v as i64),
            None => None,
        }
    }
}


// ---------------------------------------------------------------------------
// Case mapping
// ---------------------------------------------------------------------------

/// The Unicode lowercase mapping of `s`, as `str::to_lowercase` computes it.
pub uninterp spec fn lowercase(s: Seq<char>) -> Seq<char>;

/// Every character of `s` is ASCII.
pub open spec fn all_ascii(s: Seq<char>) -> bool {
    forall|i: int| 0 <= i < s.len() ==> (s[i] as u32) < 128
}

/// `s` with `A`..`Z` made `a`..`z` (`str::to_ascii_lowercase`).
pub open spec fn ascii_lowered(s: Seq<char>) -> Seq<char> {
    s.map_values(|c: char| ascii_lower(c))
}

/// `s` with `a`..`z` made `A`..`Z` (`str::to_ascii_uppercase`).
pub open spec fn ascii_uppered(s: Seq<char>) -> Seq<char> {
    s.map_values(|c: char| ascii_upper(c))
}

/// `char::to_ascii_uppercase`: `a`..`z` become `A`..`Z`, every other
/// character stays.
pub open spec fn ascii_upper(c: char) -> char {
    if 'a' <= c <= 'z' {
        ((c as u32) - 32) as char
    } else {
        c
    }
}

/// `str::to_lowercase`, as characters. Of ASCII text, the Unicode
/// lowercase mapping changes `A`..`Z` to `a`..`z` and keeps every other
/// character, one for one.
#[verifier::external_body]
pub(crate) fn to_lowercase(s: &str) -> (r: Vec<char>)
    ensures
        r@ == lowercase(s@),
        all_ascii(s@) ==> r@ == ascii_lowered(s@),
{
    s.to_lowercase().chars().collect()
}


// ---------------------------------------------------------------------------
// Character classes that `char` computes from Unicode tables
// ---------------------------------------------------------------------------

/// The Unicode `Alphabetic` or `Numeric` property, as `char::is_alphanumeric`
/// computes it.
pub uninterp spec fn alphanumeric(c: char) -> bool;

/// `char::is_alphanumeric`; of ASCII characters exactly the letters and
/// digits are.
#[verifier::external_body]
pub(crate) fn is_alphanumeric(c: char) -> (b: bool)
    ensures
        b == alphanumeric(c),
        (c as u32) < 128 ==> b == (('a' <= c && c <= 'z') || ('A' <= c && c <= 'Z') || ('0' <= c && c <= '9')),
{
    c.is_alphanumeric()
}


/// The Unicode `Uppercase` property, as `char::is_uppercase` computes it.
pub uninterp spec fn uppercase(c: char) -> bool;

/// `char::is_uppercase`; of ASCII characters only `A`..`Z` are uppercase.
#[verifier::external_body]
pub(crate) fn is_uppercase(c: char) -> (b: bool)
    ensures
        b == uppercase(c),
        (c as u32) < 128 ==> b == ('A' <= c && c <= 'Z'),
{
    c.is_uppercase()
}

/// `char::to_ascii_lowercase`: `A`..`Z` become `a`..`z`, every other
/// character stays.
pub open spec fn ascii_lower(c: char) -> char {
    if 'A' <= c <= 'Z' {
        ((c as u32) + 32) as char
    } else {
        c
    }
}

/// `char::to_ascii_lowercase`.
pub fn to_ascii_lower(c: char) -> (r: char)
    ensures
        r == ascii_lower(c),
{
    if 'A' <= c && c <= 'Z' {
        let b = (c as u8) + 32;
        b as char
    } else {
        c
    }
}

/// The number of bytes of `c` in UTF-8.
pub open spec fn char_utf8_len(c: char) -> nat {
    let u = c as u32;
    if u < 0x80 {
        1
    } else if u < 0x800 {
        2
    } else if u < 0x10000 {
        3
    } else {
        4
    }
}

/// The number of bytes of `s` in UTF-8 (`str::len`).
pub open spec fn utf8_len(s: Seq<char>) -> nat
    decreases s.len(),
{
    if s.len() == 0 {
        0
    } else {
        utf8_len(s.drop_last()) + char_utf8_len(s.last())
    }
}

/// `char::len_utf8`.
pub fn len_utf8(c: char) -> (n: usize)
    ensures
        n == char_utf8_len(c),
{
    let u = c as u32;
    if u < 0x80 {
        1
    } else if u < 0x800 {
        2
    } else if u < 0x10000 {
        3
    } else {
        4
    }
}

// ---------------------------------------------------------------------------
// Ordering of strings
// ---------------------------------------------------------------------------

/// `a < b` in the order of `str`'s `Ord` (lexicographic by code point, which
/// is the order of the UTF-8 bytes).
pub open spec fn lex_lt(a: Seq<char>, b: Seq<char>) -> bool
    decreases a.len(),
{
    if a.len() == 0 {
        b.len() > 0
    } else if b.len() == 0 {
        false
    } else if a[0] != b[0] {
        a[0] < b[0]
    } else {
        lex_lt(a.drop_first(), b.drop_first())
    }
}

pub proof fn lemma_lex_irreflexive(a: Seq<char>)
    ensures
        !lex_lt(a, a),
    decreases a.len(),
{
    if a.len() > 0 {
        lemma_lex_irreflexive(a.drop_first());
    }
}

pub proof fn lemma_lex_transitive(a: Seq<char>, b: Seq<char>, c: Seq<char>)
    requires
        lex_lt(a, b),
        lex_lt(b, c),
    ensures
        lex_lt(a, c),
    decreases a.len(),
{
    if a.len() > 0 && b.len() > 0 && c.len() > 0 && a[0] == b[0] && b[0] == c[0] {
        lemma_lex_transitive(a.drop_first(), b.drop_first(), c.drop_first());
    }
}

pub proof fn lemma_lex_total(a: Seq<char>, b: Seq<char>)
    requires
        a != b,
    ensures
        lex_lt(a, b) || lex_lt(b, a),
    decreases a.len(),
{
    if a.len() > 0 && b.len() > 0 && a[0] == b[0] {
        if a.drop_first() == b.drop_first() {
            assert(a =~= seq![a[0]] + a.drop_first());
            assert(b =~= seq![b[0]] + b.drop_first());
        }
        lemma_lex_total(a.drop_first(), b.drop_first());
    } else if a.len() == 0 && b.len() == 0 {
        assert(a =~= b);
    }
}

/// Every element is below every later one: sorted, with no element twice.
pub open spec fn strictly_sorted(s: Seq<Seq<char>>) -> bool {
    forall|i: int, j: int| 0 <= i < j < s.len() ==> lex_lt(#[trigger] s[i], #[trigger] s[j])
}

/// Whether `a < b` in `str`'s order.
pub fn lex_less(a: &Vec<char>, b: &Vec<char>) -> (r: bool)
    ensures
        r == lex_lt(a@, b@),
{
    let mut i: usize = 0;
    assert(a@.skip(0) =~= a@);
    assert(b@.skip(0) =~= b@);
    while i < a.len() && i < b.len() && a[i] == b[i]
        invariant
            0 <= i <= a@.len(),
            i <= b@.len(),
            lex_lt(a@, b@) == lex_lt(a@.skip(i as int), b@.skip(i as int)),
        decreases a@.len() - i,
    {
        proof {
            let sa = a@.skip(i as int);
            let sb = b@.skip(i as int);
            assert(sa.drop_first() =~= a@.skip(i + 1));
            assert(sb.drop_first() =~= b@.skip(i + 1));
        }
        i += 1;
    }
    if i == a.len() {
        i < b.len()
    } else if i == b.len() {
        false
    } else {
        a[i] < b[i]
    }
}

/// Whether two character vectors are equal.
pub fn chars_eq(a: &Vec<char>, b: &Vec<char>) -> (r: bool)
    ensures
        r == (a@ == b@),
{
    if a.len() != b.len() {
        return false;
    }
    let mut i: usize = 0;
    while i < a.len()
        invariant
            a@.len() == b@.len(),
            0 <= i <= a@.len(),
            forall|j: int| 0 <= j < i ==> a@[j] == b@[j],
        decreases a@.len() - i,
    {
        if a[i] != b[i] {
            return false;
        }
        i += 1;
    }
    assert(a@ =~= b@);
    true
}

/// The characters of each vector.
pub open spec fn views(v: Seq<Vec<char>>) -> Seq<Seq<char>> {
    v.map_values(|x: Vec<char>| x@)
}

/// Insert `x` into a strictly sorted vector, unless it is there already.
pub fn insert_sorted(v: &mut Vec<Vec<char>>, x: Vec<char>)
    requires
        strictly_sorted(views(old(v)@)),
    ensures
        strictly_sorted(views(final(v)@)),
        forall|y: Seq<char>| views(final(v)@).contains(y) <==> (views(old(v)@).contains(y) || y == x@),
{
    let ghost old_v = views(v@);
    let mut p: usize = 0;
    while p < v.len() && lex_less(&v[p], &x)
        invariant
            0 <= p <= v@.len(),
            views(v@) == old_v,
            strictly_sorted(old_v),
            forall|k: int| 0 <= k < p ==> lex_lt(#[trigger] old_v[k], x@),
        decreases v@.len() - p,
    {
        p += 1;
    }
    if p < v.len() && chars_eq(&v[p], &x) {
        assert(old_v[p as int] == x@);
        return;
    }
    proof {
        if p < old_v.len() {
            assert(old_v[p as int] == v@[p as int]@);
            lemma_lex_total(old_v[p as int], x@);
            assert forall|k: int| p <= k < old_v.len() implies lex_lt(x@, #[trigger] old_v[k]) by {
                if k > p {
                    lemma_lex_transitive(x@, old_v[p as int], old_v[k]);
                }
            }
        }
    }
    let ghost xv = x@;
    v.insert(p, x);
    proof {
        assert(views(v@) =~= old_v.insert(p as int, xv));
        lemma_insert_sorted(old_v, p as int, xv);
    }
}

proof fn lemma_insert_sorted(old_v: Seq<Seq<char>>, p: int, xv: Seq<char>)
    requires
        0 <= p <= old_v.len(),
        strictly_sorted(old_v),
        forall|k: int| 0 <= k < p ==> lex_lt(#[trigger] old_v[k], xv),
        forall|k: int| p <= k < old_v.len() ==> lex_lt(xv, #[trigger] old_v[k]),
    ensures
        strictly_sorted(old_v.insert(p, xv)),
        forall|y: Seq<char>| old_v.insert(p, xv).contains(y) <==> (old_v.contains(y) || y == xv),
{
    let nv = old_v.insert(p, xv);
    old_v.insert_ensures(p, xv);
    assert forall|i: int, j: int| 0 <= i < j < nv.len() implies lex_lt(#[trigger] nv[i], #[trigger] nv[j]) by {
        if j < p {
        } else if j == p {
        } else if i < p {
            assert(nv[j] == old_v[j - 1]);
            lemma_lex_transitive(nv[i], xv, nv[j]);
        } else if i == p {
            assert(nv[j] == old_v[j - 1]);
        } else {
            assert(nv[i] == old_v[i - 1]);
            assert(nv[j] == old_v[j - 1]);
        }
    }
    assert forall|y: Seq<char>| nv.contains(y) <==> (old_v.contains(y) || y == xv) by {
        if nv.contains(y) {
            let k = choose|k: int| 0 <= k < nv.len() && nv[k] == y;
            if k < p {
                assert(old_v[k] == y);
            } else if k > p {
                assert(old_v[k - 1] == y);
            }
        }
        if old_v.contains(y) {
            let k = choose|k: int| 0 <= k < old_v.len() && old_v[k] == y;
            if k < p {
                assert(nv[k] == y);
            } else {
                assert(nv[k + 1] == y);
            }
        }
        if y == xv {
            assert(nv[p] == y);
        }
    }
}

/// The distinct elements of `items` in ascending order (`sort` then
/// `dedup`).
pub fn sort_dedup(items: &Vec<Vec<char>>) -> (r: Vec<Vec<char>>)
    ensures
        strictly_sorted(views(r@)),
        forall|y: Seq<char>| views(r@).contains(y) <==> views(items@).contains(y),
{
    let mut r: Vec<Vec<char>> = Vec::new();
    let mut i: usize = 0;
    while i < items.len()
        invariant
            0 <= i <= items@.len(),
            strictly_sorted(views(r@)),
            forall|y: Seq<char>| views(r@).contains(y) <==> views(items@.take(i as int)).contains(y),
        decreases items@.len() - i,
    {
        let x = slice_of(&items[i], 0, items[i].len());
        proof {
            assert(x@ == items@[i as int]@);
        }
        insert_sorted(&mut r, x);
        proof {
            let a = views(items@.take(i as int));
            let b = views(items@.take(i + 1));
            assert(b =~= a.push(items@[i as int]@));
            assert forall|y: Seq<char>| b.contains(y) <==> (a.contains(y) || y == items@[i as int]@) by {
                if b.contains(y) {
                    let k = choose|k: int| 0 <= k < b.len() && b[k] == y;
                    if k < a.len() {
                        assert(a[k] == y);
                    }
                }
                if a.contains(y) {
                    let k = choose|k: int| 0 <= k < a.len() && a[k] == y;
                    assert(b[k] == y);
                }
                if y == items@[i as int]@ {
                    assert(b[i as int] == y);
                }
            }
        }
        i += 1;
    }
    assert(items@.take(items@.len() as int) =~= items@);
    r
}


// ---------------------------------------------------------------------------
// Vectors of strings
// ---------------------------------------------------------------------------

/// The characters of each string.
pub open spec fn string_views(v: Seq<String>) -> Seq<Seq<char>> {
    v.map_values(|s: String| s@)
}

/// A copy of a vector of strings.
pub fn copy_strings(v: &Vec<String>) -> (r: Vec<String>)
    ensures
        string_views(r@) == string_views(v@),
{
    let mut r: Vec<String> = Vec::new();
    for i in 0..v.len()
        invariant
            string_views(r@) == string_views(v@.take(i as int)),
    {
        let ghost prev = string_views(r@);
        r.push(v[i].clone());
        assert(string_views(r@) =~= prev.push(v@[i as int]@));
        assert(string_views(v@.take(i + 1)) =~= string_views(v@.take(i as int)).push(v@[i as int]@));
    }
    assert(v@.take(v@.len() as int) =~= v@);
    r
}

/// Whether `x` is one of `v`.
pub fn string_in(v: &Vec<String>, x: &String) -> (b: bool)
    ensures
        b == string_views(v@).contains(x@),
{
    for i in 0..v.len()
        invariant
            forall|j: int| 0 <= j < i ==> (#[trigger] v@[j])@ != x@,
    {
        if v[i] == *x {
            assert(string_views(v@)[i as int] == x@);
            return true;
        }
    }
    proof {
        if string_views(v@).contains(x@) {
            let k = choose|k: int| 0 <= k < string_views(v@).len() && string_views(v@)[k] == x@;
            assert(v@[k]@ == x@);
        }
    }
    false
}

} // verus!

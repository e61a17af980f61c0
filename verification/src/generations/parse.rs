//! Reading what the nix tools print about generations.
use vstd::prelude::*;
use crate::text::{
    char_utf8_len, chars_of, is_digit, is_whitespace, is_ws, join, join_exec, len_utf8, lines,
    lines_exec, parse_u32, parse_u32_exec, slice_of, split_on, split_on_exec, starts_with_str,
    string_from, trim, trim_chars, utf8_len, views, contains, contains_str, chars_eq,
};

verus! {

/// The text after a `-` that starts at byte offset `b` of `s`, if one does.
pub open spec fn after_dash_at_byte(s: Seq<char>, b: int) -> Option<Seq<char>>
    decreases s.len(),
{
    if s.len() == 0 || b < 0 {
        None
    } else if b == 0 {
        if s[0] == '-' {
            Some(s.drop_first())
        } else {
            None
        }
    } else {
        after_dash_at_byte(s.drop_first(), b - char_utf8_len(s[0]))
    }
}

/// A store-path name without its 32-character hash and the `-` after it:
/// when the name is longer than 33 bytes and byte 32 is `-`, what follows
/// it; else the whole name.
pub open spec fn strip_store_hash(name: Seq<char>) -> Seq<char> {
    if utf8_len(name) > 33 {
        match after_dash_at_byte(name, 32) {
            Some(rest) => rest,
            None => name,
        }
    } else {
        name
    }
}

fn strip_store_hash_exec(name: &Vec<char>) -> (r: Vec<char>)
    ensures
        r@ == strip_store_hash(name@),
{
    // Total length in bytes, capped just above 33.
    let mut total: usize = 0;
    let mut k: usize = 0;
    while k < name.len() && total <= 33
        invariant
            0 <= k <= name@.len(),
            total == utf8_len(name@.take(k as int)),
            total <= 37,
        decreases name@.len() - k,
    {
        assert(name@.take(k + 1).drop_last() =~= name@.take(k as int));
        total = total + len_utf8(name[k]);
        k += 1;
    }
    proof {
        lemma_utf8_prefix_le(name@, k as int);
        if k == name@.len() {
            assert(name@.take(k as int) =~= name@);
        }
    }
    if total <= 33 {
        return slice_of(name, 0, name.len());
    }
    // Walk to byte offset 32.
    let mut i: usize = 0;
    let mut b: usize = 0;
    assert(name@.skip(0) =~= name@);
    while i < name.len() && b < 32
        invariant
            0 <= i <= name@.len(),
            b <= 32 + 4,
            after_dash_at_byte(name@, 32) == after_dash_at_byte(name@.skip(i as int), 32 - b),
        decreases name@.len() - i,
    {
        let ghost t = name@.skip(i as int);
        assert(t.drop_first() =~= name@.skip(i + 1));
        b = b + len_utf8(name[i]);
        i += 1;
    }
    if i < name.len() && b == 32 && name[i] == '-' {
        let ghost t = name@.skip(i as int);
        assert(t.drop_first() =~= name@.subrange(i + 1, name@.len() as int));
        slice_of(name, i + 1, name.len())
    } else {
        proof {
            if i == name@.len() {
                assert(name@.skip(i as int).len() == 0);
            }
        }
        slice_of(name, 0, name.len())
    }
}

proof fn lemma_utf8_prefix_le(s: Seq<char>, k: int)
    requires
        0 <= k <= s.len(),
    ensures
        utf8_len(s.take(k)) <= utf8_len(s),
    decreases s.len() - k,
{
    if k < s.len() {
        lemma_utf8_prefix_le(s.drop_last(), if k < s.len() - 1 { k } else { s.len() - 1 });
        if k == s.len() - 1 {
            assert(s.take(k) =~= s.drop_last());
        } else {
            assert(s.drop_last().take(k) =~= s.take(k));
        }
    } else {
        assert(s.take(k) =~= s);
    }
}

/// The piece starts with an ASCII digit.
pub open spec fn starts_with_digit(p: Seq<char>) -> bool {
    p.len() > 0 && is_digit(p[0])
}

/// The index of the first piece that starts with an ASCII digit, or the
/// number of pieces if none does.
pub open spec fn first_digit_piece(parts: Seq<Seq<char>>) -> int
    decreases parts.len(),
{
    if parts.len() == 0 {
        0
    } else {
        let f = first_digit_piece(parts.drop_last());
        if f < parts.len() - 1 {
            f
        } else if starts_with_digit(parts.last()) {
            parts.len() - 1
        } else {
            parts.len() as int
        }
    }
}

proof fn lemma_first_digit_piece(parts: Seq<Seq<char>>)
    ensures
        0 <= first_digit_piece(parts) <= parts.len(),
        first_digit_piece(parts) < parts.len() ==> starts_with_digit(parts[first_digit_piece(parts)]),
        forall|j: int| 0 <= j < first_digit_piece(parts) ==> !starts_with_digit(#[trigger] parts[j]),
    decreases parts.len(),
{
    if parts.len() > 0 {
        lemma_first_digit_piece(parts.drop_last());
        let f = first_digit_piece(parts.drop_last());
        assert forall|j: int| 0 <= j < first_digit_piece(parts) implies !starts_with_digit(#[trigger] parts[j]) by {
            assert(parts[j] == parts.drop_last()[j] || j == parts.len() - 1);
        }
    }
}

fn first_digit_piece_exec(parts: &Vec<Vec<char>>) -> (r: usize)
    ensures
        r == first_digit_piece(views(parts@)),
{
    let ghost pv = views(parts@);
    let mut i: usize = 0;
    while i < parts.len() && !(parts[i].len() > 0 && '0' <= parts[i][0] && parts[i][0] <= '9')
        invariant
            0 <= i <= parts@.len(),
            pv == views(parts@),
            first_digit_piece(pv.take(i as int)) == i,
        decreases parts@.len() - i,
    {
        assert(pv.take(i + 1).drop_last() =~= pv.take(i as int));
        i += 1;
    }
    proof {
        if i < parts@.len() {
            assert(pv.take(i + 1).drop_last() =~= pv.take(i as int));
            assert(first_digit_piece(pv.take(i + 1)) == i);
            lemma_first_digit_stays(pv, i as int);
        } else {
            assert(pv.take(i as int) =~= pv);
        }
    }
    i
}

proof fn lemma_first_digit_stays(pv: Seq<Seq<char>>, i: int)
    requires
        0 <= i < pv.len(),
        first_digit_piece(pv.take(i + 1)) == i,
    ensures
        first_digit_piece(pv) == i,
    decreases pv.len() - i,
{
    if i + 1 < pv.len() {
        assert(pv.drop_last().take(i + 1) =~= pv.take(i + 1));
        lemma_first_digit_stays(pv.drop_last(), i);
    } else {
        assert(pv.take(i + 1) =~= pv);
    }
}

/// The package name and version of a Nix store path
/// `/nix/store/<hash>-<name>-<version>`: the version starts at the first
/// `-`-separated piece that begins with a digit; with no such piece after
/// the name, the whole name and an empty version.
pub open spec fn store_path_name_version(path: Seq<char>) -> (Seq<char>, Seq<char>) {
    let base = split_on(path, '/').last();
    let after = strip_store_hash(base);
    let parts = split_on(after, '-');
    let idx = first_digit_piece(parts);
    if 0 < idx < parts.len() {
        (join(parts.take(idx), "-"@), join(parts.skip(idx), "-"@))
    } else {
        (after, Seq::<char>::empty())
    }
}

fn copy_range(parts: &Vec<Vec<char>>, from: usize, to: usize) -> (r: Vec<Vec<char>>)
    requires
        from <= to <= parts@.len(),
    ensures
        views(r@) == views(parts@).subrange(from as int, to as int),
{
    let mut r: Vec<Vec<char>> = Vec::new();
    let mut i = from;
    while i < to
        invariant
            from <= i <= to <= parts@.len(),
            views(r@) == views(parts@).subrange(from as int, i as int),
        decreases to - i,
    {
        let ghost prev = views(r@);
        let x = slice_of(&parts[i], 0, parts[i].len());
        assert(x@ =~= parts@[i as int]@);
        r.push(x);
        assert(views(r@) =~= prev.push(views(parts@)[i as int]));
        assert(views(parts@).subrange(from as int, i + 1) =~= views(parts@).subrange(from as int, i as int).push(views(parts@)[i as int]));
        i += 1;
    }
    r
}

/// Parse a Nix store path into its package name and version.
pub fn parse_store_path(path: &str) -> (r: (String, String))
    ensures
        (r.0@, r.1@) == store_path_name_version(path@),
{
    let p = chars_of(path);
    let pieces = split_on_exec(&p, '/');
    proof { crate::text::lemma_split_on_nonempty(p@, '/'); }
    let base = slice_of(&pieces[pieces.len() - 1], 0, pieces[pieces.len() - 1].len());
    assert(base@ =~= views(pieces@).last());
    let after = strip_store_hash_exec(&base);
    let parts = split_on_exec(&after, '-');
    let idx = first_digit_piece_exec(&parts);
    proof { lemma_first_digit_piece(views(parts@)); }
    if 0 < idx && idx < parts.len() {
        let dash = chars_of("-");
        let name = join_exec(&copy_range(&parts, 0, idx), &dash);
        let version = join_exec(&copy_range(&parts, idx, parts.len()), &dash);
        assert(views(parts@).subrange(0, idx as int) =~= views(parts@).take(idx as int));
        assert(views(parts@).subrange(idx as int, parts@.len() as int) =~= views(parts@).skip(idx as int));
        (string_from(&name), string_from(&version))
    } else {
        (string_from(&after), string_from(&Vec::new()))
    }
}

/// The kernel version in a store-path name such as
/// `<hash>-linux-5.15.74-x86_64-linux`: its first `-`-separated piece that
/// begins with a digit (after the hash), or `unknown`.
pub open spec fn kernel_version_of(store_name: Option<Seq<char>>) -> Seq<char> {
    match store_name {
        None => "unknown"@,
        Some(name) => {
            let parts = split_on(strip_store_hash(name), '-');
            let idx = first_digit_piece(parts);
            if idx < parts.len() {
                parts[idx]
            } else {
                "unknown"@
            }
        },
    }
}

/// Extract the kernel version from a store-path component name.
pub fn parse_kernel_version_from_store_name(store_name: Option<&str>) -> (r: String)
    ensures
        r@ == kernel_version_of(
            match store_name {
                Some(n) => Some(n@),
                None => None,
            },
        ),
{
    match store_name {
        None => string_from(&chars_of("unknown")),
        Some(n) => {
            let name = chars_of(n);
            let after = strip_store_hash_exec(&name);
            let parts = split_on_exec(&after, '-');
            let idx = first_digit_piece_exec(&parts);
            proof { lemma_first_digit_piece(views(parts@)); }
            if idx < parts.len() {
                let v = slice_of(&parts[idx], 0, parts[idx].len());
                assert(v@ =~= views(parts@)[idx as int]);
                string_from(&v)
            } else {
                string_from(&chars_of("unknown"))
            }
        },
    }
}

/// `s` with `prefix` removed from its front, if it starts with it.
pub open spec fn strip_prefix(s: Seq<char>, prefix: Seq<char>) -> Option<Seq<char>> {
    if prefix.is_prefix_of(s) {
        Some(s.skip(prefix.len() as int))
    } else {
        None
    }
}

/// `s` with `suffix` removed from its end, if it ends with it.
pub open spec fn strip_suffix(s: Seq<char>, suffix: Seq<char>) -> Option<Seq<char>> {
    if suffix.is_suffix_of(s) {
        Some(s.take(s.len() - suffix.len()))
    } else {
        None
    }
}

/// The generation number of a symlink name `system-N-link`.
pub open spec fn generation_number_of(name: Seq<char>) -> Option<u32> {
    match strip_prefix(name, "system-"@) {
        Some(a) => match strip_suffix(a, "-link"@) {
            Some(b) => parse_u32(b),
            None => None,
        },
        None => None,
    }
}

/// Parse the generation number from a symlink name like `system-42-link`.
pub fn parse_generation_number(name: &str) -> (r: Option<u32>)
    ensures
        r == generation_number_of(name@),
{
    let s = chars_of(name);
    if !starts_with_str(&s, "system-") {
        return None;
    }
    let pre = chars_of("system-");
    let a = slice_of(&s, pre.len(), s.len());
    assert(a@ =~= s@.skip(pre@.len() as int));
    if !crate::text::ends_with_str(&a, "-link") {
        return None;
    }
    let suf = chars_of("-link");
    let b = slice_of(&a, 0, a.len() - suf.len());
    assert(b@ =~= a@.take(a@.len() - suf@.len()));
    parse_u32_exec(&b)
}

/// The generation number in a line `removing generation N`, surrounding
/// whitespace allowed.
pub open spec fn deleted_generation_of(line: Seq<char>) -> Option<u32> {
    match strip_prefix(trim(line), "removing generation "@) {
        Some(rest) => parse_u32(trim(rest)),
        None => None,
    }
}

/// Parse a line like `removing generation 5`.
pub fn parse_deleted_generation(line: &str) -> (r: Option<u32>)
    ensures
        r == deleted_generation_of(line@),
{
    let t = trim_chars(&chars_of(line));
    if !starts_with_str(&t, "removing generation ") {
        return None;
    }
    let pre = chars_of("removing generation ");
    let rest = slice_of(&t, pre.len(), t.len());
    assert(rest@ =~= t@.skip(pre@.len() as int));
    parse_u32_exec(&trim_chars(&rest))
}


/// The packages of the store paths listed one per line (blank lines
/// skipped, each line trimmed), without those whose name is empty.
pub open spec fn listed_packages(ls: Seq<Seq<char>>) -> Seq<(Seq<char>, Seq<char>)>
    decreases ls.len(),
{
    if ls.len() == 0 {
        Seq::empty()
    } else {
        let r = listed_packages(ls.drop_last());
        let t = trim(ls.last());
        if t.len() > 0 && store_path_name_version(t).0.len() > 0 {
            r.push(store_path_name_version(t))
        } else {
            r
        }
    }
}

/// The packages (name and version) of a generation, from the store paths
/// `nix-store -q --references` prints for its `sw` path.
pub fn packages_in_references(stdout: &str) -> (r: Vec<(String, String)>)
    ensures
        r@.map_values(|p: (String, String)| (p.0@, p.1@)) == listed_packages(lines(stdout@)),
{
    let ls = lines_exec(&chars_of(stdout));
    let ghost lv = views(ls@);
    let mut r: Vec<(String, String)> = Vec::new();
    let mut i: usize = 0;
    while i < ls.len()
        invariant
            0 <= i <= ls@.len(),
            lv == views(ls@),
            lv == lines(stdout@),
            r@.map_values(|p: (String, String)| (p.0@, p.1@)) == listed_packages(lv.take(i as int)),
        decreases ls@.len() - i,
    {
        assert(lv.take(i + 1).drop_last() =~= lv.take(i as int));
        assert(lv.take(i + 1).last() == ls@[i as int]@);
        let t = trim_chars(&ls[i]);
        if t.len() > 0 {
            let ghost before = r@.map_values(|p: (String, String)| (p.0@, p.1@));
            let (name, version) = parse_store_path(string_from(&t).as_str());
            if name.as_str().unicode_len() > 0 {
                r.push((name, version));
                assert(r@.map_values(|p: (String, String)| (p.0@, p.1@)) =~= before.push(store_path_name_version(t@)));
            }
        }
        i += 1;
    }
    assert(lv.take(ls@.len() as int) =~= lv);
    r
}

/// The generation numbers named by the `removing generation N` lines
/// among `ls`, in order.
pub open spec fn deleted_in(ls: Seq<Seq<char>>) -> Seq<u32>
    decreases ls.len(),
{
    if ls.len() == 0 {
        Seq::<u32>::empty()
    } else {
        let r = deleted_in(ls.drop_last());
        match deleted_generation_of(ls.last()) {
            Some(n) => r.push(n),
            None => r,
        }
    }
}

/// The numbers never decrease along `s`.
pub open spec fn ascending(s: Seq<u32>) -> bool {
    forall|i: int, j: int| 0 <= i < j < s.len() ==> s[i] <= s[j]
}

/// The generations `nix-env --delete-generations` reports deleted in its
/// output: the numbers of its `removing generation N` lines, sorted in
/// ascending order.
pub fn deleted_generations(stdout: &str) -> (r: Vec<u32>)
    ensures
        ascending(r@),
        r@.to_multiset() == deleted_in(lines(stdout@)).to_multiset(),
{
    broadcast use vstd::seq_lib::group_to_multiset_ensures;
    let ls = lines_exec(&chars_of(stdout));
    let ghost lv = views(ls@);
    let mut r: Vec<u32> = Vec::new();
    let mut i: usize = 0;
    while i < ls.len()
        invariant
            0 <= i <= ls@.len(),
            lv == views(ls@),
            lv == lines(stdout@),
            ascending(r@),
            r@.to_multiset() == deleted_in(lv.take(i as int)).to_multiset(),
        decreases ls@.len() - i,
    {
        assert(lv.take(i + 1).drop_last() =~= lv.take(i as int));
        assert(lv.take(i + 1).last() == ls@[i as int]@);
        let line = string_from(&ls[i]);
        let ghost prefix = deleted_in(lv.take(i as int));
        match parse_deleted_generation(line.as_str()) {
            Some(n) => {
                assert(deleted_in(lv.take(i + 1)) == prefix.push(n));
                let mut p: usize = r.len();
                while p > 0 && r[p - 1] > n
                    invariant
                        0 <= p <= r@.len(),
                        ascending(r@),
                        forall|k: int| p <= k < r@.len() ==> r@[k] > n,
                    decreases p,
                {
                    p -= 1;
                }
                let ghost before = r@;
                r.insert(p, n);
                proof {
                    assert(r@ == before.insert(p as int, n));
                    assert forall|a: int, b: int| 0 <= a < b < r@.len() implies r@[a] <= r@[b] by {
                        if b < p {
                        } else if a < p && b == p {
                            assert(before[a] <= before[p - 1]);
                        } else if a < p {
                        } else if a == p {
                            assert(before[b - 1] > n);
                        }
                    }
                    vstd::seq_lib::to_multiset_insert(before, p as int, n);
                    vstd::seq_lib::to_multiset_build(prefix, n);
                }
            },
            None => {
                assert(deleted_in(lv.take(i + 1)) == prefix);
            },
        }
        i += 1;
    }
    assert(lv.take(ls@.len() as int) =~= lv);
    r
}

/// The state of splitting at whitespace after the characters of `s`: the
/// words completed and the word being read.
pub open spec fn ws_split_state(s: Seq<char>) -> (Seq<Seq<char>>, Seq<char>)
    decreases s.len(),
{
    if s.len() == 0 {
        (Seq::<Seq<char>>::empty(), Seq::<char>::empty())
    } else {
        let (w, cur) = ws_split_state(s.drop_last());
        if is_ws(s.last()) {
            if cur.len() > 0 {
                (w.push(cur), Seq::<char>::empty())
            } else {
                (w, Seq::<char>::empty())
            }
        } else {
            (w, cur.push(s.last()))
        }
    }
}

/// The words of `s` (`str::split_whitespace`).
pub open spec fn ws_words(s: Seq<char>) -> Seq<Seq<char>> {
    let (w, cur) = ws_split_state(s);
    if cur.len() > 0 {
        w.push(cur)
    } else {
        w
    }
}

/// `str::split_whitespace`.
pub fn split_whitespace_exec(s: &Vec<char>) -> (r: Vec<Vec<char>>)
    ensures
        views(r@) == ws_words(s@),
{
    let mut words: Vec<Vec<char>> = Vec::new();
    let mut cur: Vec<char> = Vec::new();
    let mut i: usize = 0;
    while i < s.len()
        invariant
            0 <= i <= s@.len(),
            (views(words@), cur@) == ws_split_state(s@.take(i as int)),
        decreases s@.len() - i,
    {
        assert(s@.take(i + 1).drop_last() =~= s@.take(i as int));
        let ghost prev = views(words@);
        if is_whitespace(s[i]) {
            if cur.len() > 0 {
                let done = cur;
                words.push(done);
                assert(views(words@) =~= prev.push(done@));
            }
            cur = Vec::new();
        } else {
            cur.push(s[i]);
        }
        i += 1;
    }
    assert(s@.take(s@.len() as int) =~= s@);
    if cur.len() > 0 {
        let ghost prev = views(words@);
        let done = cur;
        words.push(done);
        assert(views(words@) =~= prev.push(done@));
    }
    words
}

/// `s` without its trailing dots (`str::trim_end_matches('.')`).
pub open spec fn trim_dots(s: Seq<char>) -> Seq<char>
    decreases s.len(),
{
    if s.len() > 0 && s.last() == '.' {
        trim_dots(s.drop_last())
    } else {
        s
    }
}

fn trim_dots_exec(s: &Vec<char>) -> (r: Vec<char>)
    ensures
        r@ == trim_dots(s@),
{
    let mut i: usize = s.len();
    assert(s@.take(s@.len() as int) =~= s@);
    while i > 0 && s[i - 1] == '.'
        invariant
            0 <= i <= s@.len(),
            trim_dots(s@) == trim_dots(s@.take(i as int)),
        decreases i,
    {
        assert(s@.take(i as int).drop_last() =~= s@.take(i - 1));
        i -= 1;
    }
    assert(s@.take(i as int) =~= s@.subrange(0, i as int));
    slice_of(s, 0, i)
}

/// Bytes per unit of a size printed by `nix-collect-garbage` (`B`, `KiB`,
/// `MiB`, `GiB`, `TiB`; 1 for any other).
pub open spec fn unit_multiplier(unit: Seq<char>) -> u64 {
    if unit == "KiB"@ {
        1024
    } else if unit == "MiB"@ {
        1048576
    } else if unit == "GiB"@ {
        1073741824
    } else if unit == "TiB"@ {
        1099511627776
    } else {
        1
    }
}

fn unit_multiplier_exec(unit: &Vec<char>) -> (m: u64)
    ensures
        m == unit_multiplier(unit@),
{
    if chars_eq(unit, &chars_of("KiB")) {
        1024
    } else if chars_eq(unit, &chars_of("MiB")) {
        1048576
    } else if chars_eq(unit, &chars_of("GiB")) {
        1073741824
    } else if chars_eq(unit, &chars_of("TiB")) {
        1099511627776
    } else {
        1
    }
}

/// The `<value> <unit> freed` readings of a line's words, in order: for
/// each word that is `freed` up to trailing dots and has two words before
/// it, the first of those and the multiplier of the second.
pub open spec fn freed_readings(words: Seq<Seq<char>>) -> Seq<(Seq<char>, u64)>
    decreases words.len(),
{
    if words.len() == 0 {
        Seq::<(Seq<char>, u64)>::empty()
    } else {
        let i = words.len() - 1;
        let r = freed_readings(words.drop_last());
        if trim_dots(words[i]) == "freed"@ && i >= 2 {
            r.push((words[i - 2], unit_multiplier(trim_dots(words[i - 1]))))
        } else {
            r
        }
    }
}

/// The readings of all lines that hold `freed`, in order.
pub open spec fn freed_readings_of_lines(ls: Seq<Seq<char>>) -> Seq<(Seq<char>, u64)>
    decreases ls.len(),
{
    if ls.len() == 0 {
        Seq::<(Seq<char>, u64)>::empty()
    } else {
        let r = freed_readings_of_lines(ls.drop_last());
        if contains(ls.last(), "freed"@) {
            r + freed_readings(ws_words(ls.last()))
        } else {
            r
        }
    }
}

/// The candidate readings of the freed size in `nix-collect-garbage`
/// output (`N store paths deleted, X.YZ MiB freed.`), in order: each is the
/// number's text and the bytes per unit. The size is the first reading
/// whose number parses (as a float), times its multiplier; 0 when none does.
pub fn freed_size_readings(output: &str) -> (r: Vec<(String, u64)>)
    ensures
        r@.map_values(|x: (String, u64)| (x.0@, x.1)) == freed_readings_of_lines(lines(output@)),
{
    let s = chars_of(output);
    let ls = lines_exec(&s);
    let ghost lv = views(ls@);
    let mut r: Vec<(String, u64)> = Vec::new();
    for li in 0..ls.len()
        invariant
            lv == views(ls@),
            lv == lines(output@),
            r@.map_values(|x: (String, u64)| (x.0@, x.1)) == freed_readings_of_lines(lv.take(li as int)),
    {
        assert(lv.take(li + 1).drop_last() =~= lv.take(li as int));
        if contains_str(&ls[li], "freed") {
            let words = split_whitespace_exec(&ls[li]);
            let ghost wv = views(words@);
            let ghost base = r@.map_values(|x: (String, u64)| (x.0@, x.1));
            for i in 0..words.len()
                invariant
                    wv == views(words@),
                    r@.map_values(|x: (String, u64)| (x.0@, x.1)) == base + freed_readings(wv.take(i as int)),
            {
                assert(wv.take(i + 1).drop_last() =~= wv.take(i as int));
                let t = trim_dots_exec(&words[i]);
                if i >= 2 && chars_eq(&t, &chars_of("freed")) {
                    let unit = trim_dots_exec(&words[i - 1]);
                    let m = unit_multiplier_exec(&unit);
                    let ghost prev = r@.map_values(|x: (String, u64)| (x.0@, x.1));
                    let v = string_from(&words[i - 2]);
                    r.push((v, m));
                    assert(r@.map_values(|x: (String, u64)| (x.0@, x.1)) =~= prev.push((wv[i - 2], m)));
                    assert(wv.take(i + 1)[i - 2] == wv[i - 2]);
                    assert(wv.take(i + 1)[i - 1] == wv[i - 1]);
                }
            }
            assert(wv.take(words@.len() as int) =~= wv);
        }
    }
    assert(lv.take(ls@.len() as int) =~= lv);
    r
}

} // verus!

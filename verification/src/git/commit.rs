//! Commit messages that summarise which NixOS options changed.
use vstd::prelude::*;
use crate::text::{
    ascii_lower, char_utf8_len, chars_of, dec, dec_u64, is_uppercase, join, join_exec, len_utf8,
    push_all, slice_of, split_on, split_on_exec, string_from, string_views, to_ascii_lower,
    uppercase, utf8_len, views,
};

verus! {

/// `r` ends with a space.
pub open spec fn ends_with_space(r: Seq<char>) -> bool {
    r.len() > 0 && r.last() == ' '
}

/// `r` with a space appended, unless it ends with one already.
pub open spec fn with_space(r: Seq<char>) -> Seq<char> {
    if ends_with_space(r) {
        r
    } else {
        r.push(' ')
    }
}

/// One step of [`humanise`] on the character `c` at index `i`: the text so
/// far and whether the previous character was uppercase.
pub open spec fn humanise_step(st: (Seq<char>, bool), i: int, c: char) -> (Seq<char>, bool) {
    let (r, prev_upper) = st;
    if c == '-' || c == '_' {
        (with_space(r), false)
    } else if uppercase(c) {
        let r1 = if i > 0 && !prev_upper && !ends_with_space(r) {
            r.push(' ')
        } else {
            r
        };
        (r1.push(ascii_lower(c)), true)
    } else {
        let r1 = if prev_upper && utf8_len(r) > 1 {
            with_space(r.drop_last()).push(r.last())
        } else {
            r
        };
        (r1.push(c), false)
    }
}

/// The state of [`humanise`] after the characters of `s`.
pub open spec fn humanise_state(s: Seq<char>) -> (Seq<char>, bool)
    decreases s.len(),
{
    if s.len() == 0 {
        (Seq::<char>::empty(), false)
    } else {
        humanise_step(humanise_state(s.drop_last()), s.len() - 1, s.last())
    }
}

/// An identifier in camelCase or with hyphens, as lowercase words.
pub open spec fn humanised(s: Seq<char>) -> Seq<char> {
    humanise_state(s).0
}

proof fn lemma_utf8_len_ge(r: Seq<char>)
    ensures
        utf8_len(r) >= r.len(),
        r.len() == 1 ==> utf8_len(r) == char_utf8_len(r[0]),
    decreases r.len(),
{
    if r.len() > 0 {
        lemma_utf8_len_ge(r.drop_last());
        if r.len() == 1 {
            assert(r.drop_last().len() == 0);
        }
    }
}

fn ends_with_space_exec(r: &Vec<char>) -> (b: bool)
    ensures
        b == ends_with_space(r@),
{
    r.len() > 0 && r[r.len() - 1] == ' '
}

/// Convert a camelCase or hyphen-separated identifier to lowercase words:
/// `-` and `_` become one space, a run of uppercase letters starts a new
/// word and is lowercased, and the last letter of such a run starts the word
/// of the lowercase letters after it (`allowedTCPPorts` gives
/// `allowed tcp ports`, `systemd-boot` gives `systemd boot`).
pub fn humanise(s: &str) -> (r: String)
    ensures
        r@ == humanised(s@),
{
    let cs = chars_of(s);
    let mut result: Vec<char> = Vec::new();
    let mut prev_upper = false;
    let mut i: usize = 0;
    while i < cs.len()
        invariant
            0 <= i <= cs@.len(),
            (result@, prev_upper) == humanise_state(cs@.take(i as int)),
        decreases cs@.len() - i,
    {
        assert(cs@.take(i + 1).drop_last() =~= cs@.take(i as int));
        let c = cs[i];
        if c == '-' || c == '_' {
            if !ends_with_space_exec(&result) {
                result.push(' ');
            }
            prev_upper = false;
        } else if is_uppercase(c) {
            if i > 0 && !prev_upper && !ends_with_space_exec(&result) {
                result.push(' ');
            }
            result.push(to_ascii_lower(c));
            prev_upper = true;
        } else {
            proof {
                lemma_utf8_len_ge(result@);
            }
            let long = result.len() >= 2 || (result.len() == 1 && len_utf8(result[0]) > 1);
            if prev_upper && long {
                let last = result.pop().unwrap();
                if !ends_with_space_exec(&result) {
                    result.push(' ');
                }
                result.push(last);
            }
            result.push(c);
            prev_upper = false;
        }
        i += 1;
    }
    assert(cs@.take(cs@.len() as int) =~= cs@);
    string_from(&result)
}

/// The words for a firewall setting: `allowedTCPPorts` reads as
/// `allowed ports`, any other field as its humanised name.
pub open spec fn firewall_field(f: Seq<char>) -> Seq<char> {
    if f == "allowedTCPPorts"@ {
        "allowed ports"@
    } else {
        humanised(f)
    }
}

/// A short phrase for a dotted NixOS option path: the well-known families
/// (`services`, `networking`, `boot`, `environment`, `users`, `hardware`,
/// `programs`) by their own wording, anything else from its last two
/// segments.
pub open spec fn description(parts: Seq<Seq<char>>) -> Seq<char> {
    let n = parts.len();
    if n == 3 && parts[0] == "services"@ && parts[2] == "enable"@ {
        "enable "@ + parts[1]
    } else if n >= 2 && parts[0] == "services"@ {
        "update "@ + parts[1] + " service"@
    } else if n >= 3 && parts[0] == "networking"@ && parts[1] == "firewall"@ {
        "update firewall "@ + firewall_field(parts[2])
    } else if n >= 2 && parts[0] == "networking"@ {
        "update network "@ + humanised(parts[1])
    } else if n >= 3 && parts[0] == "boot"@ && parts[1] == "loader"@ {
        "configure "@ + parts[2] + " bootloader"@
    } else if n >= 1 && parts[0] == "boot"@ {
        "update boot configuration"@
    } else if n == 2 && parts[0] == "environment"@ && parts[1] == "systemPackages"@ {
        "update system packages"@
    } else if n >= 2 && parts[0] == "environment"@ {
        "update environment "@ + humanised(parts[1])
    } else if n >= 3 && parts[0] == "users"@ && parts[1] == "users"@ {
        "update user "@ + parts[2]
    } else if n >= 1 && parts[0] == "users"@ {
        "update users"@
    } else if n >= 2 && parts[0] == "hardware"@ {
        "configure "@ + humanised(parts[1]) + " hardware"@
    } else if n == 3 && parts[0] == "programs"@ && parts[2] == "enable"@ {
        "enable "@ + parts[1] + " program"@
    } else if n >= 2 && parts[0] == "programs"@ {
        "update "@ + parts[1] + " program"@
    } else if n >= 2 {
        humanised(parts[n - 1]) + " "@ + humanised(parts[n - 2])
    } else if n == 1 {
        humanised(parts[0])
    } else {
        "update configuration"@
    }
}

/// The phrase for an option path.
pub open spec fn option_description(opt: Seq<char>) -> Seq<char> {
    description(split_on(opt, '.'))
}

fn eq_lit(a: &Vec<char>, lit: &str) -> (b: bool)
    ensures
        b == (a@ == lit@),
{
    let l = chars_of(lit);
    crate::text::chars_eq(a, &l)
}

fn cat2(a: &str, b: &Vec<char>) -> (r: Vec<char>)
    ensures
        r@ == a@ + b@,
{
    let mut r = chars_of(a);
    push_all(&mut r, b);
    r
}

fn cat3(a: &str, b: &Vec<char>, c: &str) -> (r: Vec<char>)
    ensures
        r@ == a@ + b@ + c@,
{
    let mut r = chars_of(a);
    push_all(&mut r, b);
    push_all(&mut r, &chars_of(c));
    r
}

fn humanise_chars(s: &Vec<char>) -> (r: Vec<char>)
    ensures
        r@ == humanised(s@),
{
    let t = string_from(s);
    let h = humanise(t.as_str());
    chars_of(h.as_str())
}

/// Convert a dotted NixOS option path into a short phrase
/// (`services.nginx.enable` gives `enable nginx`,
/// `networking.firewall.allowedTCPPorts` gives
/// `update firewall allowed ports`, `boot.loader.systemd-boot.enable` gives
/// `configure systemd-boot bootloader`, `environment.systemPackages` gives
/// `update system packages`).
pub fn describe_option(opt: &str) -> (r: String)
    ensures
        r@ == option_description(opt@),
{
    let o = chars_of(opt);
    let parts = split_on_exec(&o, '.');
    let ghost pv = views(parts@);
    assert(pv == split_on(opt@, '.'));
    let n = parts.len();
    let v = if n == 3 && eq_lit(&parts[0], "services") && eq_lit(&parts[2], "enable") {
        cat2("enable ", &parts[1])
    } else if n >= 2 && eq_lit(&parts[0], "services") {
        cat3("update ", &parts[1], " service")
    } else if n >= 3 && eq_lit(&parts[0], "networking") && eq_lit(&parts[1], "firewall") {
        if eq_lit(&parts[2], "allowedTCPPorts") {
            cat2("update firewall ", &chars_of("allowed ports"))
        } else {
            cat2("update firewall ", &humanise_chars(&parts[2]))
        }
    } else if n >= 2 && eq_lit(&parts[0], "networking") {
        cat2("update network ", &humanise_chars(&parts[1]))
    } else if n >= 3 && eq_lit(&parts[0], "boot") && eq_lit(&parts[1], "loader") {
        cat3("configure ", &parts[2], " bootloader")
    } else if n >= 1 && eq_lit(&parts[0], "boot") {
        chars_of("update boot configuration")
    } else if n == 2 && eq_lit(&parts[0], "environment") && eq_lit(&parts[1], "systemPackages") {
        chars_of("update system packages")
    } else if n >= 2 && eq_lit(&parts[0], "environment") {
        cat2("update environment ", &humanise_chars(&parts[1]))
    } else if n >= 3 && eq_lit(&parts[0], "users") && eq_lit(&parts[1], "users") {
        cat2("update user ", &parts[2])
    } else if n >= 1 && eq_lit(&parts[0], "users") {
        chars_of("update users")
    } else if n >= 2 && eq_lit(&parts[0], "hardware") {
        cat3("configure ", &humanise_chars(&parts[1]), " hardware")
    } else if n == 3 && eq_lit(&parts[0], "programs") && eq_lit(&parts[2], "enable") {
        cat3("enable ", &parts[1], " program")
    } else if n >= 2 && eq_lit(&parts[0], "programs") {
        cat3("update ", &parts[1], " program")
    } else if n >= 2 {
        let mut r = humanise_chars(&parts[n - 1]);
        push_all(&mut r, &chars_of(" "));
        push_all(&mut r, &humanise_chars(&parts[n - 2]));
        r
    } else if n == 1 {
        humanise_chars(&parts[0])
    } else {
        chars_of("update configuration")
    };
    string_from(&v)
}

/// The commit message for a set of changed options: `nixman: ` and the
/// options' phrases joined by `, `; beyond three options, the first three
/// and `, and <k> more`; with no option, `nixman: update configuration`.
pub open spec fn commit_message(opts: Seq<Seq<char>>) -> Seq<char> {
    if opts.len() == 0 {
        "nixman: update configuration"@
    } else {
        let d = opts.map_values(|o: Seq<char>| option_description(o));
        if d.len() <= 3 {
            "nixman: "@ + join(d, ", "@)
        } else {
            "nixman: "@ + join(d.take(3), ", "@) + ", and "@ + dec((d.len() - 3) as nat) + " more"@
        }
    }
}

/// Every suggested commit message starts with `nixman: `.
pub proof fn law_commit_message_prefix(opts: Seq<Seq<char>>)
    ensures
        "nixman: "@.is_prefix_of(commit_message(opts)),
{
    reveal_strlit("nixman: ");
    reveal_strlit("nixman: update configuration");
    assert(commit_message(opts).take(8) =~= "nixman: "@);
}

/// How an option path is described, by its segments `p` (split at `.`):
/// a service is named by the second segment whatever follows it
/// (`enable <s>` for exactly `services.<s>.enable`, else
/// `update <s> service`); a boot loader, a user and a program likewise by
/// the segment after their family, and `environment.systemPackages` as
/// the system packages.
pub proof fn law_description_names_the_segment(opt: Seq<char>)
    ensures
        ({
            let p = split_on(opt, '.');
            &&& (p.len() == 3 && p[0] == "services"@ && p[2] == "enable"@)
                ==> option_description(opt) == "enable "@ + p[1]
            &&& (p.len() >= 2 && p[0] == "services"@ && !(p.len() == 3 && p[2] == "enable"@))
                ==> option_description(opt) == "update "@ + p[1] + " service"@
            &&& (p.len() >= 3 && p[0] == "boot"@ && p[1] == "loader"@)
                ==> option_description(opt) == "configure "@ + p[2] + " bootloader"@
            &&& (p.len() == 2 && p[0] == "environment"@ && p[1] == "systemPackages"@)
                ==> option_description(opt) == "update system packages"@
            &&& (p.len() >= 3 && p[0] == "users"@ && p[1] == "users"@)
                ==> option_description(opt) == "update user "@ + p[2]
            &&& (p.len() == 3 && p[0] == "programs"@ && p[2] == "enable"@)
                ==> option_description(opt) == "enable "@ + p[1] + " program"@
            &&& (p.len() >= 2 && p[0] == "programs"@ && !(p.len() == 3 && p[2] == "enable"@))
                ==> option_description(opt) == "update "@ + p[1] + " program"@
        }),
{
    reveal_strlit("services");
    reveal_strlit("networking");
    reveal_strlit("boot");
    reveal_strlit("environment");
    reveal_strlit("users");
    reveal_strlit("hardware");
    reveal_strlit("programs");
    let p = split_on(opt, '.');
    if p.len() >= 1 {
        if p[0] == "boot"@ {
            assert(p[0] != "services"@) by { assert(p[0][0] != "services"@[0]); }
            assert(p[0] != "networking"@) by { assert(p[0][0] != "networking"@[0]); }
        }
        if p[0] == "environment"@ {
            assert(p[0] != "services"@) by { assert(p[0][0] != "services"@[0]); }
            assert(p[0] != "networking"@) by { assert(p[0][0] != "networking"@[0]); }
            assert(p[0] != "boot"@) by { assert(p[0][0] != "boot"@[0]); }
        }
        if p[0] == "users"@ {
            assert(p[0] != "services"@) by { assert(p[0][0] != "services"@[0]); }
            assert(p[0] != "networking"@) by { assert(p[0][0] != "networking"@[0]); }
            assert(p[0] != "boot"@) by { assert(p[0][0] != "boot"@[0]); }
            assert(p[0] != "environment"@) by { assert(p[0][0] != "environment"@[0]); }
        }
        if p[0] == "programs"@ {
            assert(p[0] != "services"@) by { assert(p[0][0] != "services"@[0]); }
            assert(p[0] != "networking"@) by { assert(p[0][0] != "networking"@[0]); }
            assert(p[0] != "boot"@) by { assert(p[0][0] != "boot"@[0]); }
            assert(p[0] != "environment"@) by { assert(p[0][0] != "environment"@[0]); }
            assert(p[0] != "users"@) by { assert(p[0][0] != "users"@[0]); }
            assert(p[0] != "hardware"@) by { assert(p[0][0] != "hardware"@[0]); }
        }
    }
}

/// Generate a commit message that summarises which NixOS options changed.
/// It always starts with `nixman: `; beyond three options only the first
/// three are described and a count of the others follows.
pub fn suggest_message(changed_options: &[String]) -> (r: String)
    ensures
        r@ == commit_message(string_views(changed_options@)),
{
    let ghost ov = string_views(changed_options@);
    if changed_options.len() == 0 {
        return string_from(&chars_of("nixman: update configuration"));
    }
    let mut descs: Vec<Vec<char>> = Vec::new();
    let n = changed_options.len();
    for i in 0..n
        invariant
            n == changed_options@.len(),
            ov == string_views(changed_options@),
            views(descs@) == ov.take(i as int).map_values(|o: Seq<char>| option_description(o)),
    {
        let ghost prev = views(descs@);
        let d = describe_option(changed_options[i].as_str());
        descs.push(chars_of(d.as_str()));
        assert(views(descs@) =~= prev.push(option_description(ov[i as int])));
        assert(ov.take(i + 1).map_values(|o: Seq<char>| option_description(o)) =~= ov.take(
            i as int,
        ).map_values(|o: Seq<char>| option_description(o)).push(option_description(ov[i as int])));
    }
    assert(ov.take(n as int) =~= ov);
    let ghost dv = ov.map_values(|o: Seq<char>| option_description(o));
    let mut msg = chars_of("nixman: ");
    if n <= 3 {
        push_all(&mut msg, &join_exec(&descs, &chars_of(", ")));
    } else {
        let mut first: Vec<Vec<char>> = Vec::new();
        for i in 0..3
            invariant
                n > 3,
                n == dv.len(),
                descs@.len() == n,
                views(descs@) == dv,
                views(first@) == dv.take(i as int),
        {
            let ghost prev = views(first@);
            let x = slice_of(&descs[i], 0, descs[i].len());
            assert(x@ =~= dv[i as int]);
            first.push(x);
            assert(views(first@) =~= prev.push(dv[i as int]));
            assert(dv.take(i + 1) =~= dv.take(i as int).push(dv[i as int]));
        }
        push_all(&mut msg, &join_exec(&first, &chars_of(", ")));
        push_all(&mut msg, &chars_of(", and "));
        push_all(&mut msg, &dec_u64((n - 3) as u64));
        push_all(&mut msg, &chars_of(" more"));
    }
    string_from(&msg)
}

} // verus!

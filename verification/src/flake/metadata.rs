//! The direct inputs of a flake, from the structure of its `flake.lock`:
//! the inputs of the root node, each resolved to its node's `locked`
//! object, with the flake URL rebuilt from it.
use vstd::prelude::*;
use vstd::string::*;
use crate::flake::types::{FlakeError, FlakeInput, LockFile, LockNode, LockedInput};

verus! {

/// Whether chrono can represent `secs` seconds after the Unix epoch as a
/// UTC date-time: its day (counted from 0001-01-01 as day 1, the epoch
/// being day 719163) lies between chrono's first date, -262143-01-01
/// (day -95746129), and its last, 262142-12-31 (day 95745399).
pub open spec fn timestamp_fits(secs: i64) -> bool {
    -95746129 <= secs / 86400 + 719163 <= 95745399
}

/// `chrono::DateTime::<Utc>::from_timestamp(secs, 0)` succeeds exactly when
/// the day of `secs` lies in chrono's date range (the time of day, taken
/// with no nanoseconds, always fits).
#[verifier::external_body]
fn timestamp_in_range(secs: i64) -> (r: bool)
    ensures
        r == timestamp_fits(secs),
{
    chrono::DateTime::from_timestamp(secs, 0).is_some()
}

/// The text of an optional string field, empty when absent.
pub open spec fn or_empty(s: Option<String>) -> Seq<char> {
    match s {
        Some(x) => x@,
        None => Seq::<char>::empty(),
    }
}

/// The flake URL of a locked input: `github:<owner>/<repo>` (with
/// `/<ref>` when the ref is not empty) for GitHub inputs, the `url` field
/// for git inputs, and `<type>:<owner>/<repo>` otherwise (the type being
/// `unknown` when absent).
pub open spec fn locked_url(l: LockedInput) -> Seq<char> {
    let t = match l.input_type {
        Some(t) => t@,
        None => "unknown"@,
    };
    let owner = or_empty(l.owner);
    let repo = or_empty(l.repo);
    let r = or_empty(l.git_ref);
    if t == "github"@ {
        if r.len() == 0 {
            "github:"@ + owner + "/"@ + repo
        } else {
            "github:"@ + owner + "/"@ + repo + "/"@ + r
        }
    } else if t == "git"@ {
        or_empty(l.url)
    } else {
        t + ":"@ + owner + "/"@ + repo
    }
}

/// The input named `name` pinned by `l`; the commit time is `now` when the
/// lock has none that chrono can represent.
pub open spec fn input_of(name: Seq<char>, l: LockedInput, now: i64) -> (Seq<char>, Seq<char>, Seq<char>, i64, Seq<char>) {
    (name, locked_url(l), or_empty(l.rev), match l.last_modified {
        Some(ts) => if timestamp_fits(ts) {
            ts
        } else {
            now
        },
        None => now,
    }, or_empty(l.nar_hash))
}

/// The model of an input: name, URL, revision, commit time, NAR hash.
pub open spec fn input_model(i: FlakeInput) -> (Seq<char>, Seq<char>, Seq<char>, i64, Seq<char>) {
    (i.name@, i.url@, i.rev@, i.last_modified, i.nar_hash@)
}

fn text_or_empty(s: &Option<String>) -> (r: String)
    ensures
        r@ == or_empty(*s),
{
    match s {
        Some(x) => x.clone(),
        None => String::new(),
    }
}

fn eq_str(a: &str, b: &str) -> (r: bool)
    ensures
        r == (a@ == b@),
{
    let x = String::from_str(a);
    let y = String::from_str(b);
    x == y
}

/// The flake URL of a locked input (see [`locked_url`]).
pub fn url_of(l: &LockedInput) -> (r: String)
    ensures
        r@ == locked_url(*l),
{
    let t = match &l.input_type {
        Some(t) => t.clone(),
        None => String::from_str("unknown"),
    };
    let owner = text_or_empty(&l.owner);
    let repo = text_or_empty(&l.repo);
    let r = text_or_empty(&l.git_ref);
    if eq_str(t.as_str(), "github") {
        let mut u = String::from_str("github:");
        u.append(owner.as_str());
        u.append("/");
        u.append(repo.as_str());
        if r.as_str().unicode_len() > 0 {
            u.append("/");
            u.append(r.as_str());
        }
        u
    } else if eq_str(t.as_str(), "git") {
        text_or_empty(&l.url)
    } else {
        let mut u = t.clone();
        u.append(":");
        u.append(owner.as_str());
        u.append("/");
        u.append(repo.as_str());
        u
    }
}

/// The input named `name` pinned by the `locked` object `l` (see
/// [`input_of`]).
pub fn parse_locked_input(name: &str, l: &LockedInput, now: i64) -> (r: FlakeInput)
    ensures
        input_model(r) == input_of(name@, *l, now),
{
    let last_modified = match l.last_modified {
        Some(ts) => if timestamp_in_range(ts) {
            ts
        } else {
            now
        },
        None => now,
    };
    FlakeInput {
        name: String::from_str(name),
        url: url_of(l),
        rev: text_or_empty(&l.rev),
        last_modified,
        nar_hash: text_or_empty(&l.nar_hash),
    }
}

/// The node the lock file holds under `key` (its first entry for `key`):
/// none when there is no such entry, `Some(None)` when it is not an object.
pub open spec fn node_at(nodes: Seq<(String, Option<LockNode>)>, key: Seq<char>) -> Option<Option<LockNode>>
    decreases nodes.len(),
{
    if nodes.len() == 0 {
        None
    } else {
        match node_at(nodes.drop_last(), key) {
            Some(n) => Some(n),
            None => if nodes.last().0@ == key {
                Some(nodes.last().1)
            } else {
                None
            },
        }
    }
}

/// The pinned inputs reached from root inputs `ins` (each with a string
/// target whose node is an object with a `locked` object), in order.
pub open spec fn inputs_from(nodes: Seq<(String, Option<LockNode>)>, ins: Seq<(String, Option<String>)>, now: i64) -> Seq<(Seq<char>, Seq<char>, Seq<char>, i64, Seq<char>)>
    decreases ins.len(),
{
    if ins.len() == 0 {
        Seq::empty()
    } else {
        let r = inputs_from(nodes, ins.drop_last(), now);
        let (name, target) = ins.last();
        match target {
            Some(k) => match node_at(nodes, k@) {
                Some(Some(n)) => match n.locked {
                    Some(l) => r.push(input_of(name@, l, now)),
                    None => r,
                },
                _ => r,
            },
            None => r,
        }
    }
}

/// The result of listing a lock file's direct inputs: a `ParseError` when
/// it has no `nodes` object or no root node object (the root key being
/// `root` unless given), none when the root node has no `inputs` object,
/// else the pinned inputs in the order of the root's inputs.
pub open spec fn listed_inputs(lock: LockFile, now: i64) -> Result<Seq<(Seq<char>, Seq<char>, Seq<char>, i64, Seq<char>)>, Seq<char>> {
    match lock.nodes {
        None => Err("missing \"nodes\" field"@),
        Some(nodes) => {
            let key = match lock.root {
                Some(k) => k@,
                None => "root"@,
            };
            match node_at(nodes@, key) {
                Some(Some(root)) => match root.inputs {
                    None => Ok(Seq::empty()),
                    Some(ins) => Ok(inputs_from(nodes@, ins@, now)),
                },
                _ => Err("missing root node"@),
            }
        },
    }
}

fn find_node<'a>(nodes: &'a Vec<(String, Option<LockNode>)>, key: &String) -> (r: Option<&'a Option<LockNode>>)
    ensures
        match r {
            Some(n) => node_at(nodes@, key@) == Some(*n),
            None => node_at(nodes@, key@) is None,
        },
{
    let mut i: usize = 0;
    while i < nodes.len()
        invariant
            0 <= i <= nodes@.len(),
            node_at(nodes@.take(i as int), key@) is None,
        decreases nodes@.len() - i,
    {
        assert(nodes@.take(i + 1).drop_last() =~= nodes@.take(i as int));
        if nodes[i].0 == *key {
            proof { lemma_node_at_prefix(nodes@, i as int + 1, key@); }
            return Some(&nodes[i].1);
        }
        i += 1;
    }
    assert(nodes@.take(nodes@.len() as int) =~= nodes@);
    None
}

/// What a prefix of the nodes holds under a key is what all of them hold.
proof fn lemma_node_at_prefix(nodes: Seq<(String, Option<LockNode>)>, n: int, key: Seq<char>)
    requires
        0 <= n <= nodes.len(),
        node_at(nodes.take(n), key) is Some,
    ensures
        node_at(nodes, key) == node_at(nodes.take(n), key),
    decreases nodes.len() - n,
{
    if n < nodes.len() {
        assert(nodes.take(n + 1).drop_last() =~= nodes.take(n));
        lemma_node_at_prefix(nodes, n + 1, key);
    } else {
        assert(nodes.take(n) =~= nodes);
    }
}

/// The direct inputs of a flake from its lock file (see
/// [`listed_inputs`]); `now` stands for the commit time of an input whose
/// lock has none that chrono can represent.
pub fn list_inputs_in(lock: &LockFile, now: i64) -> (r: Result<Vec<FlakeInput>, FlakeError>)
    ensures
        match listed_inputs(*lock, now) {
            Ok(v) => r matches Ok(x) && x@.map_values(|i: FlakeInput| input_model(i)) == v,
            Err(m) => r matches Err(FlakeError::ParseError(x)) && x@ == m,
        },
{
    let nodes = match &lock.nodes {
        Some(n) => n,
        None => return Err(FlakeError::ParseError(String::from_str("missing \"nodes\" field"))),
    };
    let key = match &lock.root {
        Some(k) => k.clone(),
        None => String::from_str("root"),
    };
    let root = match find_node(nodes, &key) {
        Some(Some(n)) => n,
        _ => return Err(FlakeError::ParseError(String::from_str("missing root node"))),
    };
    let ins = match &root.inputs {
        Some(i) => i,
        None => {
            let out: Vec<FlakeInput> = Vec::new();
            assert(out@.map_values(|i: FlakeInput| input_model(i)) =~= Seq::empty());
            return Ok(out);
        },
    };
    let mut out: Vec<FlakeInput> = Vec::new();
    let mut i: usize = 0;
    while i < ins.len()
        invariant
            0 <= i <= ins@.len(),
            out@.map_values(|x: FlakeInput| input_model(x)) == inputs_from(nodes@, ins@.take(i as int), now),
        decreases ins@.len() - i,
    {
        assert(ins@.take(i + 1).drop_last() =~= ins@.take(i as int));
        assert(ins@.take(i + 1).last() == ins@[i as int]);
        let ghost before = out@.map_values(|x: FlakeInput| input_model(x));
        if let Some(k) = &ins[i].1 {
            if let Some(Some(n)) = find_node(nodes, k) {
                if let Some(l) = &n.locked {
                    let inp = parse_locked_input(ins[i].0.as_str(), l, now);
                    out.push(inp);
                    assert(out@.map_values(|x: FlakeInput| input_model(x)) =~= before.push(input_model(inp)));
                }
            }
        }
        i += 1;
    }
    assert(ins@.take(ins@.len() as int) =~= ins@);
    Ok(out)
}

} // verus!

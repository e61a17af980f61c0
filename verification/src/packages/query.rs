//! Turning what `nix search`, `nix eval` and `nix eval --raw` report into
//! packages and errors: display names of search hits, homepage and licence
//! from package metadata, and the outcomes of failed lookups.
use vstd::prelude::*;
use vstd::string::*;
use crate::text::{
    chars_of, contains, contains_str, lines, lines_exec, push_all, split_on, split_on_exec, string_from,
    views,
};
use crate::packages::types::{Package, PackageError, PackageSource, SearchResult};

verus! {

/// One hit of `nix search --json`: its attribute path and the fields read.
#[derive(Debug, Clone)]
pub struct SearchEntry {
    pub attr_path: String,
    pub pname: Option<String>,
    pub version: Option<String>,
    pub description: Option<String>,
}

/// The text of an optional field, empty when absent.
pub open spec fn text_or_empty(s: Option<String>) -> Seq<char> {
    match s {
        Some(x) => x@,
        None => Seq::<char>::empty(),
    }
}

/// The display name of a search hit: its `pname` when not empty, else the
/// last dot-separated component of its attribute path.
pub open spec fn hit_name(e: SearchEntry) -> Seq<char> {
    match e.pname {
        Some(p) => if p@.len() > 0 {
            p@
        } else {
            split_on(e.attr_path@, '.').last()
        },
        None => split_on(e.attr_path@, '.').last(),
    }
}

/// A plain package: the given name, version and description, no homepage
/// or licence, declared by the system configuration.
pub open spec fn plain_package(p: Package, name: Seq<char>, version: Seq<char>, description: Seq<char>) -> bool {
    &&& p.name@ == name
    &&& p.version@ == version
    &&& p.description@ == description
    &&& p.homepage is None
    &&& p.license is None
    &&& p.source == PackageSource::System
}

fn or_empty(s: &Option<String>) -> (r: String)
    ensures
        r@ == text_or_empty(*s),
{
    match s {
        Some(x) => x.clone(),
        None => String::new(),
    }
}

fn last_component(path: &String) -> (r: String)
    ensures
        r@ == split_on(path@, '.').last(),
{
    let parts = split_on_exec(&chars_of(path.as_str()), '.');
    proof { crate::text::lemma_split_on_nonempty(path@, '.'); }
    assert(views(parts@) == split_on(path@, '.'));
    assert(parts@[parts@.len() - 1]@ == views(parts@).last());
    string_from(&parts[parts.len() - 1])
}

/// The package of a search hit (see [`hit_name`]); version and description
/// are empty when absent.
pub fn package_of_hit(e: &SearchEntry) -> (r: Package)
    ensures
        plain_package(r, hit_name(*e), text_or_empty(e.version), text_or_empty(e.description)),
{
    let name = match &e.pname {
        Some(p) => if p.as_str().unicode_len() > 0 {
            p.clone()
        } else {
            last_component(&e.attr_path)
        },
        None => last_component(&e.attr_path),
    };
    Package {
        name,
        version: or_empty(&e.version),
        description: or_empty(&e.description),
        homepage: None,
        license: None,
        source: PackageSource::System,
    }
}

/// The result of a search for `query` with hits `entries`: a package for
/// each hit, in order, and their number.
pub fn search_result(query: &str, entries: &Vec<SearchEntry>) -> (r: SearchResult)
    ensures
        r.query@ == query@,
        r.total == r.packages@.len(),
        r.packages@.len() == entries@.len(),
        forall|i: int| 0 <= i < entries@.len() ==> plain_package(
            #[trigger] r.packages@[i],
            hit_name(entries@[i]),
            text_or_empty(entries@[i].version),
            text_or_empty(entries@[i].description),
        ),
{
    let mut packages: Vec<Package> = Vec::new();
    let mut i: usize = 0;
    while i < entries.len()
        invariant
            0 <= i <= entries@.len(),
            packages@.len() == i,
            forall|k: int| 0 <= k < i ==> plain_package(
                #[trigger] packages@[k],
                hit_name(entries@[k]),
                text_or_empty(entries@[k].version),
                text_or_empty(entries@[k].description),
            ),
        decreases entries@.len() - i,
    {
        packages.push(package_of_hit(&entries[i]));
        i += 1;
    }
    let total = packages.len();
    SearchResult { packages, query: String::from_str(query), total }
}

/// The system packages named `names`, with nothing else known of them.
pub fn packages_named(names: &Vec<String>) -> (r: Vec<Package>)
    ensures
        r@.len() == names@.len(),
        forall|i: int| 0 <= i < names@.len() ==> plain_package(#[trigger] r@[i], names@[i]@, Seq::<char>::empty(), Seq::<char>::empty()),
{
    let mut r: Vec<Package> = Vec::new();
    let mut i: usize = 0;
    while i < names.len()
        invariant
            0 <= i <= names@.len(),
            r@.len() == i,
            forall|k: int| 0 <= k < i ==> plain_package(#[trigger] r@[k], names@[k]@, Seq::<char>::empty(), Seq::<char>::empty()),
        decreases names@.len() - i,
    {
        r.push(Package {
            name: names[i].clone(),
            version: String::new(),
            description: String::new(),
            homepage: None,
            license: None,
            source: PackageSource::System,
        });
        i += 1;
    }
    r
}

/// A JSON value of package metadata, as far as it is read.
#[derive(Debug)]
pub enum MetaValue {
    Str(String),
    Array(Vec<MetaValue>),
    /// An object's members, in order.
    Object(Vec<(String, MetaValue)>),
    /// Any other JSON value.
    Other,
}

/// The member of an object for `key` (its first), if any.
pub open spec fn member(m: Seq<(String, MetaValue)>, key: Seq<char>) -> Option<MetaValue>
    decreases m.len(),
{
    if m.len() == 0 {
        None
    } else {
        match member(m.drop_last(), key) {
            Some(v) => Some(v),
            None => if m.last().0@ == key {
                Some(m.last().1)
            } else {
                None
            },
        }
    }
}

/// The string a value holds, if it is one.
pub open spec fn as_text(v: Option<MetaValue>) -> Option<Seq<char>> {
    match v {
        Some(MetaValue::Str(s)) => Some(s@),
        _ => None,
    }
}

/// A package's homepage from `meta.homepage`: a string, or the first item
/// of a list when that is a string.
pub open spec fn homepage_of(v: MetaValue) -> Option<Seq<char>> {
    match v {
        MetaValue::Str(s) => Some(s@),
        MetaValue::Array(items) => if items@.len() > 0 {
            as_text(Some(items@[0]))
        } else {
            None
        },
        _ => None,
    }
}

/// A package's licence from `meta.license`: a string; for an object its
/// `spdxId` member, or its `fullName` when there is no `spdxId`, if a
/// string; for a list, the licence of its first item.
pub open spec fn license_of(v: MetaValue) -> Option<Seq<char>>
    decreases v,
{
    match v {
        MetaValue::Str(s) => Some(s@),
        MetaValue::Object(m) => match member(m@, "spdxId"@) {
            Some(x) => as_text(Some(x)),
            None => as_text(member(m@, "fullName"@)),
        },
        MetaValue::Array(items) => if items@.len() > 0 {
            license_of(items@[0])
        } else {
            None
        },
        MetaValue::Other => None,
    }
}

/// The model of an optional string.
pub open spec fn opt_text(s: Option<String>) -> Option<Seq<char>> {
    match s {
        Some(x) => Some(x@),
        None => None,
    }
}

fn member_exec<'a>(m: &'a Vec<(String, MetaValue)>, key: &str) -> (r: Option<&'a MetaValue>)
    ensures
        match r {
            Some(v) => member(m@, key@) == Some(*v),
            None => member(m@, key@) is None,
        },
{
    let k = String::from_str(key);
    let mut i: usize = 0;
    while i < m.len()
        invariant
            0 <= i <= m@.len(),
            k@ == key@,
            member(m@.take(i as int), key@) is None,
        decreases m@.len() - i,
    {
        assert(m@.take(i + 1).drop_last() =~= m@.take(i as int));
        if m[i].0 == k {
            proof { lemma_member_prefix(m@, i as int + 1, key@); }
            return Some(&m[i].1);
        }
        i += 1;
    }
    assert(m@.take(m@.len() as int) =~= m@);
    None
}

proof fn lemma_member_prefix(m: Seq<(String, MetaValue)>, n: int, key: Seq<char>)
    requires
        0 <= n <= m.len(),
        member(m.take(n), key) is Some,
    ensures
        member(m, key) == member(m.take(n), key),
    decreases m.len() - n,
{
    if n < m.len() {
        assert(m.take(n + 1).drop_last() =~= m.take(n));
        lemma_member_prefix(m, n + 1, key);
    } else {
        assert(m.take(n) =~= m);
    }
}

fn text_of(v: Option<&MetaValue>) -> (r: Option<String>)
    ensures
        opt_text(r) == as_text(match v {
            Some(x) => Some(*x),
            None => None,
        }),
{
    match v {
        Some(MetaValue::Str(s)) => Some(s.clone()),
        _ => None,
    }
}

/// A package's homepage (see [`homepage_of`]).
pub fn extract_homepage(v: &MetaValue) -> (r: Option<String>)
    ensures
        opt_text(r) == homepage_of(*v),
{
    match v {
        MetaValue::Str(s) => Some(s.clone()),
        MetaValue::Array(items) => if items.len() > 0 {
            text_of(Some(&items[0]))
        } else {
            None
        },
        _ => None,
    }
}

/// A package's licence (see [`license_of`]).
pub fn extract_license(v: &MetaValue) -> (r: Option<String>)
    ensures
        opt_text(r) == license_of(*v),
    decreases v,
{
    match v {
        MetaValue::Str(s) => Some(s.clone()),
        MetaValue::Object(m) => match member_exec(m, "spdxId") {
            Some(x) => text_of(Some(x)),
            None => text_of(member_exec(m, "fullName")),
        },
        MetaValue::Array(items) => if items.len() > 0 {
            extract_license(&items[0])
        } else {
            None
        },
        MetaValue::Other => None,
    }
}

/// The package `name` with its metadata: description (empty when absent),
/// homepage and licence; the version is not part of the metadata.
pub fn package_of_meta(name: &str, description: Option<String>, homepage: Option<MetaValue>, license: Option<MetaValue>) -> (r: Package)
    ensures
        r.name@ == name@,
        r.version@ == Seq::<char>::empty(),
        r.description@ == text_or_empty(description),
        opt_text(r.homepage) == match homepage {
            Some(h) => homepage_of(h),
            None => None,
        },
        opt_text(r.license) == match license {
            Some(l) => license_of(l),
            None => None,
        },
        r.source == PackageSource::System,
{
    let homepage = match &homepage {
        Some(h) => extract_homepage(h),
        None => None,
    };
    let license = match &license {
        Some(l) => extract_license(l),
        None => None,
    };
    Package {
        name: String::from_str(name),
        version: String::new(),
        description: or_empty(&description),
        homepage,
        license,
        source: PackageSource::System,
    }
}

/// The error of a failed `nix eval` of a package's metadata: `NotFound`
/// when the error says the attribute does not exist, else the command's
/// failure with its standard error.
pub fn eval_failure(name: &str, stderr: &str) -> (r: PackageError)
    ensures
        (contains(stderr@, "does not provide attribute"@) || contains(stderr@, "error: attribute '"@))
            ==> (r matches PackageError::NotFound(n) && n@ == name@),
        !(contains(stderr@, "does not provide attribute"@) || contains(stderr@, "error: attribute '"@))
            ==> (r matches PackageError::NixCommandFailed(m) && m@ == stderr@),
{
    let e = chars_of(stderr);
    if contains_str(&e, "does not provide attribute") || contains_str(&e, "error: attribute '") {
        PackageError::NotFound(String::from_str(name))
    } else {
        PackageError::NixCommandFailed(String::from_str(stderr))
    }
}

/// The hint given when a package name is not in nixpkgs.
pub open spec fn default_hint() -> Seq<char> {
    "Check the attribute name with 'nix search nixpkgs <name>'."@
}

/// The first of `ls` that contains `Did you mean`, if any.
pub open spec fn first_suggestion(ls: Seq<Seq<char>>) -> Option<Seq<char>>
    decreases ls.len(),
{
    if ls.len() == 0 {
        None
    } else if contains(ls[0], "Did you mean"@) {
        Some(ls[0])
    } else {
        first_suggestion(ls.skip(1))
    }
}

/// The hint for a package that `nix eval` could not find: the first line
/// of its error with `Did you mean` when the error says the flake does not
/// provide the attribute, else the default advice.
pub open spec fn hint_of(stderr: Seq<char>) -> Seq<char> {
    if contains(stderr, "does not provide"@) {
        match first_suggestion(lines(stderr)) {
            Some(l) => l,
            None => default_hint(),
        }
    } else {
        default_hint()
    }
}

/// The first line that contains `Did you mean`.
fn suggestion(ls: &Vec<Vec<char>>) -> (r: Option<Vec<char>>)
    ensures
        match r {
            Some(l) => first_suggestion(views(ls@)) == Some(l@),
            None => first_suggestion(views(ls@)) is None,
        },
{
    let ghost lv = views(ls@);
    let mut i: usize = 0;
    assert(lv.skip(0) =~= lv);
    while i < ls.len()
        invariant
            0 <= i <= ls@.len(),
            lv == views(ls@),
            first_suggestion(lv) == first_suggestion(lv.skip(i as int)),
        decreases ls@.len() - i,
    {
        assert(lv.skip(i as int)[0] == ls@[i as int]@);
        assert(lv.skip(i as int).skip(1) =~= lv.skip(i + 1));
        if contains_str(&ls[i], "Did you mean") {
            return Some(ls[i].clone());
        }
        i += 1;
    }
    None
}

/// The error for a package name that a failed `nix eval` with standard
/// error `stderr` did not find in nixpkgs.
pub fn package_not_found(pkg_name: &str, stderr: &str) -> (r: PackageError)
    ensures
        r matches PackageError::NotFound(m) && m@ == "Package '"@ + pkg_name@ + "' not found in nixpkgs. "@ + hint_of(stderr@),
{
    let e = chars_of(stderr);
    let hint = if contains_str(&e, "does not provide") {
        match suggestion(&lines_exec(&e)) {
            Some(l) => l,
            None => chars_of("Check the attribute name with 'nix search nixpkgs <name>'."),
        }
    } else {
        chars_of("Check the attribute name with 'nix search nixpkgs <name>'.")
    };
    let mut m = chars_of("Package '");
    push_all(&mut m, &chars_of(pkg_name));
    push_all(&mut m, &chars_of("' not found in nixpkgs. "));
    push_all(&mut m, &hint);
    PackageError::NotFound(string_from(&m))
}

} // verus!

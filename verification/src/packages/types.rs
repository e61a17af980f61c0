//! Values of the packages module.
use vstd::prelude::*;
use crate::text::{chars_of, dec, dec_u64, push_all, string_from};

verus! {

/// Which configuration layer declares a package.
#[derive(Debug, Clone, Copy, PartialEq, Eq)]
pub enum PackageSource {
    /// `environment.systemPackages`.
    System,
    /// Home Manager.
    HomeManager,
}

/// A Nix package with its metadata.
#[derive(Debug, Clone)]
pub struct Package {
    /// Attribute name, such as `firefox`.
    pub name: String,
    /// Version, such as `110.0`.
    pub version: String,
    /// Short description.
    pub description: String,
    /// Upstream homepage, if known.
    pub homepage: Option<String>,
    /// Licence, if known.
    pub license: Option<String>,
    /// The layer that declares it.
    pub source: PackageSource,
}

/// The result of a package search.
#[derive(Debug, Clone)]
pub struct SearchResult {
    /// The packages that matched.
    pub packages: Vec<Package>,
    /// The query.
    pub query: String,
    /// The number of packages that matched.
    pub total: usize,
}

/// Errors of package operations.
#[derive(Debug)]
pub enum PackageError {
    /// A `nix` command exited non-zero.
    NixCommandFailed(String),
    /// Output or source could not be read.
    ParseError(String),
    /// The package is not in nixpkgs.
    NotFound(String),
    /// The package is not in the configuration's list.
    NotInConfig(String),
    /// The `nix` binary is not available.
    NixNotAvailable,
    /// The package is in more than one file: each file with the line of its
    /// list.
    AmbiguousRemove(Vec<(String, usize)>),
}

/// The lines listing the files of an ambiguous removal.
pub open spec fn ambiguous_lines(paths: Seq<(String, usize)>) -> Seq<char>
    decreases paths.len(),
{
    if paths.len() == 0 {
        Seq::<char>::empty()
    } else {
        ambiguous_lines(paths.drop_last()) + "  - "@ + paths.last().0@ + " (line "@ + dec(paths.last().1 as nat) + ")\n"@
    }
}

/// The display text of a package error.
pub open spec fn package_error_text(e: PackageError) -> Seq<char> {
    match e {
        PackageError::NixCommandFailed(m) => "nix command failed: "@ + m@,
        PackageError::ParseError(m) => "parse error: "@ + m@,
        PackageError::NotFound(n) => "package not found: "@ + n@,
        PackageError::NotInConfig(n) => "package not in environment.systemPackages: "@ + n@,
        PackageError::NixNotAvailable => "nix binary not found; cannot verify package name"@,
        PackageError::AmbiguousRemove(paths) => "package found in multiple files:\n"@ + ambiguous_lines(paths@)
            + "use --file to specify which to remove"@,
    }
}

impl PackageError {
    /// The error's display text.
    pub fn message(&self) -> (r: String)
        ensures
            r@ == package_error_text(*self),
    {
        let v = match self {
            PackageError::NixCommandFailed(m) => {
                let mut v = chars_of("nix command failed: ");
                push_all(&mut v, &chars_of(m.as_str()));
                v
            },
            PackageError::ParseError(m) => {
                let mut v = chars_of("parse error: ");
                push_all(&mut v, &chars_of(m.as_str()));
                v
            },
            PackageError::NotFound(m) => {
                let mut v = chars_of("package not found: ");
                push_all(&mut v, &chars_of(m.as_str()));
                v
            },
            PackageError::NotInConfig(m) => {
                let mut v = chars_of("package not in environment.systemPackages: ");
                push_all(&mut v, &chars_of(m.as_str()));
                v
            },
            PackageError::NixNotAvailable => chars_of("nix binary not found; cannot verify package name"),
            PackageError::AmbiguousRemove(paths) => {
                let mut v = chars_of("package found in multiple files:\n");
                let ghost start = v@;
                for i in 0..paths.len()
                    invariant
                        v@ == start + ambiguous_lines(paths@.take(i as int)),
                {
                    assert(paths@.take(i + 1).drop_last() =~= paths@.take(i as int));
                    push_all(&mut v, &chars_of("  - "));
                    push_all(&mut v, &chars_of(paths[i].0.as_str()));
                    push_all(&mut v, &chars_of(" (line "));
                    push_all(&mut v, &dec_u64(paths[i].1 as u64));
                    push_all(&mut v, &chars_of(")\n"));
                    assert(v@ =~= start + ambiguous_lines(paths@.take(i + 1)));
                }
                assert(paths@.take(paths@.len() as int) =~= paths@);
                push_all(&mut v, &chars_of("use --file to specify which to remove"));
                v
            },
        };
        string_from(&v)
    }
}

} // verus!

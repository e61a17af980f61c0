//! Values of the option index.
use vstd::prelude::*;
use crate::text::string_views;

verus! {

/// The type of a NixOS option, as declared in the module system.
#[derive(Debug, PartialEq)]
pub enum OptionType {
    Bool,
    String,
    Int,
    Float,
    Path,
    Package,
    ListOf(Box<OptionType>),
    AttrsOf(Box<OptionType>),
    /// One of a fixed set of string values.
    Enum(Vec<String>),
    Submodule,
    Unspecified,
}

/// An option type as plain values.
pub enum OptType {
    Bool,
    Str,
    Int,
    Float,
    Path,
    Package,
    ListOf(Box<OptType>),
    AttrsOf(Box<OptType>),
    Enum(Seq<Seq<char>>),
    Submodule,
    Unspecified,
}

/// The plain model of an option type.
pub open spec fn opt_type(t: OptionType) -> OptType
    decreases t,
{
    match t {
        OptionType::Bool => OptType::Bool,
        OptionType::String => OptType::Str,
        OptionType::Int => OptType::Int,
        OptionType::Float => OptType::Float,
        OptionType::Path => OptType::Path,
        OptionType::Package => OptType::Package,
        OptionType::ListOf(inner) => OptType::ListOf(Box::new(opt_type(*inner))),
        OptionType::AttrsOf(inner) => OptType::AttrsOf(Box::new(opt_type(*inner))),
        OptionType::Enum(vs) => OptType::Enum(string_views(vs@)),
        OptionType::Submodule => OptType::Submodule,
        OptionType::Unspecified => OptType::Unspecified,
    }
}

impl View for OptionType {
    type V = OptType;

    open spec fn view(&self) -> OptType {
        opt_type(*self)
    }
}

/// A copy of an option type.
pub fn copy_type(t: &OptionType) -> (r: OptionType)
    ensures
        r@ == t@,
    decreases t,
{
    match t {
        OptionType::Bool => OptionType::Bool,
        OptionType::String => OptionType::String,
        OptionType::Int => OptionType::Int,
        OptionType::Float => OptionType::Float,
        OptionType::Path => OptionType::Path,
        OptionType::Package => OptionType::Package,
        OptionType::ListOf(inner) => OptionType::ListOf(Box::new(copy_type(inner))),
        OptionType::AttrsOf(inner) => OptionType::AttrsOf(Box::new(copy_type(inner))),
        OptionType::Enum(vs) => OptionType::Enum(crate::text::copy_strings(vs)),
        OptionType::Submodule => OptionType::Submodule,
        OptionType::Unspecified => OptionType::Unspecified,
    }
}

impl Clone for OptionType {
    fn clone(&self) -> (r: Self)
        ensures
            r@ == self@,
    {
        copy_type(self)
    }
}

/// Metadata of one NixOS option.
#[derive(Debug, Clone)]
pub struct OptionMeta {
    /// Dotted option path, such as `services.nginx.enable`.
    pub path: String,
    /// The option's type.
    pub option_type: OptionType,
    /// The default value as text, if any.
    pub default: Option<String>,
    /// Description, with DocBook tags removed.
    pub description: String,
    /// Source file that declares the option.
    pub declared_in: String,
    /// An example value as text, if any.
    pub example: Option<String>,
}

/// Option metadata as plain values.
pub struct MetaModel {
    pub path: Seq<char>,
    pub option_type: OptType,
    pub default: Option<Seq<char>>,
    pub description: Seq<char>,
    pub declared_in: Seq<char>,
    pub example: Option<Seq<char>>,
}

impl View for OptionMeta {
    type V = MetaModel;

    open spec fn view(&self) -> MetaModel {
        MetaModel {
            path: self.path@,
            option_type: self.option_type@,
            default: crate::intent::types::opt_view(self.default),
            description: self.description@,
            declared_in: self.declared_in@,
            example: crate::intent::types::opt_view(self.example),
        }
    }
}

/// A copy of an option's metadata.
pub fn copy_meta(m: &OptionMeta) -> (r: OptionMeta)
    ensures
        r@ == m@,
{
    OptionMeta {
        path: m.path.clone(),
        option_type: copy_type(&m.option_type),
        default: match &m.default {
            Some(d) => Some(d.clone()),
            None => None,
        },
        description: m.description.clone(),
        declared_in: m.declared_in.clone(),
        example: match &m.example {
            Some(d) => Some(d.clone()),
            None => None,
        },
    }
}

/// An indexed snapshot of the full option set.
#[derive(Debug, Clone)]
pub struct OptionIndex {
    /// All options, sorted by path.
    pub options: Vec<OptionMeta>,
    /// SHA-256 hex digest of the `flake.lock` it was built from.
    pub flake_lock_hash: String,
    /// When it was built, in seconds since the Unix epoch (UTC).
    pub built_at: i64,
    /// The nixpkgs revision pinned by the flake.
    pub nixpkgs_rev: String,
}

} // verus!

//! Injecting proposed changes into a copy of the configuration: the value
//! a change's text stands for, and a file's source with the change made.
//! Copying files and running `nix eval` is the caller's part.
use vstd::prelude::*;
use vstd::string::*;
use crate::text::{chars_eq, chars_of, ends_with_str, push_all, starts_with_str, string_from};
use crate::intent::types::{IntentError, ProposedChange};
use crate::nix::format::NixValue;
use crate::nix::insert::{add_option, insertion_result};
use crate::nix::reader::{parse_error_text, parse_string, syntax_error_text, NixFile};
use crate::nix::syntax::parse_error_of;
use crate::nix::traversal::{find_option, node_value, option_node};
use crate::nix::writer::{replaced, set_value, write_error_text, WriteError};

verus! {

/// What copying the configuration for a trial does with a directory entry.
#[derive(Debug, Clone, Copy, PartialEq, Eq)]
pub enum CopyEntry {
    /// Leave it out.
    Skip,
    /// Create the directory in the copy and copy its entries.
    Descend,
    /// Copy the file.
    Copy,
}

/// The decision for an entry named `name`: hidden entries and the build
/// outputs `node_modules`, `target` and `result` are left out; other
/// directories are descended into; of files, only `.nix` files and
/// `flake.lock` are copied.
pub open spec fn copy_entry_of(name: Seq<char>, is_dir: bool) -> CopyEntry {
    if "."@.is_prefix_of(name) || name == "node_modules"@ || name == "target"@ || name == "result"@ {
        CopyEntry::Skip
    } else if is_dir {
        CopyEntry::Descend
    } else if ".nix"@.is_suffix_of(name) || name == "flake.lock"@ {
        CopyEntry::Copy
    } else {
        CopyEntry::Skip
    }
}

/// Decide what copying the configuration does with the entry `name`.
pub fn copy_entry(name: &str, is_dir: bool) -> (r: CopyEntry)
    ensures
        r == copy_entry_of(name@, is_dir),
{
    let n = chars_of(name);
    if starts_with_str(&n, ".") || chars_eq(&n, &chars_of("node_modules")) || chars_eq(&n, &chars_of("target"))
        || chars_eq(&n, &chars_of("result")) {
        CopyEntry::Skip
    } else if is_dir {
        CopyEntry::Descend
    } else if ends_with_str(&n, ".nix") || chars_eq(&n, &chars_of("flake.lock")) {
        CopyEntry::Copy
    } else {
        CopyEntry::Skip
    }
}

/// The one-binding set in which a value's text is read.
pub open spec fn value_holder(v: Seq<char>) -> Seq<char> {
    "{ __nixman_v = "@ + v + "; }"@
}

fn cat(parts: &Vec<&str>) -> (r: String)
    ensures
        r@ == concat_all(parts@),
{
    let mut v: Vec<char> = Vec::new();
    let mut i: usize = 0;
    while i < parts.len()
        invariant
            0 <= i <= parts@.len(),
            v@ == concat_all(parts@.take(i as int)),
        decreases parts@.len() - i,
    {
        assert(parts@.take(i + 1).drop_last() =~= parts@.take(i as int));
        push_all(&mut v, &chars_of(parts[i]));
        i += 1;
    }
    assert(parts@.take(parts@.len() as int) =~= parts@);
    string_from(&v)
}

/// The texts of `parts`, one after another.
pub open spec fn concat_all(parts: Seq<&str>) -> Seq<char>
    decreases parts.len(),
{
    if parts.len() == 0 {
        Seq::<char>::empty()
    } else {
        concat_all(parts.drop_last()) + parts.last()@
    }
}

/// The value a change's text stands for, read as the value of a binding:
/// an `AstError` when that does not parse or the binding cannot be read
/// back.
pub fn parse_nix_value_str(value_str: &str) -> (r: Result<NixValue, IntentError>)
    ensures
        match parse_error_of(value_holder(value_str@)) {
            Some(_) => r matches Err(IntentError::AstError(m))
                && m@ == "invalid value '"@ + value_str@ + "': "@ + syntax_error_text(value_holder(value_str@)).unwrap(),
            None => if crate::nix::reader::tree_readable(value_holder(value_str@)) {
                exists|f: NixFile| f.wf() && f.source@ == value_holder(value_str@)
                    && match #[trigger] option_node(f.root, "__nixman_v"@, value_holder(value_str@)) {
                    None => r matches Err(IntentError::AstError(m)) && m@ == "could not extract value '"@ + value_str@ + "'"@,
                    Some(n) => r matches Ok(v) && v@ == node_value(n, value_holder(value_str@)),
                }
            } else {
                (r matches Err(IntentError::AstError(m)) && m@ == "invalid value '"@ + value_str@ + "': "@
                    + crate::nix::reader::syntax_error_message(1, 1, crate::nix::reader::unreadable_tree_message()))
            },
        },
{
    let src = cat(&vec!["{ __nixman_v = ", value_str, "; }"]);
    proof {
        reveal_with_fuel(concat_all, 4);
        assert(src@ == value_holder(value_str@));
    }
    match parse_string(src.as_str()) {
        Ok(f) => match find_option(&f, "__nixman_v") {
            Some(n) => {
                let v = n.to_nix_value();
                assert(option_node(f.root, "__nixman_v"@, src@) is Some);
                Ok(v)
            },
            None => {
                let m = cat(&vec!["could not extract value '", value_str, "'"]);
                proof { reveal_with_fuel(concat_all, 4); }
                Err(IntentError::AstError(m))
            },
        },
        Err(e) => {
            let m = e.message();
            let t = cat(&vec!["invalid value '", value_str, "': ", m.as_str()]);
            proof { reveal_with_fuel(concat_all, 5); }
            Err(IntentError::AstError(t))
        },
    }
}

/// The source of `file` with `change` made, its value already read as
/// `value`: replaced in place when the option is set there (`exists`),
/// else inserted with two-space indentation.
///
/// Replacing: a source that does not parse gives an `AstError` naming the
/// file; a file without the option gives an `AstError`; a failed
/// replacement gives `InjectionFailed` with the writer's error. Inserting:
/// a failed insertion gives `InjectionFailed` with the writer's error.
pub fn inject_change(change: &ProposedChange, value: &NixValue, file: &str, exists: bool, source: &str) -> (r: Result<String, IntentError>)
    ensures
        !exists ==> exists|w: Result<String, WriteError>| {
            &&& #[trigger] insertion_result(source@, change.path@, value@, "  "@, w)
            &&& match w {
                Ok(s) => r matches Ok(x) && x@ == s@,
                Err(e) => r matches Err(IntentError::InjectionFailed(m)) && m@ == "failed to add '"@ + change.path@
                    + "' = '"@ + change.value@ + "': "@ + write_error_text(e),
            }
        },
        exists ==> match parse_error_of(source@) {
            Some(_) => r matches Err(IntentError::AstError(m))
                && m@ == "failed to parse '"@ + file@ + "': "@ + syntax_error_text(source@).unwrap(),
            None => if crate::nix::reader::tree_readable(source@) {
                exists|f: NixFile| f.wf() && f.source@ == source@
                    && match #[trigger] option_node(f.root, change.path@, source@) {
                    None => r matches Err(IntentError::AstError(m))
                        && m@ == "option '"@ + change.path@ + "' unexpectedly missing after locate"@,
                    Some(n) => match replaced(source@, n.start, n.end, value@) {
                        None => r matches Err(IntentError::InjectionFailed(m)) && m@ == "failed to set '"@ + change.path@
                            + "' = '"@ + change.value@ + "': "@ + write_error_text(WriteError::InvalidRange),
                        Some(t) => if parse_error_of(t) is None {
                            r matches Ok(x) && x@ == t
                        } else {
                            r matches Err(IntentError::InjectionFailed(m)) && m@ == "failed to set '"@ + change.path@
                                + "' = '"@ + change.value@ + "': "@ + "validation failed: "@ + syntax_error_text(t).unwrap()
                        },
                    },
                }
            } else {
                (r matches Err(IntentError::AstError(m)) && m@ == "failed to parse '"@ + file@ + "': "@
                    + crate::nix::reader::syntax_error_message(1, 1, crate::nix::reader::unreadable_tree_message()))
            },
        },
{
    if !exists {
        let w = add_option(source, change.path.as_str(), value, "  ");
        proof { reveal_strlit("  "); }
        return match w {
            Ok(s) => Ok(s),
            Err(e) => {
                let m = e.message();
                let t = cat(&vec!["failed to add '", change.path.as_str(), "' = '", change.value.as_str(), "': ", m.as_str()]);
                proof { reveal_with_fuel(concat_all, 7); }
                Err(IntentError::InjectionFailed(t))
            },
        };
    }
    let f = match parse_string(source) {
        Ok(f) => f,
        Err(e) => {
            let m = e.message();
            let t = cat(&vec!["failed to parse '", file, "': ", m.as_str()]);
            proof { reveal_with_fuel(concat_all, 5); }
            return Err(IntentError::AstError(t));
        },
    };
    let node = match find_option(&f, change.path.as_str()) {
        Some(n) => n,
        None => {
            let t = cat(&vec!["option '", change.path.as_str(), "' unexpectedly missing after locate"]);
            proof { reveal_with_fuel(concat_all, 4); }
            return Err(IntentError::AstError(t));
        },
    };
    let range = node.text_range();
    match set_value(source, range, value) {
        Ok(s) => {
            assert(option_node(f.root, change.path@, source@) is Some);
            Ok(s)
        },
        Err(e) => {
            let m = e.message();
            let t = cat(&vec!["failed to set '", change.path.as_str(), "' = '", change.value.as_str(), "': ", m.as_str()]);
            proof { reveal_with_fuel(concat_all, 7); }
            assert(option_node(f.root, change.path@, source@) is Some);
            Err(IntentError::InjectionFailed(t))
        },
    }
}

} // verus!

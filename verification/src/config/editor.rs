//! The decisions of reading, queuing and removing an option, on text the
//! caller has read: the value of an option in a file's source, the change
//! that setting it queues, and the source with it removed.
use vstd::prelude::*;
use vstd::string::*;
use crate::text::{chars_of, push_all, string_from};
use crate::config::pending::{added, PendingChanges};
use crate::config::types::{ConfigError, PendingChange};
use crate::nix::format::NixValue;
use crate::nix::reader::{
    parse_error_text, parse_string, syntax_error_message, syntax_error_text, tree_readable, unreadable_tree_message,
    NixFile,
};
use crate::nix::resolver::ResolvedOption;
use crate::nix::syntax::parse_error_of;
use crate::nix::traversal::{find_option, node_value, option_node};
use crate::nix::writer::{removal_result, remove_option};

verus! {

/// The message for an option that the resolver found but the file does
/// not hold.
pub open spec fn missing_after_locate(path: Seq<char>) -> Seq<char> {
    "option '"@ + path + "' unexpectedly missing after locate"@
}

/// The message for removing an option that is not set.
pub open spec fn not_set_message(path: Seq<char>) -> Seq<char> {
    "option '"@ + path + "' is not set in the configuration"@
}

/// `'<path>'` framed by `head` and `tail`.
fn quoted(head: &str, path: &str, tail: &str) -> (r: String)
    ensures
        r@ == head@ + path@ + tail@,
{
    let mut v = chars_of(head);
    push_all(&mut v, &chars_of(path));
    push_all(&mut v, &chars_of(tail));
    string_from(&v)
}

/// The value of the option at `option_path` in the source of the file the
/// resolver named for it.
///
/// A source rnix rejects gives `ParseError` with the syntax error; a file
/// without the option gives `ParseError` saying it is unexpectedly
/// missing; otherwise the option's value.
pub fn option_value(source: &str, option_path: &str) -> (r: Result<NixValue, ConfigError>)
    ensures
        match parse_error_of(source@) {
            Some(_) => r matches Err(ConfigError::ParseError(m)) && syntax_error_text(source@) == Some(m@),
            None => if tree_readable(source@) {
                exists|f: NixFile| f.wf() && f.source@ == source@ && match #[trigger] option_node(f.root, option_path@, source@) {
                    None => r matches Err(ConfigError::ParseError(m)) && m@ == missing_after_locate(option_path@),
                    Some(n) => r matches Ok(v) && v@ == node_value(n, source@),
                }
            } else {
                (r matches Err(ConfigError::ParseError(m)) && m@ == syntax_error_message(1, 1, unreadable_tree_message()))
            },
        },
{
    match parse_string(source) {
        Ok(f) => match find_option(&f, option_path) {
            Some(n) => {
                let v = n.to_nix_value();
                assert(option_node(f.root, option_path@, source@) is Some);
                Ok(v)
            },
            None => Err(ConfigError::ParseError(quoted("option '", option_path, "' unexpectedly missing after locate"))),
        },
        Err(e) => Err(ConfigError::ParseError(e.message())),
    }
}

/// The current value of an option that is about to be replaced, read from
/// its file's source: none when the source does not parse or does not
/// hold the option.
pub fn old_value_of(source: &str, option_path: &str) -> (r: Option<NixValue>)
    ensures
        match parse_error_of(source@) {
            Some(_) => r is None,
            None => if tree_readable(source@) {
                exists|f: NixFile| f.wf() && f.source@ == source@ && match #[trigger] option_node(f.root, option_path@, source@) {
                    None => r is None,
                    Some(n) => r matches Some(v) && v@ == node_value(n, source@),
                }
            } else {
                r is None
            },
        },
{
    match parse_string(source) {
        Ok(f) => match find_option(&f, option_path) {
            Some(n) => {
                let v = n.to_nix_value();
                assert(option_node(f.root, option_path@, source@) is Some);
                Some(v)
            },
            None => None,
        },
        Err(_) => None,
    }
}

/// Queue a change that sets `option_path` to `value` in the file the
/// resolver chose, at the value's range when the option is set there.
pub fn queue_set(
    pending: &mut PendingChanges,
    option_path: &str,
    resolved: ResolvedOption,
    old_value: Option<NixValue>,
    value: NixValue,
    timestamp: i64,
)
    ensures
        exists|c: PendingChange| {
            &&& c.option_path@ == option_path@
            &&& c.file == resolved.file
            &&& c.old_value == old_value
            &&& c.new_value == value
            &&& c.range == resolved.range
            &&& c.timestamp == timestamp
            &&& final(pending).changes@ == #[trigger] added(old(pending).changes@, c)
        },
{
    let change = PendingChange {
        option_path: String::from_str(option_path),
        file: resolved.file,
        old_value,
        new_value: value,
        range: resolved.range,
        timestamp,
    };
    pending.add(change);
}

/// The error for removing an option that is not set.
pub fn not_set_error(option_path: &str) -> (r: ConfigError)
    ensures
        r matches ConfigError::ParseError(m) && m@ == not_set_message(option_path@),
{
    ConfigError::ParseError(quoted("option '", option_path, "' is not set in the configuration"))
}

/// The source with the option at `option_path` removed (see
/// [`remove_option`]), its failure as a `WriteError`.
pub fn removed_source(source: &str, option_path: &str) -> (r: Result<String, ConfigError>)
    ensures
        match r {
            Ok(s) => removal_result(source@, option_path@, Ok(s)),
            Err(ConfigError::WriteError(e)) => removal_result(source@, option_path@, Err(e)),
            _ => false,
        },
{
    match remove_option(source, option_path) {
        Ok(s) => Ok(s),
        Err(e) => Err(ConfigError::WriteError(e)),
    }
}

} // verus!

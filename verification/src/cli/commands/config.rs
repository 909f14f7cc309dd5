//! Reading and changing a codex setting from the command line.
use vstd::prelude::*;

use crate::text::{chars_of, string_from_chars};

verus! {

/// Reads (`get`) or changes (`set`, a key and a value) a codex setting.
pub struct ConfigCmd {
    pub get: Option<String>,
    pub set: Option<Vec<String>>,
}

/// What a configuration command asks of the codex.
pub enum ConfigRequest {
    Read { key: String },
    Change { key: String, val: String },
}

/// The request a configuration command makes: a read when only `get` is given, a
/// change when only `set` is; both or neither are refused with a message.
pub fn config_request(cmd: &ConfigCmd) -> (r: Result<ConfigRequest, String>)
    requires
        cmd.get is None ==> (cmd.set matches Some(pair) ==> pair.len() >= 2),
    ensures
        match (cmd.get, cmd.set) {
            (Some(k), None) => r matches Ok(ConfigRequest::Read { key }) && key@ == k@,
            (None, Some(pair)) => r matches Ok(ConfigRequest::Change { key, val }) && key@ == pair@[0]@ && val@
                == pair@[1]@,
            (Some(_), Some(_)) => r matches Err(m) && m@ == "cannot do both at the same time!"@,
            (None, None) => r matches Err(m) && m@ == "do atleast one!"@,
        },
{
    match (&cmd.get, &cmd.set) {
        (Some(key), None) => Ok(ConfigRequest::Read { key: key.clone() }),
        (None, Some(pair)) => Ok(ConfigRequest::Change { key: pair[0].clone(), val: pair[1].clone() }),
        (Some(_), Some(_)) => Err(string_from_chars(&chars_of("cannot do both at the same time!"))),
        (None, None) => Err(string_from_chars(&chars_of("do atleast one!"))),
    }
}

/// What is printed for a setting that was read: its value, or an empty line.
pub fn got_config_line(value: &Option<String>) -> (s: String)
    ensures
        match value {
            Some(v) => s@ == v@,
            None => s@.len() == 0,
        },
{
    match value {
        Some(v) => v.clone(),
        None => String::new(),
    }
}

/// The line printed once a setting was changed.
pub fn changed_config_line(key: &str, val: &str) -> (s: String)
    ensures
        s@ == "successfully changed "@ + key@ + " => "@ + val@,
{
    let mut s = string_from_chars(&chars_of("successfully changed "));
    s.push_str(key);
    s.push_str(" => ");
    s.push_str(val);
    s
}

/// The failure reported when a setting could not be changed.
pub fn set_failure_message(message: &str) -> (s: String)
    ensures
        s@ == "could not set the key: "@ + message@,
{
    let mut s = string_from_chars(&chars_of("could not set the key: "));
    s.push_str(message);
    s
}

} // verus!

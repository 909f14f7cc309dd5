//! Creating a codex.
use vstd::prelude::*;

use crate::text::{chars_eq, chars_of, string_from_chars};

verus! {

/// Creates a codex in a folder, with the given versions.
pub struct CreateCmd {
    pub path: Option<String>,
    pub name: Option<String>,
    pub codex_version: String,
    pub storage_version: String,
    pub sqlitestore_version: String,
}

/// The sub-folder in which the codex is created under the chosen path: the given
/// name, unless it is absent or `.`, in which case the path itself is used.
pub fn codex_folder_name(name: &Option<String>) -> (r: Option<String>)
    ensures
        match name {
            Some(n) => if n@ == "."@ { r is None } else { r matches Some(m) && m@ == n@ },
            None => r is None,
        },
{
    match name {
        Some(n) => {
            if chars_eq(&chars_of(n.as_str()), &chars_of(".")) {
                None
            } else {
                Some(string_from_chars(&chars_of(n.as_str())))
            }
        },
        None => None,
    }
}

/// The line printed once a codex is created.
pub fn created_message(id: &str, name: &str) -> (s: String)
    ensures
        s@ == "Codex created id: "@ + id@ + ", name: "@ + name@,
{
    let mut s = string_from_chars(&chars_of("Codex created id: "));
    s.push_str(id);
    s.push_str(", name: ");
    s.push_str(name);
    s
}

} // verus!

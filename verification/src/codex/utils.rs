//! Small helpers around codex versions.
use vstd::prelude::*;

use crate::codex::versions::{codex_version_named, CodexVersion};
use crate::text::{chars_of, string_from_chars};

verus! {

/// The text of `s` as Rust's `Debug` prints a string: in double quotes, with quotes,
/// backslashes and unprintable characters escaped.
pub uninterp spec fn debug_text(s: Seq<char>) -> Seq<char>;

/// `format!("{:?}", s)`: the `Debug` text of the string `s`, which depends on its
/// characters alone. How each character is escaped is left to the name `debug_text`.
#[verifier::external_body]
fn debug_quoted(s: &str) -> (r: String)
    ensures
        r@ == debug_text(s@),
{
    format!("{:?}", s)
}

/// The codex version named `version`; when there is none, the failure reads
/// `version not found ` followed by the name in `Debug` quotes.
pub fn version_error(version: &str) -> (r: Result<CodexVersion, String>)
    ensures
        match codex_version_named(version@) {
            Some(v) => r == Ok::<CodexVersion, String>(v),
            None => r matches Err(m) && m@ == "version not found "@ + debug_text(version@),
        },
{
    match CodexVersion::parse(version) {
        Some(v) => Ok(v),
        None => {
            let mut m = string_from_chars(&chars_of("version not found "));
            let q = debug_quoted(version);
            m.push_str(q.as_str());
            Err(m)
        },
    }
}

} // verus!

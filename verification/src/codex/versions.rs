//! Versions of the codex layout.
use vstd::prelude::*;

use crate::storage::sqlite_version::{sqlite_version_name, SqliteStoreVersion};
use crate::storage::versions::{storage_version_name, StorageVersion};
use crate::text::{chars_eq, chars_of, string_from_chars};

verus! {

/// A version of the codex layout.
#[derive(Debug, Clone, Copy, PartialEq, Eq, Structural)]
pub enum CodexVersion {
    V1,
    V2,
}

/// The codex version named by `s`, if any.
pub open spec fn codex_version_named(s: Seq<char>) -> Option<CodexVersion> {
    if s == "v1.0.0"@ {
        Some(CodexVersion::V1)
    } else if s == "v2.0.0"@ {
        Some(CodexVersion::V2)
    } else {
        None
    }
}

/// The name of a codex version.
pub open spec fn codex_version_name(v: CodexVersion) -> Seq<char> {
    match v {
        CodexVersion::V1 => "v1.0.0"@,
        CodexVersion::V2 => "v2.0.0"@,
    }
}

impl CodexVersion {
    /// The version named `version`, if any.
    pub fn parse(version: &str) -> (r: Option<Self>)
        ensures
            r == codex_version_named(version@),
    {
        let v = chars_of(version);
        if chars_eq(&v, &chars_of("v1.0.0")) {
            Some(CodexVersion::V1)
        } else if chars_eq(&v, &chars_of("v2.0.0")) {
            Some(CodexVersion::V2)
        } else {
            None
        }
    }

    /// The name of the version.
    pub fn as_str(&self) -> (s: &'static str)
        ensures
            s@ == codex_version_name(*self),
    {
        match self {
            CodexVersion::V1 => "v1.0.0",
            CodexVersion::V2 => "v2.0.0",
        }
    }
}

/// A codex version is found again from its name.
pub proof fn law_codex_version_roundtrip(v: CodexVersion)
    ensures
        codex_version_named(codex_version_name(v)) == Some(v),
{
    reveal_strlit("v1.0.0");
    reveal_strlit("v2.0.0");
    assert("v1.0.0"@[1] != "v2.0.0"@[1]);
}

/// A name that parses is the name of the version it gives.
pub proof fn law_codex_version_names(s: Seq<char>)
    ensures
        codex_version_named(s) matches Some(v) ==> codex_version_name(v) == s,
{
}

/// The layout of codex version 1.
pub struct CodexV1;

/// The text of the configuration file of a new codex.
pub open spec fn first_content(
    codex_name: Seq<char>,
    generated_id: Seq<char>,
    version: Seq<char>,
    storage_version: Seq<char>,
    sqlite_version: Seq<char>,
    created_time: Seq<char>,
) -> Seq<char> {
    "[identity]\nid=\""@ + generated_id + "\"\nname=\""@ + codex_name + "\"\n[version]\ncodex=\""@ + version
        + "\"\nstorage=\""@ + storage_version + "\"\nstorage_sqlite=\""@ + sqlite_version
        + "\"\ncreated_at=\""@ + created_time + "\""@
}

/// `chrono::Local::now().to_string()`: the local time, as text. It depends on the
/// clock and the time zone, so nothing is claimed of it.
#[verifier::external_body]
fn local_time_text() -> (s: String) {
    chrono::Local::now().to_string()
}

impl CodexV1 {
    /// The version this layout implements.
    pub fn version(&self) -> (v: CodexVersion)
        ensures
            v == CodexVersion::V1,
    {
        CodexVersion::V1
    }

    /// The storage versions this layout works with.
    pub fn supported_storage(&self) -> (v: Vec<StorageVersion>)
        ensures
            v@ == seq![StorageVersion::V1],
    {
        vec![StorageVersion::V1]
    }

    /// The text of the configuration file of a new codex, created at the local time
    /// `created_time`.
    pub fn codex_content(
        &self,
        codex_name: &str,
        generated_id: &str,
        storage_version: StorageVersion,
        sqlite_version: SqliteStoreVersion,
        created_time: &str,
    ) -> (s: String)
        ensures
            s@ == first_content(
                codex_name@,
                generated_id@,
                codex_version_name(CodexVersion::V1),
                storage_version_name(storage_version),
                sqlite_version_name(sqlite_version),
                created_time@,
            ),
    {
        let version = self.version().as_str();
        let mut s = string_from_chars(&chars_of("[identity]\nid=\""));
        s.push_str(generated_id);
        s.push_str("\"\nname=\"");
        s.push_str(codex_name);
        s.push_str("\"\n[version]\ncodex=\"");
        s.push_str(version);
        s.push_str("\"\nstorage=\"");
        s.push_str(storage_version.as_str());
        s.push_str("\"\nstorage_sqlite=\"");
        s.push_str(sqlite_version.as_str());
        s.push_str("\"\ncreated_at=\"");
        s.push_str(created_time);
        s.push_str("\"");
        s
    }

    /// The text of the configuration file of a new codex, created now.
    pub fn first_codex_content(
        &self,
        codex_name: &str,
        generated_id: &str,
        storage_version: StorageVersion,
        sqlite_version: SqliteStoreVersion,
    ) -> (s: String)
        ensures
            exists|t: Seq<char>|
                s@ == #[trigger] first_content(
                    codex_name@,
                    generated_id@,
                    codex_version_name(CodexVersion::V1),
                    storage_version_name(storage_version),
                    sqlite_version_name(sqlite_version),
                    t,
                ),
    {
        let created_time = local_time_text();
        self.codex_content(codex_name, generated_id, storage_version, sqlite_version, created_time.as_str())
    }
}

/// The layout of a codex version; both versions are laid out as version 1.
pub fn layout_for(version: CodexVersion) -> (l: CodexV1)
    ensures
        l == CodexV1,
{
    match version {
        CodexVersion::V1 => CodexV1,
        CodexVersion::V2 => CodexV1,
    }
}

} // verus!

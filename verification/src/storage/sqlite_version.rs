//! Versions of the database schema, and the rows it stores.
use vstd::prelude::*;

use crate::text::{chars_eq, chars_of};

verus! {

/// A version of the database schema.
#[derive(Debug, Clone, Copy, PartialEq, Eq, Structural)]
pub enum SqliteStoreVersion {
    V1,
}

/// The schema version named by `s`, if any.
pub open spec fn sqlite_version_named(s: Seq<char>) -> Option<SqliteStoreVersion> {
    if s == "v1"@ {
        Some(SqliteStoreVersion::V1)
    } else {
        None
    }
}

/// The name of a schema version.
pub open spec fn sqlite_version_name(v: SqliteStoreVersion) -> Seq<char> {
    match v {
        SqliteStoreVersion::V1 => "v1"@,
    }
}

impl SqliteStoreVersion {
    /// The newest schema version.
    pub fn latest() -> (v: Self)
        ensures
            v == SqliteStoreVersion::V1,
    {
        SqliteStoreVersion::V1
    }

    /// The version named `version`, if any.
    pub fn parse(version: &str) -> (r: Option<Self>)
        ensures
            r == sqlite_version_named(version@),
    {
        if chars_eq(&chars_of(version), &chars_of("v1")) {
            Some(SqliteStoreVersion::V1)
        } else {
            None
        }
    }

    /// The name of the version.
    pub fn as_str(&self) -> (s: &'static str)
        ensures
            s@ == sqlite_version_name(*self),
    {
        match self {
            SqliteStoreVersion::V1 => "v1",
        }
    }
}

/// A schema version is found again from its name.
pub proof fn law_sqlite_version_roundtrip(v: SqliteStoreVersion)
    ensures
        sqlite_version_named(sqlite_version_name(v)) == Some(v),
{
}

/// A name that parses is the name of the version it gives.
pub proof fn law_sqlite_version_names(s: Seq<char>)
    ensures
        sqlite_version_named(s) matches Some(v) ==> sqlite_version_name(v) == s,
{
}

/// Schema version 1.
pub struct SQLITESTOREV1;

impl SQLITESTOREV1 {
    /// The version this schema implements.
    pub fn version(&self) -> (v: SqliteStoreVersion)
        ensures
            v == SqliteStoreVersion::V1,
    {
        SqliteStoreVersion::V1
    }
}

/// A file as the database records it.
pub struct FileInSQL {
    pub id: String,
    pub name: String,
    pub hash: String,
    pub extension: String,
    pub created_at: Option<String>,
    pub modified_at: Option<String>,
    pub indexed_at: Option<String>,
    pub embedded_at: Option<String>,
}

/// The versions a codex database was made with.
pub struct Info {
    pub codex_version: String,
    pub storage_version: String,
    pub sqlite_version: String,
}

/// A table whose column is stamped with the time of each update of a row.
pub struct TriggerTables {
    pub table_name: String,
    pub col: String,
}

/// A stored chunk of a document.
pub struct ChunksSql {
    pub id: String,
    pub doc_id: String,
    pub start_char: usize,
    pub end_char: usize,
}

} // verus!

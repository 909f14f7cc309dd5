//! Versions of the file storage layout.
use vstd::prelude::*;

use crate::text::{chars_eq, chars_of};

verus! {

/// A version of the file storage layout.
#[derive(Debug, Clone, Copy, PartialEq, Eq, Structural)]
pub enum StorageVersion {
    V1,
}

/// The storage version named by `s`, if any.
pub open spec fn storage_version_named(s: Seq<char>) -> Option<StorageVersion> {
    if s == "v1"@ {
        Some(StorageVersion::V1)
    } else {
        None
    }
}

/// The name of a storage version.
pub open spec fn storage_version_name(v: StorageVersion) -> Seq<char> {
    match v {
        StorageVersion::V1 => "v1"@,
    }
}

impl StorageVersion {
    /// The version named `version`, if any.
    pub fn parse(version: &str) -> (r: Option<StorageVersion>)
        ensures
            r == storage_version_named(version@),
    {
        if chars_eq(&chars_of(version), &chars_of("v1")) {
            Some(StorageVersion::V1)
        } else {
            None
        }
    }

    /// The name of the version.
    pub fn as_str(&self) -> (s: &'static str)
        ensures
            s@ == storage_version_name(*self),
    {
        match self {
            StorageVersion::V1 => "v1",
        }
    }
}

/// A storage version is found again from its name.
pub proof fn law_storage_version_roundtrip(v: StorageVersion)
    ensures
        storage_version_named(storage_version_name(v)) == Some(v),
{
}

/// A name that parses is the name of the version it gives.
pub proof fn law_storage_version_names(s: Seq<char>)
    ensures
        storage_version_named(s) matches Some(v) ==> storage_version_name(v) == s,
{
}

/// The layout of storage version 1: a data, a database and an index folder.
pub struct StorageV1;

impl StorageV1 {
    /// The version this layout implements.
    pub fn version(&self) -> (v: StorageVersion)
        ensures
            v == StorageVersion::V1,
    {
        StorageVersion::V1
    }

    /// The folders of this layout, under the codex root.
    pub fn all_folders(&self) -> (f: [&'static str; 3])
        ensures
            f@[0]@ == "data"@,
            f@[1]@ == "database"@,
            f@[2]@ == "indexed"@,
    {
        ["data", "database", "indexed"]
    }
}

/// The layout of the given storage version.
pub fn load_storageversion(version: &StorageVersion) -> (l: StorageV1)
    ensures
        l.version_spec() == *version,
{
    match version {
        StorageVersion::V1 => StorageV1,
    }
}

impl StorageV1 {
    /// The version a layout value implements.
    pub open spec fn version_spec(&self) -> StorageVersion {
        StorageVersion::V1
    }
}

} // verus!

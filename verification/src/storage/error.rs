//! Failures of the storage layer.
use vstd::prelude::*;

use crate::text::string_from_chars;
use crate::text::chars_of;

verus! {

/// A failure of the storage layer.
#[derive(Debug, PartialEq, Eq)]
pub enum StorageError {
    NotFound(String),
    Corrupt(String),
    Permission(String),
    InvalidFileId(String),
    Io(String),
    AssertionFail(String),
    SqliteError(SqliteError),
}

/// A failure of the database layer.
#[derive(Debug, PartialEq, Eq)]
pub enum SqliteError {
    DeleteFail(String),
    Corrupt(String),
    OpenFail(String),
    NotFound(String),
    InvalidQuery(String),
    AssertionFail(String),
    CreateFail(String),
    LockPoisoned,
}

/// The message carried by a storage error other than a database error.
pub open spec fn storage_message(e: StorageError) -> Seq<char> {
    match e {
        StorageError::NotFound(v) => v@,
        StorageError::Corrupt(v) => v@,
        StorageError::Permission(v) => v@,
        StorageError::InvalidFileId(v) => v@,
        StorageError::AssertionFail(v) => v@,
        StorageError::Io(_) => "io error"@,
        StorageError::SqliteError(_) => Seq::empty(),
    }
}

/// The message carried by a database error.
pub open spec fn sqlite_message(e: SqliteError) -> Seq<char> {
    match e {
        SqliteError::DeleteFail(v) => v@,
        SqliteError::Corrupt(v) => v@,
        SqliteError::OpenFail(v) => v@,
        SqliteError::NotFound(v) => v@,
        SqliteError::InvalidQuery(v) => v@,
        SqliteError::AssertionFail(v) => v@,
        SqliteError::CreateFail(v) => v@,
        SqliteError::LockPoisoned => "Mutex lock poisoned"@,
    }
}

/// A string holding `prefix` followed by `rest`.
fn concat_str(prefix: &str, rest: &str) -> (s: String)
    ensures
        s@ == prefix@ + rest@,
{
    let mut s = string_from_chars(&chars_of(prefix));
    s.push_str(rest);
    s
}

impl StorageError {
    /// The message of the error. A database error has none of its own: asking it for its
    /// message asks again forever, so it is not asked.
    pub fn message(&self) -> (m: &str)
        requires
            !(self is SqliteError),
        ensures
            m@ == storage_message(*self),
    {
        match self {
            StorageError::NotFound(v) => v.as_str(),
            StorageError::Corrupt(v) => v.as_str(),
            StorageError::Permission(v) => v.as_str(),
            StorageError::InvalidFileId(v) => v.as_str(),
            StorageError::AssertionFail(v) => v.as_str(),
            StorageError::Io(_) => "io error",
            StorageError::SqliteError(_) => "",
        }
    }

    /// Whether the error means the storage is damaged.
    pub fn is_fatal(&self) -> (b: bool)
        ensures
            b == (*self is Corrupt),
    {
        match self {
            StorageError::Corrupt(_) => true,
            _ => false,
        }
    }

    /// `file not found: <id>`.
    pub fn not_found(file_id: &str) -> (e: Self)
        ensures
            e matches StorageError::NotFound(m) && m@ == "file not found: "@ + file_id@,
    {
        StorageError::NotFound(concat_str("file not found: ", file_id))
    }

    /// `file corrupted: <id>`, reported as not found.
    pub fn corrupt(file_id: &str) -> (e: Self)
        ensures
            e matches StorageError::NotFound(m) && m@ == "file corrupted: "@ + file_id@,
    {
        StorageError::NotFound(concat_str("file corrupted: ", file_id))
    }

    /// `permission denied: <id>`, reported as not found.
    pub fn permission(file_id: &str) -> (e: Self)
        ensures
            e matches StorageError::NotFound(m) && m@ == "permission denied: "@ + file_id@,
    {
        StorageError::NotFound(concat_str("permission denied: ", file_id))
    }

    /// `file not found: <id>`, for an identifier that names no file.
    pub fn invalid_file_id(file_id: &str) -> (e: Self)
        ensures
            e matches StorageError::NotFound(m) && m@ == "file not found: "@ + file_id@,
    {
        StorageError::NotFound(concat_str("file not found: ", file_id))
    }

    /// A failed storage assertion with the given text.
    pub fn assertion_fail(args: &str) -> (e: Self)
        ensures
            e matches StorageError::AssertionFail(m) && m@ == args@,
    {
        StorageError::AssertionFail(string_from_chars(&chars_of(args)))
    }
}

impl SqliteError {
    /// The message of the error.
    pub fn message(&self) -> (m: &str)
        ensures
            m@ == sqlite_message(*self),
    {
        match self {
            SqliteError::DeleteFail(v) => v.as_str(),
            SqliteError::Corrupt(v) => v.as_str(),
            SqliteError::OpenFail(v) => v.as_str(),
            SqliteError::NotFound(v) => v.as_str(),
            SqliteError::InvalidQuery(v) => v.as_str(),
            SqliteError::AssertionFail(v) => v.as_str(),
            SqliteError::CreateFail(v) => v.as_str(),
            SqliteError::LockPoisoned => "Mutex lock poisoned",
        }
    }
}

impl SqliteError {
    /// A copy of the error.
    pub fn duplicate(&self) -> (r: Self)
        ensures
            r == *self,
    {
        match self {
            SqliteError::DeleteFail(v) => SqliteError::DeleteFail(v.clone()),
            SqliteError::Corrupt(v) => SqliteError::Corrupt(v.clone()),
            SqliteError::OpenFail(v) => SqliteError::OpenFail(v.clone()),
            SqliteError::NotFound(v) => SqliteError::NotFound(v.clone()),
            SqliteError::InvalidQuery(v) => SqliteError::InvalidQuery(v.clone()),
            SqliteError::AssertionFail(v) => SqliteError::AssertionFail(v.clone()),
            SqliteError::CreateFail(v) => SqliteError::CreateFail(v.clone()),
            SqliteError::LockPoisoned => SqliteError::LockPoisoned,
        }
    }
}

impl StorageError {
    /// A copy of the error.
    pub fn duplicate(&self) -> (r: Self)
        ensures
            r == *self,
    {
        match self {
            StorageError::NotFound(v) => StorageError::NotFound(v.clone()),
            StorageError::Corrupt(v) => StorageError::Corrupt(v.clone()),
            StorageError::Permission(v) => StorageError::Permission(v.clone()),
            StorageError::InvalidFileId(v) => StorageError::InvalidFileId(v.clone()),
            StorageError::Io(v) => StorageError::Io(v.clone()),
            StorageError::AssertionFail(v) => StorageError::AssertionFail(v.clone()),
            StorageError::SqliteError(e) => StorageError::SqliteError(e.duplicate()),
        }
    }
}

impl From<SqliteError> for StorageError {
    fn from(err: SqliteError) -> (e: Self) {
        StorageError::SqliteError(err)
    }
}

impl vstd::std_specs::convert::FromSpecImpl<SqliteError> for StorageError {
    open spec fn obeys_from_spec() -> bool {
        true
    }

    open spec fn from_spec(err: SqliteError) -> StorageError {
        StorageError::SqliteError(err)
    }
}

} // verus!

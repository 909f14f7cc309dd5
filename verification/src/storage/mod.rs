//! Where a codex keeps its files, and how its storage reports failures.
pub mod clusters;
pub mod error;
pub mod schema;
pub mod sqlite_version;
pub mod storage_types;
pub mod sync;
pub mod utils;
pub mod versions;

use vstd::prelude::*;

verus! {

/// The configuration file at the root of a codex.
pub const CODEX_FILE: &'static str = "codex.toml";
/// The folder that holds the files added to a codex.
pub const DATA_FOLDER: &'static str = "data";
/// The folder that holds index data.
pub const INDEXED_FOLDER: &'static str = "indexed";
/// The folder that holds the databases.
pub const DATABASE_FOLDER: &'static str = "database";
/// The cache database.
pub const CACHE_DB: &'static str = "cache.sqlite";
/// The main database.
pub const CODEX_DB: &'static str = "codex.sqlite";

} // verus!

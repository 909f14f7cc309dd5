//! A codex: a folder of files with its configuration, storage and database.
pub mod codex_config;
pub mod config_access;
pub mod utils;
pub mod versions;

use vstd::prelude::*;

verus! {

/// The default size of the blocks in which files are written.
pub const DEFAULT_CHUNK_SIZE: usize = 512;
/// The default size of the blocks in which files are read.
pub const DEFAULT_READ_CHUNK_SIZE: usize = 512;

} // verus!

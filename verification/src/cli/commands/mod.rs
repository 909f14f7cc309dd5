//! The commands of the command line, and the text they print.
pub mod ask;
pub mod cluster;
pub mod codex;
pub mod config;
pub mod create;
pub mod search;

use vstd::prelude::*;

use crate::text::str_len;
use crate::views::tabular_view::{col_width, Column};

verus! {

/// Adds a file to the codex, optionally under a name.
pub struct AddFile {
    pub file: String,
    pub name: Option<String>,
}

/// Synchronises the codex with its data folder, silently or reporting each step.
pub struct SyncCodex {
    pub silent: bool,
}

/// Deletes a file from the codex; `conformation` skips the question.
pub struct DeleteFile {
    pub file: String,
    pub conformation: bool,
}

/// Lists the files of the codex, with their clusters unless `no_cluster`.
pub struct ListFile {
    pub no_cluster: bool,
}

/// A table column headed `text`, whose width is known to fit in a `usize`.
pub fn heading(text: &str) -> (c: Column)
    ensures
        c.text@ == text@,
        c.spacing == 0,
        col_width(c) <= usize::MAX,
{
    let _ = str_len(text);
    Column::new(text)
}

} // verus!

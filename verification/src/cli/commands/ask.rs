//! Asking the codex a question.
use vstd::prelude::*;

use crate::cli::SearchMode;

verus! {

/// Asks a question of the codex.
pub struct AskCmd {
    pub query: String,
    pub ignore_case: bool,
    pub top_k: usize,
    pub mode: SearchMode,
}

} // verus!

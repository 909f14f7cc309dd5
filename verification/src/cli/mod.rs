//! The command line: its commands and what they print.
pub mod commands;

use vstd::prelude::*;

verus! {

/// How a question is searched for.
pub enum SearchMode {
    Lexical,
    Semantic,
    Hybrid,
}

} // verus!

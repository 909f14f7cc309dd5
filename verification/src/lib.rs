//! Aetherium: a local knowledge engine. This crate holds its text processing,
//! rendering and bookkeeping logic, each piece with a verified contract.

pub mod text;
pub mod views;
pub mod codex;
pub mod cli;
pub mod tfidf;
pub mod storage;
pub mod identifiers;
pub mod ml_server;

use vstd::prelude::*;

use crate::text::{chars_of, string_from_chars};

verus! {

/// A failure to read the configuration of the machine-learning server.
pub enum ConfigError {
    NoDirsFound,
    Corrupt(String),
}

/// The message of a configuration failure.
pub open spec fn config_error_message(e: ConfigError) -> Seq<char> {
    match e {
        ConfigError::NoDirsFound => "config dir not found"@,
        ConfigError::Corrupt(v) => "codex is corrupted: "@ + v@,
    }
}

impl ConfigError {
    /// The message of the failure.
    pub fn message(&self) -> (m: String)
        ensures
            m@ == config_error_message(*self),
    {
        match self {
            ConfigError::NoDirsFound => string_from_chars(&chars_of("config dir not found")),
            ConfigError::Corrupt(v) => {
                let mut m = string_from_chars(&chars_of("codex is corrupted: "));
                m.push_str(v.as_str());
                m
            },
        }
    }
}

} // verus!

//! The codex commands, and what they print while the engine works.
use vstd::prelude::*;

use crate::cli::commands::cluster::ClusterCmd;
use crate::cli::commands::search::SearchCmd;
use crate::cli::commands::{AddFile, DeleteFile, ListFile, SyncCodex};
use crate::text::{chars_of, decimal, string_from_chars, usize_to_string};
use crate::tfidf::tokenizer::strs;

verus! {

/// A command on the codex of the current folder.
pub enum CodexCmd {
    Add(AddFile),
    Delete(DeleteFile),
    Sync(SyncCodex),
    ListFiles(ListFile),
    Cluster(ClusterCmd),
    Search(SearchCmd),
}

/// A step of a synchronisation, as the engine reports it.
pub enum SyncProgress {
    FileAdded { id: String, name: String },
    FileRemoved { id: String },
    FileUpdated { id: String },
    DimsMISMATCH { previous: u32, proposed: u32 },
    DimsChanged { previous: u32, now: u32 },
    Embedding { file_id: String },
    Done { added: usize, removed: usize, updated: usize },
}

/// An event the engine reports while it works.
pub enum EngineEvent {
    OperationStarted,
    OperationFinished,
    Clustering,
    MLUnavailable,
    Sync(SyncProgress),
}

/// The lines printed for an event of a synchronisation.
pub open spec fn sync_lines(e: EngineEvent) -> Seq<Seq<char>> {
    match e {
        EngineEvent::Sync(SyncProgress::FileAdded { id, name }) => seq![" + Added File = "@ + id@ + " | "@ + name@],
        EngineEvent::Sync(SyncProgress::FileRemoved { id }) => seq![" - Removed File = "@ + id@],
        EngineEvent::Sync(SyncProgress::FileUpdated { id }) => seq![" * File Updated = "@ + id@],
        EngineEvent::Sync(SyncProgress::DimsMISMATCH { previous, proposed }) => seq![
            "@# DIMS mismatch found; current: "@ + decimal(previous as nat) + ", given: "@ + decimal(proposed as nat)
                + "; reseting table"@,
        ],
        EngineEvent::Sync(SyncProgress::DimsChanged { .. }) => seq!["@# Embedding Table Has Been Reset"@],
        EngineEvent::MLUnavailable => seq![
            "ML Server is unavailable currently... run 'aetherium ml-server start'"@,
            "Embedding wont be performed... run 'aetherium codex sync after starting ml-server'"@,
        ],
        EngineEvent::Sync(SyncProgress::Embedding { file_id }) => seq![" [...] embedding file = "@ + file_id@],
        EngineEvent::Sync(SyncProgress::Done { added, removed, updated }) => seq![
            "Files Synced: \nAdded: "@ + decimal(added as nat) + " \nRemoved: "@ + decimal(removed as nat)
                + " \nUpdated: "@ + decimal(updated as nat),
        ],
        _ => Seq::empty(),
    }
}

/// A string holding `a` followed by `b`.
fn cat(a: &str, b: &str) -> (s: String)
    ensures
        s@ == a@ + b@,
{
    let mut s = string_from_chars(&chars_of(a));
    s.push_str(b);
    s
}

/// The lines printed for an event of a synchronisation; other events print nothing.
pub fn sync_event_lines(e: &EngineEvent) -> (v: Vec<String>)
    ensures
        strs(v@) == sync_lines(*e),
{
    let mut v: Vec<String> = Vec::new();
    match e {
        EngineEvent::Sync(SyncProgress::FileAdded { id, name }) => {
            let mut s = cat(" + Added File = ", id.as_str());
            s.push_str(" | ");
            s.push_str(name.as_str());
            v.push(s);
        },
        EngineEvent::Sync(SyncProgress::FileRemoved { id }) => {
            v.push(cat(" - Removed File = ", id.as_str()));
        },
        EngineEvent::Sync(SyncProgress::FileUpdated { id }) => {
            v.push(cat(" * File Updated = ", id.as_str()));
        },
        EngineEvent::Sync(SyncProgress::DimsMISMATCH { previous, proposed }) => {
            let mut s = cat("@# DIMS mismatch found; current: ", usize_to_string(*previous as usize).as_str());
            s.push_str(", given: ");
            s.push_str(usize_to_string(*proposed as usize).as_str());
            s.push_str("; reseting table");
            v.push(s);
        },
        EngineEvent::Sync(SyncProgress::DimsChanged { .. }) => {
            v.push(string_from_chars(&chars_of("@# Embedding Table Has Been Reset")));
        },
        EngineEvent::MLUnavailable => {
            v.push(string_from_chars(&chars_of("ML Server is unavailable currently... run 'aetherium ml-server start'")));
            v.push(
                string_from_chars(
                    &chars_of("Embedding wont be performed... run 'aetherium codex sync after starting ml-server'"),
                ),
            );
        },
        EngineEvent::Sync(SyncProgress::Embedding { file_id }) => {
            v.push(cat(" [...] embedding file = ", file_id.as_str()));
        },
        EngineEvent::Sync(SyncProgress::Done { added, removed, updated }) => {
            let mut s = cat("Files Synced: \nAdded: ", usize_to_string(*added).as_str());
            s.push_str(" \nRemoved: ");
            s.push_str(usize_to_string(*removed).as_str());
            s.push_str(" \nUpdated: ");
            s.push_str(usize_to_string(*updated).as_str());
            v.push(s);
        },
        _ => {},
    }
    v
}

/// The line printed when the engine starts to add `file`, named `name` if a name
/// was given.
pub fn adding_file_line(file: &str, name: &Option<String>) -> (s: String)
    ensures
        s@ == " -> Adding File "@ + file@ + " ("@ + match name {
            Some(n) => n@,
            None => "#Not Specified#"@,
        } + ")"@,
{
    let mut s = cat(" -> Adding File ", file);
    s.push_str(" (");
    match name {
        Some(n) => s.push_str(n.as_str()),
        None => s.push_str("#Not Specified#"),
    }
    s.push_str(")");
    s
}

/// The line printed once a file is added.
pub fn added_file_line(file_id: &str, hash: &str) -> (s: String)
    ensures
        s@ == "Added File "@ + file_id@ + " \n hash: "@ + hash@,
{
    let mut s = cat("Added File ", file_id);
    s.push_str(" \n hash: ");
    s.push_str(hash);
    s
}

/// The line printed once a file is deleted.
pub fn deleted_file_line(file_id: &str) -> (s: String)
    ensures
        s@ == "file deleted "@ + file_id@,
{
    cat("file deleted ", file_id)
}

} // verus!

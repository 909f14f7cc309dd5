//! Files as the storage layer sees them, and the steps of a synchronisation.
use vstd::prelude::*;

verus! {

/// A file in the data folder of a codex.
pub struct FileInSystem {
    pub id: String,
    pub extention: String,
    pub modified_at: String,
}

/// A step reported while the database of a codex is brought in line with its files.
pub enum SyncEvent {
    DimsMISMATCH { previous: u32, proposed: u32 },
    DIMSChanged { previous: u32, now: u32 },
    FileRemoved { id: String },
    FileEmbeddingPending { id: String },
    FileAdded { id: String, name: String },
    FileUpdated { id: String },
    Done { added: usize, removed: usize, updated: usize },
}

} // verus!

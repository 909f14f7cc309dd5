//! The chunks of a document that are embedded.
use vstd::prelude::*;

verus! {

/// A chunk of a document: its id, its document, its index in the document and the
/// characters it spans.
pub struct Chunk {
    pub chunk_id: String,
    pub doc_id: String,
    pub chunk_index: usize,
    pub start_char: usize,
    pub end_char: usize,
}

} // verus!

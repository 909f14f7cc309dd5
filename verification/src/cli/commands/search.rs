//! Searching the codex from the command line, and the cards of the results.
use vstd::prelude::*;

use crate::text::{chars_of, str_len, string_from_chars};
use crate::views::config::MetaDataCellConfig;
use crate::views::content_viewer::{default_meta_config, MetaDataCell};

verus! {

/// How the codex is searched.
pub enum SearchMode {
    Lexical,
    Semantic,
    Mix,
}

/// The name of a search mode, as the engine takes it.
pub open spec fn search_mode_name(m: SearchMode) -> Seq<char> {
    match m {
        SearchMode::Lexical => "lexical"@,
        SearchMode::Semantic => "semantic"@,
        SearchMode::Mix => "mix"@,
    }
}

impl SearchMode {
    /// The name of the mode, as the engine takes it.
    pub fn as_str(&self) -> (s: String)
        ensures
            s@ == search_mode_name(*self),
    {
        match self {
            SearchMode::Lexical => string_from_chars(&chars_of("lexical")),
            SearchMode::Semantic => string_from_chars(&chars_of("semantic")),
            SearchMode::Mix => string_from_chars(&chars_of("mix")),
        }
    }
}

/// Searches the codex of the current folder.
pub struct SearchCmd {
    pub query: String,
    pub files: Option<String>,
    pub top_k: usize,
    pub mode: SearchMode,
}

/// A search result: the chunk found, where it comes from, its distance as text, and
/// the text of the chunk.
pub struct SearchHit {
    pub file_name: String,
    pub file_id: String,
    pub cluster: Option<String>,
    pub chunk_id: String,
    pub distance: String,
    pub text: String,
}

/// The settings of a metadata column at most `max_letters` wide, otherwise default.
pub open spec fn meta_config_with(max_letters: usize) -> MetaDataCellConfig {
    MetaDataCellConfig { max_letters, ..default_meta_config() }
}

/// The default settings of a metadata column, with its width set to `max_letters`.
pub fn meta_config_of_width(max_letters: usize) -> (c: MetaDataCellConfig)
    ensures
        c == meta_config_with(max_letters),
{
    let mut c = MetaDataCellConfig::default();
    c.max_letters = max_letters;
    c
}

/// The card of a search result is the result's metadata and text.
pub open spec fn hit_card(h: SearchHit, card: (MetaDataCell, Vec<String>)) -> bool {
    &&& card.0.title@ == h.file_name@
    &&& card.0.sub_title@ == h.file_id@
    &&& card.0.tags@.len() == 1
    &&& card.0.tags@[0]@ == match h.cluster {
        Some(c) => c@,
        None => "Not Clustered Yet"@,
    }
    &&& card.0.additional_description matches Some(d) && d@ == "Chunk id "@ + h.chunk_id@ + " Distance id "@
        + h.distance@
    &&& card.0.config == meta_config_with(crate::text::byte_len(h.file_id@) as usize)
    &&& card.1@.len() == 1
    &&& card.1@[0]@ == h.text@
}

/// The cards that show the results of a search, one per result, in order.
pub fn search_contents(hits: &Vec<SearchHit>) -> (v: Vec<(MetaDataCell, Vec<String>)>)
    ensures
        v.len() == hits.len(),
        forall|k: int| 0 <= k < hits.len() ==> hit_card(#[trigger] hits@[k], v@[k]),
{
    let mut v: Vec<(MetaDataCell, Vec<String>)> = Vec::new();
    let mut i: usize = 0;
    while i < hits.len()
        invariant
            i <= hits.len(),
            v.len() == i,
            forall|k: int| 0 <= k < i ==> hit_card(#[trigger] hits@[k], v@[k]),
        decreases hits.len() - i,
    {
        let h = &hits[i];
        let tag = match &h.cluster {
            Some(c) => c.clone(),
            None => string_from_chars(&chars_of("Not Clustered Yet")),
        };
        let mut note = string_from_chars(&chars_of("Chunk id "));
        note.push_str(h.chunk_id.as_str());
        note.push_str(" Distance id ");
        note.push_str(h.distance.as_str());
        let width = str_len(h.file_id.as_str());
        let meta = MetaDataCell::new(
            h.file_name.as_str(),
            h.file_id.as_str(),
            vec![tag],
            Some(note),
            Some(meta_config_of_width(width)),
        );
        let card = (meta, vec![h.text.clone()]);
        v.push(card);
        i = i + 1;
    }
    v
}

} // verus!

//! Terminal rendering: column tables and content cards.
pub mod card_lines;
pub mod config;
pub mod content_viewer;
pub mod tabular_view;
pub mod types;
pub mod utils;

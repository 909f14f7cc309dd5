//! Settings of the machine-learning server that embeds and clusters documents.
pub mod config;

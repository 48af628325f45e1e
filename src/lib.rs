//! Search and ranking core of a desktop quick-launcher: match scoring,
//! arithmetic expression parsing, file and application snapshots, and the
//! merging of all sources into one ranked result list.

pub mod text;
pub mod scoring;
pub mod commands;
pub mod calc;
pub mod indexer;
pub mod file_index;
pub mod launch;
pub mod contacts;
pub mod icons;
pub mod settings;

//! Verified core of a Bear-notes exporter: configuration, the note model,
//! markdown rendering, the filename manifest, change detection and the
//! decisions of a sync cycle.
pub mod cli;
pub mod config;
pub mod db;
pub mod errors;
pub mod export;
pub mod git;
pub mod text;
pub mod watcher;

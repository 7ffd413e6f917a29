use vstd::prelude::*;

verus! {

/// Everything that can go wrong while syncing. Failures reported by outside
/// libraries (SQLite, git, the file system, the watcher, JSON) are carried as
/// their messages.
#[derive(Debug)]
pub enum DenoteError {
    DbNotFound(String),
    DbRead(String),
    Git(String),
    Config(String),
    Export { id: String, reason: String },
    Io(String),
    Watch(String),
    Json(String),
}

} // verus!

//! The command line: its commands and options, and the log filter they select.
use vstd::prelude::*;

verus! {

/// The options of the `denote` command.
#[derive(Debug)]
pub struct Cli {
    pub command: Command,
    /// Path to config file
    pub config: Option<String>,
    /// Enable debug logging
    pub verbose: bool,
    /// Suppress all output except errors
    pub quiet: bool,
}

/// The subcommands.
#[derive(Debug)]
pub enum Command {
    /// Initialize a new denote repo and write default config
    Init { repo: String, remote: Option<String> },
    /// One-shot: export changed notes, commit, and push
    Sync,
    /// Continuous: monitor Bear's DB and sync on changes
    Watch,
    /// Show last sync time, note count, and repo state
    Status,
}

/// The log filter for the options: errors only when quiet, else debug or
/// info for this program.
pub fn log_filter(verbose: bool, quiet: bool) -> (r: String)
    ensures
        r@ == (if quiet {
            "error"@
        } else if verbose {
            "denote=debug"@
        } else {
            "denote=info"@
        }),
{
    if quiet {
        "error".to_owned()
    } else if verbose {
        "denote=debug".to_owned()
    } else {
        "denote=info".to_owned()
    }
}

} // verus!

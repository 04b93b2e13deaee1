//! The parameters of one run, as the command line gives them.
use vstd::prelude::*;

verus! {

/// The parameters of one run.
pub struct Cli {
    /// SSH user name.
    pub user: String,
    /// SSH host name or address.
    pub host: String,
    pub command: Command,
    pub verbose: bool,
    /// Application ids to leave alone.
    pub ignore: Vec<String>,
}

/// What a run does.
pub enum Command {
    /// Upload a snapshot of each wanted application's save tree.
    Save { game_id: Option<String>, exclude_patterns: Vec<String> },
    /// Restore one snapshot of each wanted application.
    Load { latest: bool, game_id: Option<String>, hide_sizes: bool },
}

} // verus!

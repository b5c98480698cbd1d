use vstd::prelude::*;

verus! {

/// Command-line options.
#[derive(Clone, Debug)]
pub struct Cli {
    /// Maximum number of commits to load.
    pub limit: usize,
    /// Load the history and draw one frame off-screen, then exit.
    pub dry_run: bool,
}

/// Number of commits loaded when no limit is given.
pub const DEFAULT_LIMIT: usize = 200;

} // verus!

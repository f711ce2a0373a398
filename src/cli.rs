//! The commands the program accepts.
use vstd::prelude::*;

verus! {

/// Parsed command line.
#[derive(Debug, Clone)]
pub struct Cli {
    pub command: Option<Commands>,
    /// Spread identical creation dates one second apart.
    pub one_sec: bool,
}

/// The program's commands.
#[derive(Debug, Clone)]
pub enum Commands {
    /// Apply or erase metadata interactively.
    Run,
    /// Manage cameras, lenses, films, photographers and setups.
    Manage,
    /// Show the metadata of one file.
    Read { file: String, json: bool },
}

} // verus!

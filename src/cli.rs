//! The commands of the command line, as the library sees them. Parsing the
//! arguments is left to the program.

use vstd::prelude::*;

verus! {

/// The available commands and their options.
pub enum Commands {
    /// Search the given directories (or all of the home directory) for
    /// untracked repositories, and track them
    Scan { dirs: Vec<String>, all: bool, no_hidden: bool },
    /// Print the tracked repositories
    List,
    /// Track the given repositories
    Add { repos: Vec<String> },
    /// Stop tracking the given repositories (or all of them)
    Rm { repos: Vec<String>, all: bool },
    /// Inspect the given repositories (or all tracked ones)
    Check { repos: Vec<String>, all: bool },
    /// Print the path of the tracked repository with the given name
    Cd { repo: String },
    /// Install the shell function that changes to a tracked repository
    EnableCd,
}

/// A parsed command line.
pub struct Cli {
    command: Commands,
}

impl Cli {
    /// The command that the command line holds.
    pub closed spec fn command_spec(&self) -> Commands {
        self.command
    }

    /// A command line that holds `command`.
    pub fn new(command: Commands) -> (r: Cli)
        ensures
            r.command_spec() == command,
    {
        Cli { command }
    }

    /// The command to run.
    pub fn get_command(&self) -> (r: &Commands)
        ensures
            *r == self.command_spec(),
    {
        &self.command
    }
}

} // verus!

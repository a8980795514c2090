//! The command-line surface, as plain data: the commands and the
//! sources they act on.  Argument parsing itself lives outside the
//! library.

use vstd::prelude::*;

verus! {

/// The parsed command line.
pub struct Cli {
    pub command: Command,
}

/// The commands the tool offers.
pub enum Command {
    /// Fetch the information on one or more citation items.
    Fetch { from: Vec<Source> },
    /// Pull the files related to the given citation items.
    Pull { from: Vec<Source> },
}

/// Where citation items come from: a single identifier, or a
/// bibliography file treated as a list of identifiers.
pub enum Source {
    Identifier(String),
    File(String),
}

} // verus!

//! The command-line surface of the tool, as plain data.
//!
//! Parsing the real command line happens outside the verified library; it
//! hands over one of these values.

use vstd::prelude::*;

verus! {

/// The parsed command line.
pub struct Args {
    /// Subcommand.
    pub command: SubCommands,
}

/// One subcommand of the tool.
pub enum SubCommands {
    /// List services.
    List(SubCommandList),
    /// Tail service logs.
    Log(SubCommandLog),
    /// Get service status.
    Status(SubCommandStatus),
    /// Enable services.
    Enable { services: Vec<String> },
    /// Disable services.
    Disable { services: Vec<String> },
}

/// Options of the list subcommand.
pub struct SubCommandList {
    /// Show all services, including disabled ones.
    pub all: bool,
    /// Show only services with a contract.
    pub contract: bool,
    /// Show the process tree for services with a contract.
    pub tree: bool,
    /// Sort output based on the given fields.
    pub sort: Vec<ListSortItems>,
    /// String to filter services on.
    pub filter: Option<String>,
}

/// Options of the status subcommand.
pub struct SubCommandStatus {
    /// Show more output, including multiline values.
    pub long: bool,
    /// Services to process.
    pub services: Vec<String>,
}

/// Options of the log subcommand.
pub struct SubCommandLog {
    /// Follow the log file.
    pub follow: bool,
    /// Number of lines to view.
    pub number: Option<u32>,
    /// Services to process.
    pub services: Vec<String>,
}

/// A field the list subcommand can sort by.
#[derive(Clone, Copy, PartialEq, Eq, Structural, Debug)]
pub enum ListSortItems {
    /// Sort by service identifier.
    Fmri,
    /// Sort by service state.
    State,
    /// Sort by start time.
    Time,
    /// Sort by contract id.
    Contract,
}

} // verus!

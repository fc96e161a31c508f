//! The command surface of the tool: one record per invocation, dispatched by
//! the thin shell around the library.

use vstd::prelude::*;

verus! {

/// A full invocation: the chosen subcommand.
pub struct Opt {
    pub cmd: Command,
}

/// One subcommand of the tool.
pub enum Command {
    /// Add one identity to the roster of available co-authors.
    Add { alias: String, name: String, email: String },
    /// List available and active co-authors.
    Ls,
    /// Print the active co-authors as commit-message trailers.
    Print,
    /// Remove all active co-authors.
    Reset,
    /// Make the roster members with these aliases the active co-authors.
    SetActive { aliases: Vec<String> },
}

} // verus!

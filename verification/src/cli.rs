//! Command-line surface: the commands the tool accepts, as plain data.
//! The argument parsing itself is an external collaborator's concern.

use vstd::prelude::*;

verus! {

/// One invocation of the tool.
#[derive(Debug)]
pub struct Cli {
    pub command: Commands,
}

/// The subcommands the tool accepts.
#[derive(Debug)]
pub enum Commands {
    /// Create a new project from templates.
    New { name: String, ai: Option<String> },
    /// Resume execution from the last failed step.
    Resume,
    /// Show the current project's execution state.
    Status,
    /// List all available templates.
    List,
    /// Search the template registry by keyword.
    Search { query: String },
    /// Add a community template from a git repository.
    Add { url: String },
    /// Update cached community templates.
    Update,
    /// Configure tool settings.
    Config { target: String, show: bool },
}

} // verus!

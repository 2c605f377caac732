//! The commands the tool understands, as plain data.

use vstd::prelude::*;

verus! {

/// A parsed command line.
#[derive(Debug, PartialEq, Eq)]
pub struct Cli {
    pub command: Commands,
}

/// One invocation of the tool.
#[derive(Debug, PartialEq, Eq)]
pub enum Commands {
    /// Bootstrap a new workspace, named after the directory unless given.
    Init { name: Option<String>, python: String },
    /// Scaffold a new package or app.
    Create { kind: CreateKind },
    /// Add a workspace package as a dependency of an app or package.
    Add { package: String, to: String },
    /// Print a workspace overview.
    Info,
    /// Print the dependency list, or the graph's adjacency.
    Deps { graph: bool },
    /// Validate the workspace.
    Check,
    /// Show the bricks changed since a reference.
    Diff { since: Option<String> },
    /// Run tests: of one brick, of the changed bricks, or of all.
    Test { changed: bool, name: Option<String>, extra: Vec<String> },
    /// Build an app.
    Build { app: String },
    /// Run an app.
    Run { app: String, extra: Vec<String> },
    /// Regenerate the root project manifest.
    Sync,
}

/// What `create` scaffolds.
#[derive(Debug, PartialEq, Eq)]
pub enum CreateKind {
    Package { name: String },
    App { name: String },
}

} // verus!

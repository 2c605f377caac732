//! The library's error type.

use vstd::prelude::*;

verus! {

/// What went wrong in a workspace operation.
#[derive(Debug, PartialEq, Eq)]
pub enum PascalError {
    /// No workspace manifest in the working directory or any parent.
    WorkspaceNotFound,
    /// A workspace manifest already exists at the given place.
    WorkspaceExists(String),
    /// No package or app of that name.
    BrickNotFound(String),
    /// A package or app of that name already exists.
    BrickExists(String),
    /// The dependency graph has a cycle.
    CircularDependency(String),
    /// The name holds characters other than letters, digits, `_` and `-`.
    InvalidName(String),
    /// Any other failure, described in words.
    Other(String),
}

} // verus!

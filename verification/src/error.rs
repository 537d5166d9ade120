//! The ways in which an operation of the synchronizer can end without success.

use vstd::prelude::*;

verus! {

/// Why an operation stopped.
#[derive(Clone, Copy, Debug, PartialEq, Eq, Structural)]
pub enum SyncError {
    /// The command line does not name what the command needs.
    Usage,
    /// The project descriptor already exists, so there is nothing to initialize.
    AlreadyInitialized,
    /// No project descriptor was found.
    ConfigMissing,
    /// The project descriptor holds no remote root.
    ConfigMalformed,
    /// The path given to `add` does not exist.
    PathNotFound,
    /// The path is already under version control, or already listed.
    AlreadyTracked,
    /// The path is not one that the descriptor lists.
    NotTracked,
    /// The user declined to let one side win the conflicts.
    ConflictAbort,
}

} // verus!

//! The ways in which an operation on the workspace can fail.

use vstd::prelude::*;

verus! {

/// Why an operation was refused or could not be carried out.
#[derive(Clone, Copy, Debug, PartialEq, Eq, Structural)]
pub enum Error {
    /// A directory could not be read, created or found out.
    DirectoryUnavailable,
    /// A path does not exist, or is not of the kind that was expected.
    NotFound,
    /// An argument is blank or is no well-formed path.
    InvalidArgument,
    /// A move would put the entry where it already is.
    SourceEqualsDestination,
    /// A folder would be moved into itself or into one of its descendants.
    SelfContainment,
    /// Reading, writing or renaming failed in the file system.
    IoFailure,
}

} // verus!

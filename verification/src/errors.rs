//! The error kinds an operation can fail with.

use vstd::prelude::*;

verus! {

/// Why an operation was refused: the name is unknown, the name is already
/// taken, the container is in the wrong lifecycle state for the request,
/// the filesystem could not be read or written, or a persisted record is
/// corrupt.
#[derive(Clone, Copy, Debug, PartialEq, Eq, Structural)]
pub enum DockError {
    NotFound,
    AlreadyExists,
    InvalidState,
    Io,
    Parse,
}

impl DockError {
    /// A short description of the error kind.
    pub open spec fn spec_message(self) -> Seq<char> {
        match self {
            DockError::NotFound => "container not found"@,
            DockError::AlreadyExists => "container already exists"@,
            DockError::InvalidState => "invalid container state"@,
            DockError::Io => "filesystem access failure"@,
            DockError::Parse => "corrupt container config"@,
        }
    }

    pub fn message(&self) -> (r: &'static str)
        ensures
            r@ == self.spec_message(),
    {
        match self {
            DockError::NotFound => "container not found",
            DockError::AlreadyExists => "container already exists",
            DockError::InvalidState => "invalid container state",
            DockError::Io => "filesystem access failure",
            DockError::Parse => "corrupt container config",
        }
    }
}

} // verus!

//! Errors of the session commands. Each carries the OS-level message that
//! caused it; an unknown session id is never an error.
use vstd::prelude::*;

verus! {

/// Why a session command failed.
pub enum PtyError {
    /// The OS could not create the pseudo-terminal.
    Allocation(String),
    /// The child process could not be started on the terminal.
    Spawn(String),
    /// Writing input to a live session failed (for example, a broken pipe).
    Write(String),
    /// The OS refused to resize the terminal.
    Resize(String),
}

impl PtyError {
    /// The OS-level message that this error carries.
    pub open spec fn detail(&self) -> Seq<char> {
        match self {
            PtyError::Allocation(m) => m@,
            PtyError::Spawn(m) => m@,
            PtyError::Write(m) => m@,
            PtyError::Resize(m) => m@,
        }
    }

    /// The human-readable message reported to the caller of the command.
    pub fn message(&self) -> (r: String)
        ensures
            r@ == self.detail(),
    {
        match self {
            PtyError::Allocation(m) => m.clone(),
            PtyError::Spawn(m) => m.clone(),
            PtyError::Write(m) => m.clone(),
            PtyError::Resize(m) => m.clone(),
        }
    }
}

} // verus!

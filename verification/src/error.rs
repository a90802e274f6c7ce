//! The ways an edit or a history step is turned down.

use vstd::prelude::*;

verus! {

/// Why an operation left the document as it was.
#[derive(Clone, Copy, Debug, PartialEq, Eq, Structural)]
pub enum CommandError {
    /// An offset or a length reaches past the bounds of the document.
    OutOfRange,
    /// Undo or redo was asked for with nothing on the stack to act on.
    EmptyHistory,
    /// A recorded command no longer fits the document it is applied to.
    ApplyFailed,
}

impl CommandError {
    /// A short description for logs and messages.
    pub fn message(&self) -> (s: String)
        ensures
            s@ == match *self {
                CommandError::OutOfRange => "offset or length out of range"@,
                CommandError::EmptyHistory => "nothing to undo or redo"@,
                CommandError::ApplyFailed => "command could not be applied"@,
            },
    {
        match self {
            CommandError::OutOfRange => "offset or length out of range".to_owned(),
            CommandError::EmptyHistory => "nothing to undo or redo".to_owned(),
            CommandError::ApplyFailed => "command could not be applied".to_owned(),
        }
    }
}

} // verus!

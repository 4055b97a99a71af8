//! The ways in which an operation can fail.

use vstd::prelude::*;
use vstd::string::StringExecFns;

verus! {

#[derive(Debug, Clone)]
pub enum CommandError {
    /// The store rejected a statement; carries the store's own message.
    StorageFailure(String),
    /// A lookup that must find one row found none.
    NotFound,
    /// An argument was malformed and nothing was sent to the store.
    InvalidArgument,
}

impl CommandError {
    /// The text shown to the caller for this error.
    pub open spec fn message_text(self) -> Seq<char> {
        match self {
            CommandError::StorageFailure(m) => m@,
            CommandError::NotFound => "Pomodoro settings not found"@,
            CommandError::InvalidArgument => "Invalid argument: limit must not be negative"@,
        }
    }

    /// Renders the error as the text that is handed back to the caller.
    pub fn message(&self) -> (r: String)
        ensures
            r@ == self.message_text(),
    {
        match self {
            CommandError::StorageFailure(m) => m.clone(),
            CommandError::NotFound => String::from_str("Pomodoro settings not found"),
            CommandError::InvalidArgument => String::from_str(
                "Invalid argument: limit must not be negative",
            ),
        }
    }
}

} // verus!

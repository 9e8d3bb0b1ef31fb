//! The error that the script server reports when a script cannot be run.

use vstd::prelude::*;

verus! {

/// A failure with a message for the client.
#[derive(Debug)]
pub struct Error {
    pub message: String,
}

impl Error {
    /// An error carrying `message`.
    pub fn new(message: String) -> (e: Error)
        ensures
            e.message == message,
    {
        Error { message }
    }
}

/// The result of a step of the script server.
pub type Result<T> = core::result::Result<T, Error>;

} // verus!

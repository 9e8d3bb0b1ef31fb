//! The error of the configuration store and of the web server.

use vstd::prelude::*;

verus! {

/// A failure with a human-readable message.
#[derive(Debug)]
pub struct Error {
    pub message: String,
}

impl Error {
    /// An error carrying `message`.
    pub fn new(message: String) -> (e: Error)
        ensures
            e.message == message,
    {
        Error { message }
    }
}

/// An error whose message holds exactly the characters of `text`.
pub fn error_from_str(text: &str) -> (e: Error)
    ensures
        e.message@ == text@,
{
    Error::new(text.to_owned())
}

} // verus!

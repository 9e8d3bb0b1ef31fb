//! What a client sends and receives: the function it calls with its token,
//! and the status and body it gets back.

use vstd::prelude::*;

verus! {

/// A request for a function of the server.
pub struct Request {
    pub token: String,
    pub function: String,
}

/// A reply to a client: status code and body text.
pub struct Response {
    pub status_code: i32,
    pub body: String,
}

} // verus!

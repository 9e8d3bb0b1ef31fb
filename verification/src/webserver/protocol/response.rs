//! The status of a reply.

use vstd::prelude::*;

verus! {

/// Whether a request succeeded.
#[derive(Debug, Clone, Copy, PartialEq, Eq, Structural)]
pub enum StatusCode {
    OK,
    Error,
}

} // verus!

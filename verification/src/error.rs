//! The ways in which an operation of the polling service can fail.

use vstd::prelude::*;

verus! {

/// Why an operation did not produce its result.
#[derive(Debug, Clone, Copy, PartialEq, Eq, Structural)]
pub enum PollError {
    /// Every candidate key that the attempt limit allowed was already in use.
    KeySpaceExhausted,
    /// The store did not give a usable answer to a request.
    StoreUnavailable,
    /// No live question set is stored under the requested root key.
    NotFound,
    /// A stored value does not have the shape that its key calls for.
    MalformedPayload,
}

} // verus!

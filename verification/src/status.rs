//! What the server answers where it has no page and no note to give.
use vstd::prelude::*;

verus! {

/// The HTTP status of an answer.
#[derive(Clone, Copy, Debug, PartialEq, Eq, Structural)]
pub enum Status {
    NoContent,
    BadRequest,
    MethodNotAllowed,
    InternalServerError,
}

} // verus!

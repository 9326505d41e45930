//! The three-variant result of a handler invocation.

use vstd::prelude::*;
use crate::data::Data;
use crate::response::Response;

verus! {

/// What a handler did with a request: produced a response, failed with a
/// status, or declined and handed the body back so the next candidate route
/// may try.
pub enum Outcome {
    Success(Response),
    Failure(u16),
    Forward(Data),
}

} // verus!

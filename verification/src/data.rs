//! The request body: a lazily-consumed byte source plus an eagerly-buffered
//! peek prefix.
//!
//! Only the peek prefix is visible to the core; the rest of the body is an
//! opaque stream capability that handlers consume or forward. Forwarding a
//! body hands the identical value on to the next candidate route.

use vstd::prelude::*;

verus! {

/// How many peek bytes preprocessing may inspect at most.
pub const PEEK_WINDOW: usize = 14;

/// A request body.
pub struct Data {
    /// The eagerly-buffered prefix of the body.
    pub peek: Vec<u8>,
    /// An opaque capability reference to the lazily-consumed remainder.
    pub stream: u64,
}

impl Data {
    pub fn new(peek: Vec<u8>, stream: u64) -> (r: Data)
        ensures
            r.peek == peek,
            r.stream == stream,
    {
        Data { peek, stream }
    }
}

} // verus!

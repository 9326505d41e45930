//! The response transmission adapter: a finalized response becomes
//! transport-level output in two phases, because status and headers must go
//! out before all body bytes exist.
//!
//! Phase one announces the metadata: status, headers, and the content
//! length where one is known. Phase two streams the body: a sized body is
//! pre-cut here into fixed-size chunks whose concatenation is exactly the
//! body; a streamed body stays a capability plus a chunk size, pulled until
//! exhaustion by the caller. A one-shot handoff of the metadata, and the
//! transport writes themselves, are the caller's business.

use vstd::prelude::*;
use crate::http::Header;
use crate::response::{Response, Body, content_length};

verus! {

/// The chunk size sized bodies are cut into.
pub const CHUNK_SIZE: usize = 4096;

/// What phase one announces.
pub struct ResponseMetadata {
    pub status: u16,
    pub headers: Vec<Header>,
    /// The announced content length; `None` for a body of unknown length.
    pub content_length: Option<u64>,
}

/// What phase two streams.
pub enum BodyPlan {
    /// Nothing follows the metadata.
    NoBytes,
    /// The body's bytes, cut into transmission chunks, in order.
    Chunks(Vec<Vec<u8>>),
    /// A byte-source capability to pull from in chunks of the given size.
    Pull { stream: u64, chunk_size: u64 },
}

/// The concatenation of a sequence of byte chunks.
pub open spec fn concat_of(s: Seq<Vec<u8>>) -> Seq<u8>
    decreases s.len(),
{
    if s.len() == 0 {
        Seq::empty()
    } else {
        concat_of(s.drop_last()) + s.last()@
    }
}

/// Cuts bytes into chunks of exactly `chunk` bytes, a shorter final chunk
/// excepted; their concatenation is the input, and no chunk is empty.
pub fn chunk_bytes(bytes: &Vec<u8>, chunk: usize) -> (r: Vec<Vec<u8>>)
    requires
        chunk > 0,
    ensures
        concat_of(r@) == bytes@,
        forall|i: int| 0 <= i < r@.len() ==> 0 < (#[trigger] r@[i])@.len() <= chunk,
        forall|i: int| 0 <= i < r@.len() - 1 ==> (#[trigger] r@[i])@.len() == chunk,
        bytes@.len() == 0 ==> r@.len() == 0,
    {
    let mut out: Vec<Vec<u8>> = Vec::new();
    let mut pos: usize = 0;
    while pos < bytes.len()
        invariant
            pos <= bytes@.len(),
            concat_of(out@) == bytes@.take(pos as int),
            chunk > 0,
            forall|i: int| 0 <= i < out@.len() ==> 0 < (#[trigger] out@[i])@.len() <= chunk,
            forall|i: int| 0 <= i < out@.len() ==> (#[trigger] out@[i])@.len() == chunk,
        decreases bytes@.len() - pos,
    {
        let end: usize = if bytes.len() - pos > chunk {
            pos + chunk
        } else {
            bytes.len()
        };
        let piece = vstd::slice::slice_to_vec(&bytes.as_slice()[pos..end]);
        let ghost prev = out@;
        out.push(piece);
        proof {
            assert(out@.drop_last() =~= prev);
            assert(concat_of(out@) =~= bytes@.take(pos as int) + bytes@.subrange(
                pos as int,
                end as int,
            ));
            assert(concat_of(out@) =~= bytes@.take(end as int));
        }
        if end == bytes.len() {
            proof {
                assert(bytes@.take(bytes@.len() as int) =~= bytes@);
                assert forall|i: int| 0 <= i < out@.len() - 1 implies (#[trigger] out@[i])@.len()
                    == chunk by {
                    assert(out@[i] == prev[i]);
                }
            }
            return out;
        }
        pos = end;
    }
    proof {
        assert(bytes@.take(pos as int) =~= bytes@);
    }
    out
}

/// Phase one, and the plan for phase two: the metadata announces the
/// response's status, its headers, and the exact content length of an
/// empty, sized or stripped body — none for a stream; the body bytes of a
/// sized body are cut into chunks, while an absent or stripped body sends
/// nothing at all.
pub fn transmission_plan(resp: Response) -> (r: (ResponseMetadata, BodyPlan))
    ensures
        r.0.status == resp.status,
        r.0.headers == resp.headers,
        r.0.content_length == content_length(resp.body),
        match resp.body {
            Body::Empty => r.1 is NoBytes,
            Body::Sized(bytes) => r.1 matches BodyPlan::Chunks(cs) && concat_of(cs@) == bytes@
                && (forall|i: int|
                0 <= i < cs@.len() ==> 0 < (#[trigger] cs@[i])@.len() <= CHUNK_SIZE),
            Body::Stream(stream, chunk_size) => r.1 == (BodyPlan::Pull { stream, chunk_size }),
            Body::Stripped(_) => r.1 is NoBytes,
        },
{
    let Response { status, headers, body } = resp;
    match body {
        Body::Empty => {
            let meta = ResponseMetadata { status, headers, content_length: Some(0) };
            (meta, BodyPlan::NoBytes)
        },
        Body::Sized(bytes) => {
            let len = bytes.len() as u64;
            let chunks = chunk_bytes(&bytes, CHUNK_SIZE);
            let meta = ResponseMetadata { status, headers, content_length: Some(len) };
            (meta, BodyPlan::Chunks(chunks))
        },
        Body::Stream(stream, chunk_size) => {
            let meta = ResponseMetadata { status, headers, content_length: None };
            (meta, BodyPlan::Pull { stream, chunk_size })
        },
        Body::Stripped(len) => {
            let meta = ResponseMetadata { status, headers, content_length: len };
            (meta, BodyPlan::NoBytes)
        },
    }
}

} // verus!

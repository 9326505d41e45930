//! Responses: a status, a header set, and an optional body.

use vstd::prelude::*;
use crate::http::{Header, headers_contain, name_eq, name_eq_exec};

verus! {

/// A response body. A sized body's length is known up front; a streamed
/// body is transmitted in bounded chunks until exhaustion. A stripped body
/// remembers the length that would have been announced, so that a `HEAD`
/// response keeps the content length its `GET` counterpart would declare.
pub enum Body {
    /// No body at all: zero content length.
    Empty,
    /// A body of known bytes.
    Sized(Vec<u8>),
    /// A streamed body: an opaque capability reference to the byte source,
    /// and the chunk size to transmit in.
    Stream(u64, u64),
    /// A body removed after the fact; the announced content length, if one
    /// was known, is preserved.
    Stripped(Option<u64>),
}

/// The content length a body announces: `None` for a body of unknown
/// length.
pub open spec fn content_length(b: Body) -> Option<u64> {
    match b {
        Body::Empty => Some(0u64),
        Body::Sized(bytes) => Some(bytes@.len() as u64),
        Body::Stream(_, _) => None,
        Body::Stripped(len) => len,
    }
}

/// What stripping does to a body: the bytes go, the announced length stays.
pub open spec fn stripped(b: Body) -> Body {
    match b {
        Body::Empty => Body::Empty,
        Body::Sized(bytes) => Body::Stripped(Some(bytes@.len() as u64)),
        Body::Stream(_, _) => Body::Stripped(None),
        Body::Stripped(len) => Body::Stripped(len),
    }
}

/// A response.
pub struct Response {
    pub status: u16,
    pub headers: Vec<Header>,
    pub body: Body,
}

impl Response {
    pub fn new(status: u16, headers: Vec<Header>, body: Body) -> (r: Response)
        ensures
            r.status == status,
            r.headers == headers,
            r.body == body,
    {
        Response { status, headers, body }
    }

    /// Appends a header, keeping any existing ones of the same name.
    pub fn adjoin_header(&mut self, h: Header)
        ensures
            final(self).status == old(self).status,
            final(self).body == old(self).body,
            final(self).headers@ == old(self).headers@.push(h),
    {
        self.headers.push(h);
    }

    /// Appends a header only if none of that name is present yet.
    pub fn ensure_header(&mut self, h: Header)
        ensures
            final(self).status == old(self).status,
            final(self).body == old(self).body,
            headers_contain(old(self).headers@, h.name@) ==> final(self).headers@ == old(
                self,
            ).headers@,
            !headers_contain(old(self).headers@, h.name@) ==> final(self).headers@ == old(
                self,
            ).headers@.push(h),
    {
        let mut present = false;
        let mut i: usize = 0;
        while i < self.headers.len()
            invariant
                *self == *old(self),
                i <= self.headers@.len(),
                present == exists|j: int|
                    0 <= j < i && name_eq(#[trigger] self.headers@[j].name@, h.name@),
            decreases self.headers@.len() - i,
        {
            if name_eq_exec(self.headers[i].name.as_str(), h.name.as_str()) {
                present = true;
            }
            i += 1;
        }
        if !present {
            self.headers.push(h);
        }
    }

    /// Strips the body: the bytes are dropped, the announced content length
    /// — and every header — stays as it was.
    pub fn strip_body(&mut self)
        ensures
            final(self).status == old(self).status,
            final(self).headers == old(self).headers,
            final(self).body == stripped(old(self).body),
    {
        let len: Option<u64> = match &self.body {
            Body::Empty => {
                return ;
            },
            Body::Sized(bytes) => Some(bytes.len() as u64),
            Body::Stream(_, _) => None,
            Body::Stripped(l) => *l,
        };
        self.body = Body::Stripped(len);
    }
}

} // verus!

//! Requests, as dispatch sees them: an already-parsed method, URI, headers
//! and peer address, a matched-route slot, and a cookie jar.
//!
//! During one dispatch only the matched-route slot, the method (rewritten
//! by preprocessing and by `HEAD` auto-handling) and the cookie delta are
//! mutated; everything else is read-only after arrival.

use vstd::prelude::*;
use crate::http::{Method, Header, find_header, name_eq, starts_with, str_starts_with};
use crate::uri::Origin;
use crate::cookies::{CookieJar, Cookie};

verus! {

use vstd::string::StrSliceExecFns;

/// Whether a content-type value names a form submission: the form media
/// type, either exactly or followed by parameters.
pub open spec fn is_form_media_type(v: Seq<char>) -> bool {
    let ft = "application/x-www-form-urlencoded"@;
    &&& starts_with(v, ft)
    &&& (v.len() == ft.len() || v[ft.len() as int] == ';')
}

/// Whether the first content-type header of a request names a form
/// submission.
pub open spec fn form_content_type(hs: Seq<Header>) -> bool {
    exists|i: int|
        {
            &&& 0 <= i < hs.len()
            &&& name_eq(#[trigger] hs[i].name@, "Content-Type"@)
            &&& is_form_media_type(hs[i].value@)
            &&& forall|j: int| 0 <= j < i ==> !name_eq(#[trigger] hs[j].name@, "Content-Type"@)
        }
}

/// An incoming request.
pub struct Request {
    pub method: Method,
    pub uri: Origin,
    pub headers: Vec<Header>,
    /// The peer's address and port, if known.
    pub remote: Option<(u32, u16)>,
    /// The matched-route slot: the route table index bound during routing.
    pub route: Option<usize>,
    pub jar: CookieJar,
}

impl Request {
    pub fn new(
        method: Method,
        uri: Origin,
        headers: Vec<Header>,
        remote: Option<(u32, u16)>,
        base_cookies: Vec<Cookie>,
    ) -> (r: Request)
        ensures
            r.method == method,
            r.uri == uri,
            r.headers == headers,
            r.remote == remote,
            r.route is None,
            r.jar.base == base_cookies,
            r.jar.delta@.len() == 0,
    {
        Request {
            method,
            uri,
            headers,
            remote,
            route: None,
            jar: CookieJar::new(base_cookies),
        }
    }

    /// Rewrites the effective method.
    pub fn set_method(&mut self, method: Method)
        ensures
            *final(self) == (Request { method, ..*old(self) }),
    {
        self.method = method;
    }

    /// Binds a candidate route onto the request.
    pub fn set_route(&mut self, route: usize)
        ensures
            *final(self) == (Request { route: Some(route), ..*old(self) }),
    {
        self.route = Some(route);
    }

    /// Whether the request declares a form-submission content type.
    pub fn content_type_is_form(&self) -> (r: bool)
        ensures
            r == form_content_type(self.headers@),
    {
        match find_header(&self.headers, "Content-Type") {
            None => false,
            Some(h) => {
                let ghost wi = choose|i: int|
                    0 <= i < self.headers@.len() && self.headers@[i] == *h && name_eq(
                        self.headers@[i].name@,
                        "Content-Type"@,
                    ) && (forall|j: int|
                        0 <= j < i ==> !name_eq(#[trigger] self.headers@[j].name@, "Content-Type"@));
                let ft = "application/x-www-form-urlencoded";
                let r = if str_starts_with(h.value.as_str(), ft) {
                    if h.value.unicode_len() == ft.unicode_len() {
                        true
                    } else {
                        h.value.get_char(ft.unicode_len()) == ';'
                    }
                } else {
                    false
                };
                proof {
                    assert(r == is_form_media_type(h.value@));
                    if r {
                        assert(form_content_type(self.headers@));
                    } else {
                        if form_content_type(self.headers@) {
                            let i2 = choose|i2: int|
                                {
                                    &&& 0 <= i2 < self.headers@.len()
                                    &&& name_eq(#[trigger] self.headers@[i2].name@, "Content-Type"@)
                                    &&& is_form_media_type(self.headers@[i2].value@)
                                    &&& forall|j: int|
                                        0 <= j < i2 ==> !name_eq(
                                            #[trigger] self.headers@[j].name@,
                                            "Content-Type"@,
                                        )
                                };
                            if i2 < wi {
                                assert(!name_eq(self.headers@[i2].name@, "Content-Type"@));
                            } else if wi < i2 {
                                assert(!name_eq(self.headers@[wi].name@, "Content-Type"@));
                            }
                            assert(i2 == wi);
                            assert(false);
                        }
                    }
                }
                r
            },
        }
    }
}

} // verus!

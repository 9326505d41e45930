//! The per-request dispatch engine: preprocessing, routing with
//! fallthrough, error-catcher fallback, lifecycle hooks, and `HEAD`
//! auto-handling, as an explicit state machine.
//!
//! Handlers, catchers and hooks are outside capabilities; the engine never
//! calls them itself. Each [`Step`] it hands out names the capability to
//! run and carries the values it needs; the caller runs it and hands the
//! result back through the matching `..._done` method, which yields the
//! next step. Ownership of the request and the body travels out with each
//! step and back with each event, so a forwarded body reaches the next
//! candidate route exactly as the declining handler returned it.

use vstd::prelude::*;
use crate::http::{Method, Header, headers_contain, name_eq, find_byte, method_of_name, valid_utf8};
use crate::request::{Request, form_content_type};
use crate::data::Data;
use crate::response::{Response, Body, stripped, content_length};
use crate::outcome::Outcome;
use crate::cookies::{CookieOp, op_header_value};
use crate::router::route_matches;
use crate::catcher::{Catcher, CatcherRef, has_code, default_body, default_response};
use crate::uri::path_view;
use crate::rocket::Manifest;
use crate::ops::{is_request_hook_list, is_response_hook_list};

verus! {

use vstd::string::StringExecFns;

// ------------------------------------------------------------------
// Preprocessing: the method-override form field.
// ------------------------------------------------------------------

/// The reserved form field that overrides a request's method.
pub open spec fn method_key() -> Seq<u8> {
    seq![95u8, 109u8, 101u8, 116u8, 104u8, 111u8, 100u8]
}

/// The value of a `key=value` form item whose key is the reserved field.
pub open spec fn item_value(piece: Seq<u8>) -> Option<Seq<u8>> {
    match find_byte(piece, 61) {
        Some(e) => if piece.take(e) == method_key() {
            Some(piece.skip(e + 1))
        } else {
            None
        },
        None => None,
    }
}

/// The value of the first form item named by the reserved field, scanning
/// `&`-separated items left to right.
pub open spec fn override_value(s: Seq<u8>) -> Option<Seq<u8>>
    decreases s.len(),
{
    match find_byte(s, 38) {
        None => item_value(s),
        Some(k) => if 0 <= k < s.len() {
            match item_value(s.take(k)) {
                Some(v) => Some(v),
                None => override_value(s.skip(k + 1)),
            }
        } else {
            item_value(s)
        },
    }
}

/// The part of the peek prefix preprocessing may look at: at most the
/// length of the longest possible override item.
pub open spec fn window_of(peek: Seq<u8>) -> Seq<u8> {
    if peek.len() <= 14 {
        peek
    } else {
        peek.take(14)
    }
}

/// The method the peek prefix's override field names, if the prefix is
/// long enough to hold one, its window decodes as UTF-8, and the field's
/// value parses as a method name. A window whose byte cut falls inside a
/// multi-byte character does not decode and never rewrites.
pub open spec fn method_override_of(peek: Seq<u8>) -> Option<Method> {
    if peek.len() < 11 {
        None
    } else {
        let w = window_of(peek);
        if !valid_utf8(w) {
            None
        } else {
            match override_value(w) {
                Some(v) => method_of_name(v),
                None => None,
            }
        }
    }
}

/// What preprocessing leaves as the effective method: a `POST` form
/// submission whose buffered prefix names a method is rewritten to it;
/// everything else keeps its method.
pub open spec fn preprocessed_method(m: Method, hs: Seq<Header>, peek: Seq<u8>) -> Method {
    if m == Method::Post && form_content_type(hs) {
        match method_override_of(peek) {
            Some(m2) => m2,
            None => m,
        }
    } else {
        m
    }
}

fn item_value_exec<'a>(piece: &'a [u8]) -> (r: Option<&'a [u8]>)
    ensures
        match r {
            Some(v) => item_value(piece@) == Some(v@),
            None => item_value(piece@) is None,
        },
{
    match crate::http::find_byte_exec(piece, 61) {
        Some(e) => {
            let (key, rest) = piece.split_at(e);
            proof {
                assert(key@ =~= piece@.take(e as int));
            }
            if crate::http::bytes_eq(key, &[95u8, 109u8, 101u8, 116u8, 104u8, 111u8, 100u8]) {
                proof {
                    assert(key@ =~= method_key());
                }
                let (_, v) = rest.split_at(1);
                proof {
                    assert(v@ =~= piece@.skip(e + 1));
                }
                Some(v)
            } else {
                proof {
                    assert(key@ != method_key());
                }
                None
            }
        },
        None => None,
    }
}

fn override_value_exec<'a>(s: &'a [u8]) -> (r: Option<&'a [u8]>)
    ensures
        match r {
            Some(v) => override_value(s@) == Some(v@),
            None => override_value(s@) is None,
        },
    decreases s@.len(),
{
    match crate::http::find_byte_exec(s, 38) {
        None => item_value_exec(s),
        Some(k) => {
            let (piece, rest) = s.split_at(k);
            proof {
                assert(piece@ =~= s@.take(k as int));
            }
            match item_value_exec(piece) {
                Some(v) => Some(v),
                None => {
                    let (_, tail) = rest.split_at(1);
                    proof {
                        assert(tail@ =~= s@.skip(k + 1));
                    }
                    override_value_exec(tail)
                },
            }
        },
    }
}

/// Preprocesses a request against the buffered body prefix: rewrites the
/// effective method where a `POST` form submission carries the reserved
/// override field. Only the peek prefix is inspected, never the stream.
pub fn preprocess(req: &mut Request, data: &Data)
    ensures
        *final(req) == (Request {
            method: preprocessed_method(old(req).method, old(req).headers@, data.peek@),
            ..*old(req)
        }),
{
    if !(req.method == Method::Post) {
        return ;
    }
    if !req.content_type_is_form() {
        return ;
    }
    if data.peek.len() < 11 {
        return ;
    }
    let wlen: usize = if data.peek.len() <= 14 {
        data.peek.len()
    } else {
        14
    };
    let (w, _) = data.peek.as_slice().split_at(wlen);
    proof {
        assert(w@ =~= window_of(data.peek@));
    }
    if !crate::http::valid_utf8_exec(w) {
        return ;
    }
    match override_value_exec(w) {
        Some(v) => {
            match Method::parse(v) {
                Some(m) => {
                    req.set_method(m);
                },
                None => {},
            }
        },
        None => {},
    }
}

// ------------------------------------------------------------------
// Response finalization predicates.
// ------------------------------------------------------------------

/// `post` is `pre` with one `Set-Cookie` header per pending cookie change,
/// in order.
pub open spec fn appended_cookies(pre: Seq<Header>, delta: Seq<CookieOp>, post: Seq<Header>) -> bool {
    &&& post.len() == pre.len() + delta.len()
    &&& post.take(pre.len() as int) == pre
    &&& forall|k: int|
        pre.len() <= k < post.len() ==> (#[trigger] post[k].name)@ == "Set-Cookie"@
            && post[k].value@ == op_header_value(delta[k - pre.len()])
}

/// `post` is `pre` with the identifying `Server` header appended, unless
/// one was already present.
pub open spec fn server_ensured(pre: Seq<Header>, post: Seq<Header>) -> bool {
    if headers_contain(pre, "Server"@) {
        post == pre
    } else {
        &&& post.len() == pre.len() + 1
        &&& post.take(pre.len() as int) == pre
        &&& post[pre.len() as int].name@ == "Server"@
        &&& post[pre.len() as int].value@ == "Rocket"@
    }
}

/// What a body looks like once `HEAD` stripping is accounted for.
pub open spec fn strip_if(was_head: bool, b: Body) -> Body {
    if was_head {
        stripped(b)
    } else {
        b
    }
}

/// `out` is `resp` decorated for transmission: same status and body, the
/// pending cookie changes appended as headers, the `Server` header
/// ensured.
pub open spec fn decorated_response_of(resp: Response, delta: Seq<CookieOp>, out: Response) -> bool {
    &&& out.status == resp.status
    &&& out.body == resp.body
    &&& exists|mid: Seq<Header>|
        appended_cookies(resp.headers@, delta, mid) && server_ensured(mid, #[trigger] out.headers@)
}

/// `out` is `resp` decorated and, for a `HEAD` request, stripped of its
/// body bytes.
pub open spec fn final_response_of(
    resp: Response,
    delta: Seq<CookieOp>,
    was_head: bool,
    out: Response,
) -> bool {
    &&& out.status == resp.status
    &&& out.body == strip_if(was_head, resp.body)
    &&& exists|mid: Seq<Header>|
        appended_cookies(resp.headers@, delta, mid) && server_ensured(mid, #[trigger] out.headers@)
}

/// The response the built-in default catcher for `code` produces.
pub open spec fn is_default_catcher_response(code: u16, r: Response) -> bool {
    &&& r.status == code
    &&& r.headers@.len() == 1
    &&& r.headers@[0].name@ == "Content-Type"@
    &&& r.headers@[0].value@ == "text/plain; charset=utf-8"@
    &&& r.body matches Body::Sized(b) && b@ == default_body(code)
}

/// The code the catcher table serves an error `status` with: the exact
/// code where an entry exists, the last-resort 500 otherwise.
pub open spec fn effective_catcher_code(table: Seq<Catcher>, status: u16) -> u16 {
    if has_code(table, status) {
        status
    } else {
        500u16
    }
}

/// `q` is `orig` with the cookie delta discarded and nothing else
/// touched: what error handling does before invoking a catcher, so that
/// failed paths leak no cookie changes.
pub open spec fn delta_reset_of(q: Request, orig: Request) -> bool {
    &&& q.method == orig.method
    &&& q.uri == orig.uri
    &&& q.headers == orig.headers
    &&& q.remote == orig.remote
    &&& q.route == orig.route
    &&& q.jar.base == orig.jar.base
    &&& q.jar.delta@.len() == 0
}

// ------------------------------------------------------------------
// The machine.
// ------------------------------------------------------------------

/// Which event the machine is waiting for.
#[derive(Clone, Copy, PartialEq, Eq, Structural, Debug)]
pub enum Phase {
    AwaitRequestHook,
    AwaitHandler,
    AwaitCatcher,
    AwaitResponseHook,
    Finished,
}

/// What the caller must do next.
pub enum Step {
    /// Run the on-request hook named by `hook` on the request — it may
    /// read the peek prefix but cannot swap the body out — and hand the
    /// request back through `hook_done`.
    RunRequestHook { hook: u64, request: Request, peek: Vec<u8> },
    /// Run the handler of the bound route with the request and the body,
    /// and hand the outcome back through `handler_done`.
    RunHandler { handler: u64, route: usize, request: Request, data: Data },
    /// Run the user catcher capability for `status` and hand its result
    /// back through `catcher_done`.
    RunCatcher { catcher: u64, status: u16, request: Request },
    /// Run the on-response hook named by `hook` and hand the (possibly
    /// mutated) response back through `response_hook_done`.
    RunResponseHook { hook: u64, request: Request, response: Response },
    /// Dispatch is over; this is the finalized response.
    Done { request: Request, response: Response },
}

/// The dispatch engine's state between steps.
pub struct Dispatch {
    pub phase: Phase,
    /// Whether the effective method was `HEAD` when routing began; the
    /// finalized response's body is stripped if so.
    pub was_head: bool,
    /// Whether the one-shot `HEAD`-to-`GET` retry has been spent.
    pub autohandled: bool,
    pub req_hooks: Vec<usize>,
    pub hook_idx: usize,
    pub matches: Vec<usize>,
    pub match_idx: usize,
    pub resp_hooks: Vec<usize>,
    pub resp_hook_idx: usize,
    /// The body, held while request hooks run.
    pub data: Option<Data>,
}

/// Where the machine and the first candidate stand once routing has been
/// entered with request `q` and body `data`: the highest-precedence
/// matching route is tried first; with no match, a `HEAD` request is
/// retried once as `GET`; with still no match, error handling runs for
/// status 404 on a request whose delta has been reset.
pub open spec fn routing_entry_post<S>(
    d: Dispatch,
    m: Manifest<S>,
    q: Request,
    data: Data,
    s: Step,
) -> bool {
    let path = path_view(q.uri.segments@);
    match s {
        Step::RunHandler { handler, route, request: q2, data: d2 } => {
            &&& d2 == data
            &&& route < m.router@.len()
            &&& handler == m.router@[route as int].handler
            &&& d.phase == Phase::AwaitHandler
            &&& d.match_idx == 0
            &&& d.was_head == (q.method == Method::Head)
            &&& if !d.autohandled {
                &&& q2 == (Request { route: Some(route), ..q })
                &&& route_matches(&m.router@[route as int], q.method, path)
                &&& forall|i: int|
                    0 <= i < route ==> !route_matches(&m.router@[i], q.method, path)
            } else {
                &&& q.method == Method::Head
                &&& q2 == (Request { route: Some(route), method: Method::Get, ..q })
                &&& (forall|i: int|
                    0 <= i < m.router@.len() ==> !route_matches(&m.router@[i], Method::Head, path))
                &&& route_matches(&m.router@[route as int], Method::Get, path)
                &&& forall|i: int|
                    0 <= i < route ==> !route_matches(&m.router@[i], Method::Get, path)
            }
        },
        _ => {
            let qf = if q.method == Method::Head {
                Request { method: Method::Get, ..q }
            } else {
                q
            };
            &&& d.was_head == (q.method == Method::Head)
            &&& (q.method == Method::Head ==> d.autohandled)
            &&& (forall|i: int|
                0 <= i < m.router@.len() ==> !route_matches(&m.router@[i], qf.method, path))
            &&& (q.method == Method::Head ==> forall|i: int|
                0 <= i < m.router@.len() ==> !route_matches(&m.router@[i], Method::Head, path))
            &&& error_post(d, m, qf, 404, s)
        },
    }
}

/// Where the machine stands once error handling has run for `status` on
/// `request`: the cookie delta is discarded first, then the catcher for
/// the effective code is chosen — a user capability is handed out to run,
/// while a built-in default catcher's response is produced at once and
/// finalized.
pub open spec fn error_post<S>(
    d: Dispatch,
    m: Manifest<S>,
    request: Request,
    status: u16,
    s: Step,
) -> bool {
    let code = effective_catcher_code(m.catchers@, status);
    match s {
        Step::RunCatcher { catcher, status: st, request: q } => {
            &&& st == status
            &&& delta_reset_of(q, request)
            &&& exists|e: Catcher|
                #[trigger] m.catchers@.contains(e) && e.code == code && e.handler
                    == CatcherRef::User(catcher)
            &&& d.phase == Phase::AwaitCatcher
        },
        _ => exists|q2: Request, resp: Response|
            {
                &&& delta_reset_of(q2, request)
                &&& is_default_catcher_response(code, resp)
                &&& terminal_post(d, m, q2, resp, d.was_head, s)
            },
    }
}

/// Where the machine stands once a response has been finalized from
/// `resp`: the pending cookie changes of `request` become `Set-Cookie`
/// headers, the `Server` header is ensured, and either the on-response
/// hooks begin or the dispatch is done, with the body stripped for a
/// `HEAD` request.
pub open spec fn terminal_post<S>(
    d: Dispatch,
    m: Manifest<S>,
    request: Request,
    resp: Response,
    was_head: bool,
    s: Step,
) -> bool {
    match s {
        Step::RunResponseHook { hook, request: q, response: p } => {
            &&& q == request
            &&& decorated_response_of(resp, request.jar.delta@, p)
            &&& d.phase == Phase::AwaitResponseHook
            &&& d.resp_hook_idx == 0
            &&& d.was_head == was_head
            &&& is_response_hook_list(d.resp_hooks@, m.fairings.all@)
            &&& d.resp_hooks@.len() > 0
            &&& hook == m.fairings.all@[d.resp_hooks@[0] as int].callback
        },
        Step::Done { request: q, response: p } => {
            &&& q == request
            &&& final_response_of(resp, request.jar.delta@, was_head, p)
            &&& d.phase == Phase::Finished
            &&& is_response_hook_list(d.resp_hooks@, m.fairings.all@)
            &&& d.resp_hooks@.len() == 0
        },
        _ => false,
    }
}

/// `HEAD` auto-handling law: finalized from the same winning response and
/// the same pending cookie changes, a `HEAD` dispatch's response differs
/// from the corresponding `GET` one only in its body bytes — same status,
/// headers that agree name for name and value for value, the same
/// announced content length, and the body in stripped form.
pub proof fn lemma_head_strips_only_the_body(
    resp: Response,
    delta: Seq<CookieOp>,
    h: Response,
    g: Response,
)
    requires
        final_response_of(resp, delta, true, h),
        final_response_of(resp, delta, false, g),
    ensures
        h.status == g.status,
        h.headers@.len() == g.headers@.len(),
        forall|k: int|
            0 <= k < h.headers@.len() ==> (#[trigger] h.headers@[k].name)@ == g.headers@[k].name@
                && h.headers@[k].value@ == g.headers@[k].value@,
        content_length(h.body) == content_length(g.body),
        h.body == stripped(g.body),
{
    let pre = resp.headers@;
    let mh = choose|mh: Seq<Header>|
        appended_cookies(pre, delta, mh) && server_ensured(mh, #[trigger] h.headers@);
    let mg = choose|mg: Seq<Header>|
        appended_cookies(pre, delta, mg) && server_ensured(mg, #[trigger] g.headers@);
    assert(mh.len() == mg.len());
    assert forall|k: int|
        0 <= k < mh.len() implies (#[trigger] mh[k].name)@ == mg[k].name@ && mh[k].value@
        == mg[k].value@ by {
        if k < pre.len() {
            assert(mh[k] == mh.take(pre.len() as int)[k]);
            assert(mg[k] == mg.take(pre.len() as int)[k]);
        }
    }
    assert(headers_contain(mh, "Server"@) == headers_contain(mg, "Server"@)) by {
        if headers_contain(mh, "Server"@) {
            let i = choose|i: int| 0 <= i < mh.len() && name_eq(mh[i].name@, "Server"@);
            assert(name_eq(mg[i].name@, "Server"@));
        }
        if headers_contain(mg, "Server"@) {
            let i = choose|i: int| 0 <= i < mg.len() && name_eq(mg[i].name@, "Server"@);
            assert(name_eq(mh[i].name@, "Server"@));
        }
    }
    if headers_contain(mh, "Server"@) {
        assert(h.headers@ == mh && g.headers@ == mg);
    } else {
        assert forall|k: int|
            0 <= k < h.headers@.len() implies (#[trigger] h.headers@[k].name)@
            == g.headers@[k].name@ && h.headers@[k].value@ == g.headers@[k].value@ by {
            if k < mh.len() {
                assert(h.headers@[k] == h.headers@.take(mh.len() as int)[k]);
                assert(g.headers@[k] == g.headers@.take(mg.len() as int)[k]);
                assert(h.headers@[k] == mh[k] && g.headers@[k] == mg[k]);
            }
        }
    }
}

/// Cookie-isolation law: a response finalized against a request whose
/// cookie delta has been discarded — which error handling does before any
/// catcher runs — carries no `Set-Cookie` header beyond what the response
/// itself held; at most the identifying `Server` header is added. Cookie
/// changes made by a handler that ultimately failed can therefore never
/// reach the error response: only what the catcher itself sets can.
pub proof fn lemma_reset_delta_adds_no_cookies(
    resp: Response,
    q: Request,
    was_head: bool,
    out: Response,
)
    requires
        q.jar.delta@.len() == 0,
        final_response_of(resp, q.jar.delta@, was_head, out),
    ensures
        out.headers@.len() <= resp.headers@.len() + 1,
        forall|k: int| 0 <= k < resp.headers@.len() ==> out.headers@[k] == resp.headers@[k],
        out.headers@.len() == resp.headers@.len() + 1 ==> out.headers@.last().name@ == "Server"@,
{
    let pre = resp.headers@;
    let mid = choose|mid: Seq<Header>|
        appended_cookies(pre, q.jar.delta@, mid) && server_ensured(mid, #[trigger] out.headers@);
    assert(mid =~= pre);
    if !headers_contain(mid, "Server"@) {
        assert forall|k: int| 0 <= k < pre.len() implies out.headers@[k] == pre[k] by {
            assert(out.headers@[k] == out.headers@.take(mid.len() as int)[k]);
        }
    }
}

impl Dispatch {
    /// Internal coherence: each phase has what it needs.
    pub open spec fn inv(&self) -> bool {
        &&& (self.phase == Phase::AwaitRequestHook ==> self.data is Some && self.hook_idx
            < self.req_hooks@.len() && !self.autohandled)
        &&& (self.phase == Phase::AwaitHandler ==> self.match_idx < self.matches@.len())
        &&& (self.phase == Phase::AwaitResponseHook ==> self.resp_hook_idx
            < self.resp_hooks@.len())
    }

    /// The machine's stored indices point into this manifest's tables.
    pub open spec fn consistent<S>(&self, m: Manifest<S>) -> bool {
        &&& (forall|k: int|
            0 <= k < self.req_hooks@.len() ==> (#[trigger] self.req_hooks@[k])
                < m.fairings.all@.len())
        &&& (forall|k: int|
            0 <= k < self.resp_hooks@.len() ==> (#[trigger] self.resp_hooks@[k])
                < m.fairings.all@.len())
        &&& (forall|k: int|
            0 <= k < self.matches@.len() ==> (#[trigger] self.matches@[k]) < m.router@.len())
    }

    /// Begins one dispatch: preprocesses the request and yields the first
    /// step — the first on-request hook, or straight into routing.
    pub fn start<S>(m: &Manifest<S>, request: Request, data: Data) -> (r: (Dispatch, Step))
        requires
            m.wf(),
        ensures
            r.0.inv(),
            r.0.consistent(*m),
            match r.1 {
                Step::RunRequestHook { hook, request: q, peek } => {
                    &&& q == (Request {
                        method: preprocessed_method(request.method, request.headers@, data.peek@),
                        ..request
                    })
                    &&& peek@ == data.peek@
                    &&& r.0.phase == Phase::AwaitRequestHook
                    &&& r.0.data == Some(data)
                    &&& r.0.hook_idx == 0
                    &&& is_request_hook_list(r.0.req_hooks@, m.fairings.all@)
                    &&& r.0.req_hooks@.len() > 0
                    &&& hook == m.fairings.all@[r.0.req_hooks@[0] as int].callback
                },
                _ => {
                    &&& is_request_hook_list(r.0.req_hooks@, m.fairings.all@)
                    &&& r.0.req_hooks@.len() == 0
                    &&& routing_entry_post(
                        r.0,
                        *m,
                        Request {
                            method: preprocessed_method(
                                request.method,
                                request.headers@,
                                data.peek@,
                            ),
                            ..request
                        },
                        data,
                        r.1,
                    )
                },
            },
    {
        let mut request = request;
        preprocess(&mut request, &data);
        let req_hooks = m.fairings.request_hooks();
        let mut d = Dispatch {
            phase: Phase::AwaitRequestHook,
            was_head: false,
            autohandled: false,
            req_hooks,
            hook_idx: 0,
            matches: Vec::new(),
            match_idx: 0,
            resp_hooks: Vec::new(),
            resp_hook_idx: 0,
            data: None,
        };
        if d.req_hooks.len() > 0 {
            let hook = m.fairings.all[d.req_hooks[0]].callback;
            let peek = crate::http::clone_bytes(&data.peek);
            d.data = Some(data);
            let step = Step::RunRequestHook { hook, request, peek };
            (d, step)
        } else {
            let step = d.enter_routing(m, request, data);
            (d, step)
        }
    }

    /// Begins error handling directly, without routing: what a transport
    /// edge does with a malformed incoming request, fabricating a minimal
    /// request and routing it to the catcher for the given status.
    pub fn start_error<S>(m: &Manifest<S>, request: Request, status: u16) -> (r: (Dispatch, Step))
        requires
            m.wf(),
        ensures
            r.0.inv(),
            r.0.consistent(*m),
            !r.0.was_head,
            error_post(r.0, *m, request, status, r.1),
    {
        let mut d = Dispatch {
            phase: Phase::Finished,
            was_head: false,
            autohandled: false,
            req_hooks: Vec::new(),
            hook_idx: 0,
            matches: Vec::new(),
            match_idx: 0,
            resp_hooks: Vec::new(),
            resp_hook_idx: 0,
            data: None,
        };
        let step = d.error_path(m, request, status);
        (d, step)
    }

    /// Hands a request back from an on-request hook; yields the next
    /// hook, or enters routing after the last one. Hooks run strictly in
    /// attachment order, each completing before the next begins.
    pub fn hook_done<S>(&mut self, m: &Manifest<S>, request: Request) -> (s: Step)
        requires
            m.wf(),
            old(self).phase == Phase::AwaitRequestHook,
            old(self).inv(),
            old(self).consistent(*m),
        ensures
            final(self).inv(),
            final(self).consistent(*m),
            match s {
                Step::RunRequestHook { hook, request: q, peek } => {
                    &&& q == request
                    &&& peek@ == old(self).data->Some_0.peek@
                    &&& final(self).phase == Phase::AwaitRequestHook
                    &&& final(self).hook_idx == old(self).hook_idx + 1
                    &&& final(self).req_hooks == old(self).req_hooks
                    &&& old(self).hook_idx + 1 < old(self).req_hooks@.len()
                    &&& hook == m.fairings.all@[old(self).req_hooks@[old(self).hook_idx
                        + 1] as int].callback
                },
                _ => {
                    &&& old(self).hook_idx + 1 == old(self).req_hooks@.len()
                    &&& routing_entry_post(*final(self), *m, request, old(self).data->Some_0, s)
                },
            },
    {
        let nhooks = self.req_hooks.len();
        if self.hook_idx + 1 < nhooks {
            self.hook_idx = self.hook_idx + 1;
            let hook = m.fairings.all[self.req_hooks[self.hook_idx]].callback;
            let peek = match &self.data {
                Some(d) => crate::http::clone_bytes(&d.peek),
                None => unreached(),
            };
            Step::RunRequestHook { hook, request, peek }
        } else {
            match self.data.take() {
                Some(data) => self.enter_routing(m, request, data),
                None => unreached(),
            }
        }
    }

    /// Enters the routing loop with the request as the hooks left it.
    fn enter_routing<S>(&mut self, m: &Manifest<S>, request: Request, data: Data) -> (s: Step)
        requires
            m.wf(),
            !old(self).autohandled,
            old(self).consistent(*m),
        ensures
            final(self).inv(),
            final(self).consistent(*m),
            final(self).req_hooks == old(self).req_hooks,
            routing_entry_post(*final(self), *m, request, data, s),
    {
        let ghost q0 = request;
        let mut request = request;
        self.was_head = request.method == Method::Head;
        self.matches = m.router.route(request.method, &request.uri.segments);
        self.match_idx = 0;
        if self.matches.len() == 0 && request.method == Method::Head {
            // Auto-handle HEAD: retry, once, as GET.
            self.autohandled = true;
            request.set_method(Method::Get);
            self.matches = m.router.route(Method::Get, &request.uri.segments);
            self.match_idx = 0;
        }
        if self.matches.len() > 0 {
            let route = self.matches[0];
            proof {
                let path = path_view(request.uri.segments@);
                assert forall|i: int| 0 <= i < route implies !route_matches(
                    &m.router@[i],
                    request.method,
                    path,
                ) by {
                    if route_matches(&m.router@[i], request.method, path) {
                        let k = choose|k: int|
                            0 <= k < self.matches@.len() && #[trigger] self.matches@[k] == i;
                        if k > 0 {
                            assert(self.matches@[0] < self.matches@[k]);
                        }
                    }
                }
            }
            request.set_route(route);
            let handler = m.router.routes()[route].handler;
            self.phase = Phase::AwaitHandler;
            Step::RunHandler { handler, route, request, data }
        } else {
            proof {
                let path = path_view(request.uri.segments@);
                assert forall|i: int| 0 <= i < m.router@.len() implies !route_matches(
                    &m.router@[i],
                    request.method,
                    path,
                ) by {
                    if route_matches(&m.router@[i], request.method, path) {
                        let k = choose|k: int|
                            0 <= k < self.matches@.len() && #[trigger] self.matches@[k] == i;
                    }
                }
            }
            self.error_path(m, request, 404)
        }
    }

    /// Hands a handler's outcome back. A response wins and is finalized;
    /// a failure goes to error handling with its status; forwarding hands
    /// the identical body on to the next candidate route, with the
    /// one-shot `HEAD`-to-`GET` retry once candidates run out.
    pub fn handler_done<S>(&mut self, m: &Manifest<S>, request: Request, outcome: Outcome) -> (s:
        Step)
        requires
            m.wf(),
            old(self).phase == Phase::AwaitHandler,
            old(self).inv(),
            old(self).consistent(*m),
        ensures
            final(self).inv(),
            final(self).consistent(*m),
            final(self).was_head == old(self).was_head,
            match outcome {
                Outcome::Success(resp) => terminal_post(
                    *final(self),
                    *m,
                    request,
                    resp,
                    old(self).was_head,
                    s,
                ),
                Outcome::Failure(status) => error_post(*final(self), *m, request, status, s),
                Outcome::Forward(d) => match s {
                    Step::RunHandler { handler, route, request: q, data: d2 } => {
                        &&& d2 == d
                        &&& (q == (Request { route: Some(route), ..request }) || q == (Request {
                            route: Some(route),
                            method: Method::Get,
                            ..request
                        }))
                        &&& route < m.router@.len()
                        &&& handler == m.router@[route as int].handler
                        &&& ((final(self).match_idx == old(self).match_idx + 1 && route == old(
                            self,
                        ).matches@[old(self).match_idx + 1]) || (final(self).autohandled && !old(
                            self,
                        ).autohandled && final(self).match_idx == 0 && old(self).match_idx + 1
                            == old(self).matches@.len() && request.method == Method::Head
                            && route_matches(
                            &m.router@[route as int],
                            Method::Get,
                            path_view(request.uri.segments@),
                        ) && (forall|i: int|
                            0 <= i < route ==> !route_matches(
                                &m.router@[i],
                                Method::Get,
                                path_view(request.uri.segments@),
                            ))))
                        &&& final(self).phase == Phase::AwaitHandler
                    },
                    _ => {
                        &&& old(self).match_idx + 1 == old(self).matches@.len()
                        &&& (request.method == Method::Head && !old(self).autohandled
                            ==> final(self).autohandled && error_post(
                            *final(self),
                            *m,
                            (Request { method: Method::Get, ..request }),
                            404,
                            s,
                        ))
                        &&& (!(request.method == Method::Head && !old(self).autohandled)
                            ==> error_post(*final(self), *m, request, 404, s))
                    },
                },
            },
    {
        match outcome {
            Outcome::Success(resp) => self.terminal(m, request, resp),
            Outcome::Failure(status) => self.error_path(m, request, status),
            Outcome::Forward(d) => {
                let nmatches = self.matches.len();
                if self.match_idx + 1 < nmatches {
                    let mut request = request;
                    self.match_idx = self.match_idx + 1;
                    let route = self.matches[self.match_idx];
                    request.set_route(route);
                    let handler = m.router.routes()[route].handler;
                    Step::RunHandler { handler, route, request, data: d }
                } else if request.method == Method::Head && !self.autohandled {
                    // Auto-handle HEAD: retry the routing loop, once, as GET.
                    let mut request = request;
                    self.autohandled = true;
                    request.set_method(Method::Get);
                    self.matches = m.router.route(Method::Get, &request.uri.segments);
                    self.match_idx = 0;
                    if self.matches.len() > 0 {
                        let route = self.matches[0];
                        proof {
                            let path = path_view(request.uri.segments@);
                            assert forall|i: int| 0 <= i < route implies !route_matches(
                                &m.router@[i],
                                Method::Get,
                                path,
                            ) by {
                                if route_matches(&m.router@[i], Method::Get, path) {
                                    let k = choose|k: int|
                                        0 <= k < self.matches@.len() && #[trigger] self.matches@[k]
                                            == i;
                                    if k > 0 {
                                        assert(self.matches@[0] < self.matches@[k]);
                                    }
                                }
                            }
                        }
                        request.set_route(route);
                        let handler = m.router.routes()[route].handler;
                        Step::RunHandler { handler, route, request, data: d }
                    } else {
                        self.error_path(m, request, 404)
                    }
                } else {
                    self.error_path(m, request, 404)
                }
            },
        }
    }

    /// Hands a user catcher's result back. A response finalizes; a
    /// catcher that itself failed falls back to the built-in default 500
    /// catcher, which always succeeds.
    pub fn catcher_done<S>(
        &mut self,
        m: &Manifest<S>,
        request: Request,
        result: Result<Response, u16>,
    ) -> (s: Step)
        requires
            m.wf(),
            old(self).phase == Phase::AwaitCatcher,
            old(self).inv(),
            old(self).consistent(*m),
        ensures
            final(self).inv(),
            final(self).consistent(*m),
            final(self).was_head == old(self).was_head,
            match result {
                Ok(resp) => terminal_post(*final(self), *m, request, resp, old(self).was_head, s),
                Err(_) => exists|resp: Response|
                    is_default_catcher_response(500, resp) && terminal_post(
                        *final(self),
                        *m,
                        request,
                        resp,
                        old(self).was_head,
                        s,
                    ),
            },
    {
        match result {
            Ok(resp) => self.terminal(m, request, resp),
            Err(_) => {
                let resp = default_response(500);
                let ghost respw = resp;
                let ghost wh = self.was_head;
                let s2 = self.terminal(m, request, resp);
                proof {
                    assert(is_default_catcher_response(500, respw));
                    assert(terminal_post(*self, *m, request, respw, wh, s2));
                }
                s2
            },
        }
    }

    /// Hands a response back from an on-response hook; yields the next
    /// hook, or — after the last one — the finalized response, with the
    /// body stripped if the request was a `HEAD` request.
    pub fn response_hook_done<S>(
        &mut self,
        m: &Manifest<S>,
        request: Request,
        response: Response,
    ) -> (s: Step)
        requires
            m.wf(),
            old(self).phase == Phase::AwaitResponseHook,
            old(self).inv(),
            old(self).consistent(*m),
        ensures
            final(self).inv(),
            final(self).consistent(*m),
            match s {
                Step::RunResponseHook { hook, request: q, response: p } => {
                    &&& q == request
                    &&& p == response
                    &&& final(self).phase == Phase::AwaitResponseHook
                    &&& final(self).resp_hook_idx == old(self).resp_hook_idx + 1
                    &&& final(self).resp_hooks == old(self).resp_hooks
                    &&& old(self).resp_hook_idx + 1 < old(self).resp_hooks@.len()
                    &&& hook == m.fairings.all@[old(self).resp_hooks@[old(self).resp_hook_idx
                        + 1] as int].callback
                },
                Step::Done { request: q, response: p } => {
                    &&& q == request
                    &&& p == (Response {
                        body: strip_if(old(self).was_head, response.body),
                        ..response
                    })
                    &&& final(self).phase == Phase::Finished
                    &&& old(self).resp_hook_idx + 1 == old(self).resp_hooks@.len()
                },
                _ => false,
            },
    {
        let nresp = self.resp_hooks.len();
        if self.resp_hook_idx + 1 < nresp {
            self.resp_hook_idx = self.resp_hook_idx + 1;
            let hook = m.fairings.all[self.resp_hooks[self.resp_hook_idx]].callback;
            Step::RunResponseHook { hook, request, response }
        } else {
            let mut response = response;
            if self.was_head {
                response.strip_body();
            }
            self.phase = Phase::Finished;
            Step::Done { request, response }
        }
    }

    /// Error handling for `status`: resets the cookie delta, so that a
    /// failed path leaks no cookie changes, and looks the catcher up —
    /// the exact code if present, else the 500 entry. A built-in entry is
    /// served by the library itself and cannot fail.
    fn error_path<S>(&mut self, m: &Manifest<S>, request: Request, status: u16) -> (s: Step)
        requires
            m.wf(),
            old(self).consistent(*m),
        ensures
            final(self).inv(),
            final(self).consistent(*m),
            final(self).was_head == old(self).was_head,
            final(self).autohandled == old(self).autohandled,
            final(self).req_hooks == old(self).req_hooks,
            error_post(*final(self), *m, request, status, s),
    {
        let ghost orig = request;
        let mut request = request;
        request.jar.reset_delta();
        let entry = *m.catchers.lookup_for_error(status);
        proof {
            assert(m.catchers@.contains(entry));
            assert(entry.code == effective_catcher_code(m.catchers@, status));
        }
        match entry.handler {
            CatcherRef::User(id) => {
                self.phase = Phase::AwaitCatcher;
                proof {
                    assert(delta_reset_of(request, orig));
                }
                Step::RunCatcher { catcher: id, status, request }
            },
            CatcherRef::BuiltIn => {
                let code = entry.code;
                let resp = default_response(code);
                let ghost q2w = request;
                let ghost respw = resp;
                let s2 = self.terminal(m, request, resp);
                proof {
                    assert(delta_reset_of(q2w, orig));
                    assert(is_default_catcher_response(code, respw));
                    assert(terminal_post(*self, *m, q2w, respw, self.was_head, s2));
                }
                s2
            },
        }
    }

    /// Finalizes a response: appends the pending cookie changes as
    /// headers, ensures the identifying `Server` header, and yields
    /// either the first on-response hook or the finished response.
    fn terminal<S>(&mut self, m: &Manifest<S>, request: Request, resp: Response) -> (s: Step)
        requires
            m.wf(),
            old(self).consistent(*m),
        ensures
            final(self).inv(),
            final(self).consistent(*m),
            terminal_post(*final(self), *m, request, resp, old(self).was_head, s),
            final(self).was_head == old(self).was_head,
            final(self).autohandled == old(self).autohandled,
            final(self).req_hooks == old(self).req_hooks,
    {
        let ghost resp0 = resp;
        let mut resp = resp;
        let ghost pre = resp.headers@;
        let ghost delta = request.jar.delta@;
        request.jar.append_delta_headers(&mut resp.headers);
        proof {
            assert(appended_cookies(pre, delta, resp.headers@));
        }
        let ghost mid = resp.headers@;
        resp.ensure_header(
            Header::new(String::from_str("Server"), String::from_str("Rocket")),
        );
        proof {
            if !headers_contain(mid, "Server"@) {
                assert(resp.headers@.take(mid.len() as int) =~= mid);
            }
            assert(server_ensured(mid, resp.headers@));
        }
        self.resp_hooks = m.fairings.response_hooks();
        self.resp_hook_idx = 0;
        if self.resp_hooks.len() > 0 {
            self.phase = Phase::AwaitResponseHook;
            let hook = m.fairings.all[self.resp_hooks[0]].callback;
            Step::RunResponseHook { hook, request, response: resp }
        } else {
            if self.was_head {
                resp.strip_body();
            }
            self.phase = Phase::Finished;
            Step::Done { request, response: resp }
        }
    }
}

} // verus!

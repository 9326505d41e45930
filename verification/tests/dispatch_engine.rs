use rocket_core::rocket::{Rocket, Manifest};
use rocket_core::router::Route;
use rocket_core::uri::{Origin, Segment};
use rocket_core::http::{Method, Header};
use rocket_core::request::Request;
use rocket_core::data::Data;
use rocket_core::response::{Response, Body};
use rocket_core::outcome::Outcome;
use rocket_core::dispatch::{Dispatch, Step, preprocess};
use rocket_core::catcher::{Catcher, CatcherRef};
use rocket_core::cookies::Cookie;
use rocket_core::ops::Fairing;

fn origin(segments: &[&str]) -> Origin {
    Origin::new(segments.iter().map(|s| s.to_string()).collect(), None)
}

fn fixed(segments: &[&str]) -> Vec<Segment> {
    segments.iter().map(|s| Segment::Fixed(s.to_string())).collect()
}

fn request(method: Method, path: &[&str]) -> Request {
    Request::new(method, origin(path), Vec::new(), None, Vec::new())
}

fn empty_data() -> Data {
    Data::new(Vec::new(), 0)
}

fn manifest_with(routes: Vec<Route>, catchers: Vec<Catcher>) -> Manifest<u64> {
    let rocket: Rocket<u64> = Rocket::ignite().mount(origin(&[]), routes).register(catchers);
    rocket.actualize_and_take_manifest().unwrap()
}

fn header_pairs(r: &Response) -> Vec<(String, String)> {
    r.headers.iter().map(|h| (h.name.clone(), h.value.clone())).collect()
}

#[test]
fn success_response_gets_server_header() {
    let m = manifest_with(vec![Route::new(Method::Get, fixed(&["a"]), 1)], vec![]);
    let (mut d, step) = Dispatch::start(&m, request(Method::Get, &["a"]), empty_data());
    let (req, route) = match step {
        Step::RunHandler { handler, route, request, .. } => {
            assert_eq!(handler, 1);
            (request, route)
        },
        _ => panic!("expected a handler step"),
    };
    assert_eq!(req.route, Some(route));
    let resp = Response::new(200, Vec::new(), Body::Sized(vec![1, 2, 3]));
    match d.handler_done(&m, req, Outcome::Success(resp)) {
        Step::Done { response, .. } => {
            assert_eq!(response.status, 200);
            assert_eq!(
                header_pairs(&response),
                vec![("Server".to_string(), "Rocket".to_string())]
            );
            assert!(matches!(response.body, Body::Sized(ref b) if b == &vec![1, 2, 3]));
        },
        _ => panic!("expected the dispatch to finish"),
    }
}

#[test]
fn head_request_served_by_get_route_with_stripped_body() {
    let m = manifest_with(vec![Route::new(Method::Get, fixed(&["a"]), 1)], vec![]);
    let body = vec![9u8, 8, 7];
    let hdr = Header::new("X-Custom".to_string(), "yes".to_string());

    // The GET dispatch.
    let (mut dg, step_g) = Dispatch::start(&m, request(Method::Get, &["a"]), empty_data());
    let req_g = match step_g {
        Step::RunHandler { request, .. } => request,
        _ => panic!("expected a handler step"),
    };
    let resp_g = Response::new(200, vec![Header::new(hdr.name.clone(), hdr.value.clone())], Body::Sized(body.clone()));
    let out_g = match dg.handler_done(&m, req_g, Outcome::Success(resp_g)) {
        Step::Done { response, .. } => response,
        _ => panic!("expected the dispatch to finish"),
    };

    // The HEAD dispatch: only a GET route is mounted, so it is auto-handled.
    let (mut dh, step_h) = Dispatch::start(&m, request(Method::Head, &["a"]), empty_data());
    let req_h = match step_h {
        Step::RunHandler { handler, request, .. } => {
            assert_eq!(handler, 1);
            assert_eq!(request.method, Method::Get);
            request
        },
        _ => panic!("expected the HEAD request to be auto-handled"),
    };
    let resp_h = Response::new(200, vec![Header::new(hdr.name.clone(), hdr.value.clone())], Body::Sized(body.clone()));
    let out_h = match dh.handler_done(&m, req_h, Outcome::Success(resp_h)) {
        Step::Done { response, .. } => response,
        _ => panic!("expected the dispatch to finish"),
    };

    // Same status and headers — the content length in particular — but an
    // empty body.
    assert_eq!(out_h.status, out_g.status);
    assert_eq!(header_pairs(&out_h), header_pairs(&out_g));
    assert!(matches!(out_g.body, Body::Sized(ref b) if b == &body));
    assert!(matches!(out_h.body, Body::Stripped(Some(3))));
}

#[test]
fn no_route_and_no_catcher_yields_the_default_404() {
    let m = manifest_with(vec![], vec![]);
    let (_d, step) = Dispatch::start(&m, request(Method::Get, &["nope"]), empty_data());
    match step {
        Step::Done { response, .. } => {
            assert_eq!(response.status, 404);
            assert!(matches!(response.body, Body::Sized(ref b) if b == &b"404".to_vec()));
        },
        _ => panic!("expected an immediate default 404"),
    }
}

#[test]
fn handler_failure_with_only_defaults_yields_the_default_500_body() {
    let m = manifest_with(vec![Route::new(Method::Get, fixed(&["a"]), 1)], vec![]);
    let (mut d, step) = Dispatch::start(&m, request(Method::Get, &["a"]), empty_data());
    let req = match step {
        Step::RunHandler { request, .. } => request,
        _ => panic!("expected a handler step"),
    };
    match d.handler_done(&m, req, Outcome::Failure(500)) {
        Step::Done { response, .. } => {
            assert_eq!(response.status, 500);
            assert!(matches!(response.body, Body::Sized(ref b) if b == &b"500".to_vec()));
        },
        _ => panic!("expected the default 500 response"),
    }
}

#[test]
fn user_catcher_runs_and_its_failure_falls_back_to_default_500() {
    let catcher = Catcher { code: 418, is_default: false, handler: CatcherRef::User(77) };
    let m = manifest_with(vec![Route::new(Method::Get, fixed(&["a"]), 1)], vec![catcher]);
    let (mut d, step) = Dispatch::start(&m, request(Method::Get, &["a"]), empty_data());
    let req = match step {
        Step::RunHandler { request, .. } => request,
        _ => panic!("expected a handler step"),
    };
    let req = match d.handler_done(&m, req, Outcome::Failure(418)) {
        Step::RunCatcher { catcher, status, request } => {
            assert_eq!(catcher, 77);
            assert_eq!(status, 418);
            request
        },
        _ => panic!("expected the user catcher to run"),
    };
    // The catcher itself fails: the built-in default 500 catcher answers.
    match d.catcher_done(&m, req, Err(418)) {
        Step::Done { response, .. } => {
            assert_eq!(response.status, 500);
            assert!(matches!(response.body, Body::Sized(ref b) if b == &b"500".to_vec()));
        },
        _ => panic!("expected the default 500 response"),
    }
}

#[test]
fn cookie_from_failed_handler_is_not_in_the_error_response() {
    let m = manifest_with(vec![Route::new(Method::Get, fixed(&["a"]), 1)], vec![]);
    let (mut d, step) = Dispatch::start(&m, request(Method::Get, &["a"]), empty_data());
    let mut req = match step {
        Step::RunHandler { request, .. } => request,
        _ => panic!("expected a handler step"),
    };
    // The handler sets a cookie, then fails.
    req.jar.add(Cookie::new("session".to_string(), "secret".to_string()));
    match d.handler_done(&m, req, Outcome::Failure(500)) {
        Step::Done { response, .. } => {
            assert_eq!(response.status, 500);
            for (name, _) in header_pairs(&response) {
                assert_ne!(name, "Set-Cookie".to_string());
            }
        },
        _ => panic!("expected the default 500 response"),
    }
}

#[test]
fn cookie_from_successful_handler_is_in_the_response() {
    let m = manifest_with(vec![Route::new(Method::Get, fixed(&["a"]), 1)], vec![]);
    let (mut d, step) = Dispatch::start(&m, request(Method::Get, &["a"]), empty_data());
    let mut req = match step {
        Step::RunHandler { request, .. } => request,
        _ => panic!("expected a handler step"),
    };
    req.jar.add(Cookie::new("session".to_string(), "open".to_string()));
    match d.handler_done(&m, req, Outcome::Success(Response::new(200, Vec::new(), Body::Empty))) {
        Step::Done { response, .. } => {
            assert!(header_pairs(&response)
                .contains(&("Set-Cookie".to_string(), "session=open".to_string())));
        },
        _ => panic!("expected the dispatch to finish"),
    }
}

#[test]
fn forwarding_hands_the_identical_data_to_the_next_route() {
    let routes = vec![
        Route::ranked(1, Method::Get, fixed(&["a"]), 1),
        Route::ranked(2, Method::Get, fixed(&["a"]), 2),
    ];
    let m = manifest_with(routes, vec![]);
    let data = Data::new(vec![5, 6, 7], 99);
    let (mut d, step) = Dispatch::start(&m, request(Method::Get, &["a"]), data);
    let (req, data) = match step {
        Step::RunHandler { handler, request, data, .. } => {
            assert_eq!(handler, 1);
            (request, data)
        },
        _ => panic!("expected the rank-1 handler first"),
    };
    // The first handler declines; the second receives the identical body.
    match d.handler_done(&m, req, Outcome::Forward(data)) {
        Step::RunHandler { handler, data, .. } => {
            assert_eq!(handler, 2);
            assert_eq!(data.peek, vec![5, 6, 7]);
            assert_eq!(data.stream, 99);
        },
        _ => panic!("expected the rank-2 handler next"),
    }
}

#[test]
fn exhausted_candidates_yield_404() {
    let m = manifest_with(vec![Route::new(Method::Get, fixed(&["a"]), 1)], vec![]);
    let (mut d, step) = Dispatch::start(&m, request(Method::Get, &["a"]), empty_data());
    let (req, data) = match step {
        Step::RunHandler { request, data, .. } => (request, data),
        _ => panic!("expected a handler step"),
    };
    match d.handler_done(&m, req, Outcome::Forward(data)) {
        Step::Done { response, .. } => assert_eq!(response.status, 404),
        _ => panic!("expected a 404 after the only candidate declined"),
    }
}

#[test]
fn request_hooks_run_in_attachment_order() {
    let mk = |name: &str, id: u64| Fairing::<u64> {
        name: name.to_string(),
        on_launch: false,
        on_request: true,
        on_response: false,
        on_shutdown: false,
        callback: id,
        attach_ops: Vec::new(),
        attach_ok: true,
    };
    let rocket: Rocket<u64> = Rocket::ignite()
        .attach(mk("first", 21))
        .attach(mk("second", 22))
        .mount(origin(&[]), vec![Route::new(Method::Get, fixed(&["a"]), 1)]);
    let m = rocket.actualize_and_take_manifest().unwrap();
    let (mut d, step) = Dispatch::start(&m, request(Method::Get, &["a"]), empty_data());
    let req = match step {
        Step::RunRequestHook { hook, request, .. } => {
            assert_eq!(hook, 21);
            request
        },
        _ => panic!("expected the first request hook"),
    };
    let req = match d.hook_done(&m, req) {
        Step::RunRequestHook { hook, request, .. } => {
            assert_eq!(hook, 22);
            request
        },
        _ => panic!("expected the second request hook"),
    };
    match d.hook_done(&m, req) {
        Step::RunHandler { handler, .. } => assert_eq!(handler, 1),
        _ => panic!("expected routing after the last hook"),
    }
}

#[test]
fn response_hooks_run_and_head_strip_comes_after_them() {
    let hook = Fairing::<u64> {
        name: "resp".to_string(),
        on_launch: false,
        on_request: false,
        on_response: true,
        on_shutdown: false,
        callback: 31,
        attach_ops: Vec::new(),
        attach_ok: true,
    };
    let rocket: Rocket<u64> = Rocket::ignite()
        .attach(hook)
        .mount(origin(&[]), vec![Route::new(Method::Get, fixed(&["a"]), 1)]);
    let m = rocket.actualize_and_take_manifest().unwrap();
    let (mut d, step) = Dispatch::start(&m, request(Method::Head, &["a"]), empty_data());
    let req = match step {
        Step::RunHandler { request, .. } => request,
        _ => panic!("expected a handler step"),
    };
    let resp = Response::new(200, Vec::new(), Body::Sized(vec![1, 2]));
    let (req, mut resp) = match d.handler_done(&m, req, Outcome::Success(resp)) {
        Step::RunResponseHook { hook, request, response } => {
            assert_eq!(hook, 31);
            // The hook still sees the body; stripping comes last.
            assert!(matches!(response.body, Body::Sized(_)));
            (request, response)
        },
        _ => panic!("expected the response hook"),
    };
    resp.adjoin_header(Header::new("X-Hooked".to_string(), "1".to_string()));
    match d.response_hook_done(&m, req, resp) {
        Step::Done { response, .. } => {
            assert!(matches!(response.body, Body::Stripped(Some(2))));
            assert!(header_pairs(&response)
                .contains(&("X-Hooked".to_string(), "1".to_string())));
        },
        _ => panic!("expected the dispatch to finish"),
    }
}

#[test]
fn method_override_rewrites_a_post_form() {
    let headers = vec![Header::new(
        "Content-Type".to_string(),
        "application/x-www-form-urlencoded".to_string(),
    )];
    let mut req = Request::new(Method::Post, origin(&["a"]), headers, None, Vec::new());
    let data = Data::new(b"_method=put".to_vec(), 0);
    preprocess(&mut req, &data);
    assert_eq!(req.method, Method::Put);
}

#[test]
fn method_override_finds_a_later_item() {
    let headers = vec![Header::new(
        "Content-Type".to_string(),
        "application/x-www-form-urlencoded; charset=utf-8".to_string(),
    )];
    let mut req = Request::new(Method::Post, origin(&["a"]), headers, None, Vec::new());
    let data = Data::new(b"x&_method=get".to_vec(), 0);
    preprocess(&mut req, &data);
    assert_eq!(req.method, Method::Get);
}

#[test]
fn method_override_ignores_non_forms_and_short_bodies() {
    // Not a form: no rewrite.
    let mut req = Request::new(Method::Post, origin(&["a"]), Vec::new(), None, Vec::new());
    let data = Data::new(b"_method=put".to_vec(), 0);
    preprocess(&mut req, &data);
    assert_eq!(req.method, Method::Post);

    // A form, but the prefix is too short to hold an override.
    let headers = vec![Header::new(
        "Content-Type".to_string(),
        "application/x-www-form-urlencoded".to_string(),
    )];
    let mut req = Request::new(Method::Post, origin(&["a"]), headers, None, Vec::new());
    let data = Data::new(b"_method=p".to_vec(), 0);
    preprocess(&mut req, &data);
    assert_eq!(req.method, Method::Post);

    // A GET is never rewritten.
    let headers = vec![Header::new(
        "Content-Type".to_string(),
        "application/x-www-form-urlencoded".to_string(),
    )];
    let mut req = Request::new(Method::Get, origin(&["a"]), headers, None, Vec::new());
    let data = Data::new(b"_method=put".to_vec(), 0);
    preprocess(&mut req, &data);
    assert_eq!(req.method, Method::Get);
}

#[test]
fn an_unparseable_override_value_changes_nothing() {
    let headers = vec![Header::new(
        "Content-Type".to_string(),
        "application/x-www-form-urlencoded".to_string(),
    )];
    let mut req = Request::new(Method::Post, origin(&["a"]), headers, None, Vec::new());
    let data = Data::new(b"_method=bogus".to_vec(), 0);
    preprocess(&mut req, &data);
    assert_eq!(req.method, Method::Post);
}

#[test]
fn malformed_request_routes_to_the_400_catcher() {
    let m = manifest_with(vec![], vec![]);
    let dummy = request(Method::Get, &[]);
    let (_d, step) = Dispatch::start_error(&m, dummy, 400);
    match step {
        Step::Done { response, .. } => {
            assert_eq!(response.status, 400);
            assert!(matches!(response.body, Body::Sized(ref b) if b == &b"400".to_vec()));
        },
        _ => panic!("expected the default 400 response"),
    }
}

#[test]
fn method_override_tolerates_utf8_after_the_item() {
    let headers = vec![Header::new(
        "Content-Type".to_string(),
        "application/x-www-form-urlencoded".to_string(),
    )];
    let mut req = Request::new(Method::Post, origin(&["a"]), headers, None, Vec::new());
    // "_method=put&" followed by a two-byte UTF-8 character fills the
    // 14-byte window exactly; the override still applies.
    let mut peek = b"_method=put&".to_vec();
    peek.extend_from_slice("\u{e9}".as_bytes());
    let data = Data::new(peek, 0);
    preprocess(&mut req, &data);
    assert_eq!(req.method, Method::Put);
}

#[test]
fn method_override_ignores_undecodable_windows() {
    let headers = vec![Header::new(
        "Content-Type".to_string(),
        "application/x-www-form-urlencoded".to_string(),
    )];
    let mut req = Request::new(Method::Post, origin(&["a"]), headers, None, Vec::new());
    // An invalid byte in the window: the prefix does not decode, so no
    // rewrite happens.
    let mut peek = b"_method=put&".to_vec();
    peek.push(0xff);
    let data = Data::new(peek, 0);
    preprocess(&mut req, &data);
    assert_eq!(req.method, Method::Post);

    // A multi-byte character cut off by the window boundary does not
    // decode either.
    let headers = vec![Header::new(
        "Content-Type".to_string(),
        "application/x-www-form-urlencoded".to_string(),
    )];
    let mut req = Request::new(Method::Post, origin(&["a"]), headers, None, Vec::new());
    let mut peek = b"_method=put&x".to_vec();
    peek.extend_from_slice("\u{e9}".as_bytes());
    assert!(peek.len() > 14);
    let data = Data::new(peek, 0);
    preprocess(&mut req, &data);
    assert_eq!(req.method, Method::Post);
}

use rocket_core::http::{Method, Status, Header, find_header, name_eq_exec, str_eq, str_starts_with, find_byte_exec};
use rocket_core::uri::{Segment, matches_path, segs_same_exec, resolve};
use rocket_core::router::{Router, Route, default_rank_exec};
use rocket_core::cookies::{Cookie, CookieOp, CookieJar};
use rocket_core::catcher::{CatcherTable, dec_bytes_exec, default_response};
use rocket_core::response::{Response, Body};

fn strs(xs: &[&str]) -> Vec<String> {
    xs.iter().map(|s| s.to_string()).collect()
}

fn fixed(segments: &[&str]) -> Vec<Segment> {
    segments.iter().map(|s| Segment::Fixed(s.to_string())).collect()
}

#[test]
fn method_names_parse_ignoring_case() {
    assert_eq!(Method::parse(b"GET"), Some(Method::Get));
    assert_eq!(Method::parse(b"get"), Some(Method::Get));
    assert_eq!(Method::parse(b"dElEtE"), Some(Method::Delete));
    assert_eq!(Method::parse(b"PATCH"), Some(Method::Patch));
    assert_eq!(Method::parse(b"bogus"), None);
    assert_eq!(Method::parse(b""), None);
}

#[test]
fn header_names_compare_ignoring_ascii_case() {
    assert!(name_eq_exec("Content-Type", "content-type"));
    assert!(name_eq_exec("SERVER", "Server"));
    assert!(!name_eq_exec("Server", "Serve"));
    assert!(!name_eq_exec("Server", "Header"));
}

#[test]
fn string_helpers() {
    assert!(str_eq("abc", "abc"));
    assert!(!str_eq("abc", "abd"));
    assert!(str_starts_with("application/x-www-form-urlencoded; x", "application/x-www-form-urlencoded"));
    assert!(!str_starts_with("app", "application"));
    assert_eq!(find_byte_exec(b"key=value", b'='), Some(3));
    assert_eq!(find_byte_exec(b"key", b'='), None);
}

#[test]
fn find_header_returns_the_first_match() {
    let hs = vec![
        Header::new("A".to_string(), "1".to_string()),
        Header::new("content-TYPE".to_string(), "x".to_string()),
        Header::new("Content-Type".to_string(), "y".to_string()),
    ];
    let h = find_header(&hs, "Content-Type").unwrap();
    assert_eq!(h.value, "x".to_string());
    assert!(find_header(&hs, "Missing").is_none());
}

#[test]
fn pattern_matching_literal_dynamic_and_trailing() {
    let pat = vec![
        Segment::Fixed("users".to_string()),
        Segment::Param("id".to_string()),
    ];
    assert!(matches_path(&pat, &strs(&["users", "17"])));
    assert!(!matches_path(&pat, &strs(&["users"])));
    assert!(!matches_path(&pat, &strs(&["users", "17", "x"])));
    assert!(!matches_path(&pat, &strs(&["accounts", "17"])));

    let tail = vec![
        Segment::Fixed("static".to_string()),
        Segment::Trail("rest".to_string()),
    ];
    assert!(matches_path(&tail, &strs(&["static"])));
    assert!(matches_path(&tail, &strs(&["static", "css", "site.css"])));
    assert!(!matches_path(&tail, &strs(&["media", "x"])));
}

#[test]
fn pattern_shape_equality_ignores_parameter_names() {
    let a = vec![Segment::Fixed("a".to_string()), Segment::Param("x".to_string())];
    let b = vec![Segment::Fixed("a".to_string()), Segment::Param("y".to_string())];
    let c = vec![Segment::Fixed("a".to_string()), Segment::Fixed("x".to_string())];
    assert!(segs_same_exec(&a, &b));
    assert!(!segs_same_exec(&a, &c));
}

#[test]
fn resolution_prefixes_the_base_as_literals() {
    let resolved = resolve(&strs(&["base", "v1"]), &fixed(&["leaf"]));
    assert_eq!(resolved.len(), 3);
    assert!(matches_path(&resolved, &strs(&["base", "v1", "leaf"])));
    assert!(!matches_path(&resolved, &strs(&["leaf"])));
}

#[test]
fn default_ranks_order_by_generality() {
    assert_eq!(default_rank_exec(&fixed(&["a", "b"])), 0);
    assert_eq!(
        default_rank_exec(&vec![Segment::Fixed("a".to_string()), Segment::Param("p".to_string())]),
        1
    );
    assert_eq!(
        default_rank_exec(&vec![Segment::Trail("rest".to_string())]),
        2
    );
}

#[test]
fn router_orders_candidates_by_rank_then_insertion() {
    let mut router = Router::new();
    router.add(Route::ranked(5, Method::Get, fixed(&["a"]), 1));
    router.add(Route::ranked(1, Method::Get, fixed(&["a"]), 2));
    router.add(Route::ranked(5, Method::Get, fixed(&["a"]), 3));
    router.add(Route::ranked(3, Method::Post, fixed(&["a"]), 4));
    let matched = router.route(Method::Get, &strs(&["a"]));
    let handlers: Vec<u64> = matched.iter().map(|i| router.routes()[*i].handler).collect();
    // Rank 1 first; the two rank-5 routes keep their insertion order.
    assert_eq!(handlers, vec![2, 1, 3]);
    assert_eq!(router.route(Method::Put, &strs(&["a"])).len(), 0);
}

#[test]
fn router_collisions_need_identical_triples() {
    let mut router = Router::new();
    router.add(Route::ranked(1, Method::Get, fixed(&["a"]), 1));
    router.add(Route::ranked(2, Method::Get, fixed(&["a"]), 2));
    assert!(router.collisions().is_ok());
    router.add(Route::ranked(1, Method::Get, fixed(&["a"]), 3));
    assert!(router.collisions().is_err());
}

#[test]
fn cookie_jar_delta_and_reset() {
    let mut jar = CookieJar::new(vec![Cookie::new("base".to_string(), "b".to_string())]);
    jar.add(Cookie::new("a".to_string(), "1".to_string()));
    jar.remove("gone".to_string());
    let headers = jar.delta_headers();
    assert_eq!(headers.len(), 2);
    assert_eq!(headers[0].name, "Set-Cookie".to_string());
    assert_eq!(headers[0].value, "a=1".to_string());
    assert_eq!(headers[1].value, "gone=".to_string());
    jar.reset_delta();
    assert_eq!(jar.delta_headers().len(), 0);
    assert_eq!(jar.base.len(), 1);
    jar.extend(vec![CookieOp::Add(Cookie::new("x".to_string(), "2".to_string()))]);
    assert_eq!(jar.delta_headers().len(), 1);
}

#[test]
fn status_codes_render_in_decimal() {
    assert_eq!(dec_bytes_exec(404), b"404".to_vec());
    assert_eq!(dec_bytes_exec(7), b"7".to_vec());
    assert_eq!(dec_bytes_exec(65535), b"65535".to_vec());
    let r = default_response(503);
    assert_eq!(r.status, 503);
    assert!(matches!(r.body, Body::Sized(ref b) if b == &b"503".to_vec()));
}

#[test]
fn default_catcher_table_always_has_a_500_entry() {
    let t = CatcherTable::defaults();
    assert_eq!(t.lookup_for_error(500).code, 500);
    assert_eq!(t.lookup_for_error(404).code, 404);
    // A code outside the default set falls back to 500.
    assert_eq!(t.lookup_for_error(402).code, 500);
    let _ = Status::new(200);
}

#[test]
fn ensure_header_respects_existing_names_case_insensitively() {
    let mut r = Response::new(
        200,
        vec![Header::new("sErVeR".to_string(), "custom".to_string())],
        Body::Empty,
    );
    r.ensure_header(Header::new("Server".to_string(), "Rocket".to_string()));
    assert_eq!(r.headers.len(), 1);
    assert_eq!(r.headers[0].value, "custom".to_string());
}

#[test]
fn strip_body_preserves_the_announced_length() {
    let mut r = Response::new(200, Vec::new(), Body::Sized(vec![0u8; 5]));
    r.strip_body();
    assert!(matches!(r.body, Body::Stripped(Some(5))));
    let mut s = Response::new(200, Vec::new(), Body::Stream(4, 1024));
    s.strip_body();
    assert!(matches!(s.body, Body::Stripped(None)));
    let mut e = Response::new(200, Vec::new(), Body::Empty);
    e.strip_body();
    assert!(matches!(e.body, Body::Empty));
}

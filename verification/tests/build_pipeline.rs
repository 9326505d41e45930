use rocket_core::rocket::Rocket;
use rocket_core::router::Route;
use rocket_core::uri::{Origin, Segment};
use rocket_core::http::Method;
use rocket_core::catcher::{Catcher, CatcherRef};
use rocket_core::ops::{Fairing, BuildOp};
use rocket_core::error::{BuildError, LaunchError};

fn origin(segments: &[&str]) -> Origin {
    Origin::new(segments.iter().map(|s| s.to_string()).collect(), None)
}

fn fixed(segments: &[&str]) -> Vec<Segment> {
    segments.iter().map(|s| Segment::Fixed(s.to_string())).collect()
}

fn plain_fairing(name: &str) -> Fairing<u64> {
    Fairing {
        name: name.to_string(),
        on_launch: false,
        on_request: false,
        on_response: false,
        on_shutdown: false,
        callback: 0,
        attach_ops: Vec::new(),
        attach_ok: true,
    }
}

#[test]
fn mount_resolves_under_bases() {
    let mut rocket: Rocket<u64> = Rocket::ignite()
        .mount(origin(&["hello"]), vec![Route::new(Method::Get, fixed(&["world"]), 1)])
        .mount(origin(&["hi"]), vec![Route::new(Method::Get, fixed(&["world"]), 2)]);
    assert!(rocket.actualize_manifest().is_ok());
    let m = rocket.inspect().unwrap();
    assert_eq!(m.routes().len(), 2);
    // The route declared at /world is reachable at /hello/world and /hi/world.
    let hello_world = vec!["hello".to_string(), "world".to_string()];
    let hi_world = vec!["hi".to_string(), "world".to_string()];
    assert_eq!(m.router.route(Method::Get, &hello_world).len(), 1);
    assert_eq!(m.router.route(Method::Get, &hi_world).len(), 1);
    // It is not reachable at the bare declared path or under the wrong base.
    let world = vec!["world".to_string()];
    assert_eq!(m.router.route(Method::Get, &world).len(), 0);
    for route in m.routes() {
        assert_eq!(route.segments.len(), 2);
    }
}

#[test]
fn actualize_twice_is_a_no_op() {
    let mut rocket: Rocket<u64> = Rocket::ignite()
        .mount(origin(&[]), vec![Route::new(Method::Get, fixed(&["a"]), 1)])
        .manage(7, 42);
    assert!(rocket.actualize_manifest().is_ok());
    let count = rocket.inspect().unwrap().routes().len();
    assert_eq!(count, 1);
    // Actualizing an already-drained pipeline: no error, no duplicates.
    assert!(rocket.actualize_manifest().is_ok());
    assert_eq!(rocket.inspect().unwrap().routes().len(), 1);
    assert_eq!(rocket.state(7), Ok(Some(&42)));
}

#[test]
fn attach_hook_ops_drain_before_later_ops() {
    let mut hook = plain_fairing("mounter");
    hook.attach_ops = vec![BuildOp::Mount(
        origin(&[]),
        vec![Route::new(Method::Get, fixed(&["from-hook"]), 10)],
    )];
    let mut rocket: Rocket<u64> = Rocket::ignite()
        .attach(hook)
        .mount(origin(&[]), vec![Route::new(Method::Get, fixed(&["later"]), 20)]);
    assert!(rocket.actualize_manifest().is_ok());
    let m = rocket.inspect().unwrap();
    let handlers: Vec<u64> = m.routes().iter().map(|r| r.handler).collect();
    // The hook's mount drains before the mount queued after the attach.
    assert_eq!(handlers, vec![10, 20]);
    assert_eq!(m.fairings.all.len(), 1);
}

#[test]
fn nested_attach_hooks_drain_depth_first() {
    let mut inner = plain_fairing("inner");
    inner.attach_ops = vec![BuildOp::Mount(
        origin(&[]),
        vec![Route::new(Method::Get, fixed(&["inner"]), 1)],
    )];
    let mut outer = plain_fairing("outer");
    outer.attach_ops = vec![
        BuildOp::Attach(inner),
        BuildOp::Mount(origin(&[]), vec![Route::new(Method::Get, fixed(&["outer"]), 2)]),
    ];
    let mut rocket: Rocket<u64> = Rocket::ignite()
        .attach(outer)
        .mount(origin(&[]), vec![Route::new(Method::Get, fixed(&["last"]), 3)]);
    assert!(rocket.actualize_manifest().is_ok());
    let m = rocket.inspect().unwrap();
    let handlers: Vec<u64> = m.routes().iter().map(|r| r.handler).collect();
    assert_eq!(handlers, vec![1, 2, 3]);
    assert_eq!(m.fairings.all.len(), 2);
}

#[test]
fn failed_attach_fails_the_prelaunch_check() {
    let mut hook = plain_fairing("broken");
    hook.attach_ok = false;
    let mut rocket: Rocket<u64> = Rocket::ignite().attach(hook);
    assert!(rocket.actualize_manifest().is_ok());
    let m = rocket.inspect().unwrap();
    match m.prelaunch_check() {
        Err(LaunchError::FailedFairings(names)) => {
            assert_eq!(names, vec!["broken".to_string()]);
        },
        other => panic!("expected failed fairings, got {:?}", other),
    }
}

#[test]
fn collision_detection_on_identical_triples() {
    // Distinct (method, path, rank) triples: no collision.
    let mut ok: Rocket<u64> = Rocket::ignite().mount(
        origin(&[]),
        vec![
            Route::ranked(1, Method::Get, fixed(&["a"]), 1),
            Route::ranked(2, Method::Get, fixed(&["a"]), 2),
            Route::ranked(1, Method::Post, fixed(&["a"]), 3),
            Route::ranked(1, Method::Get, fixed(&["b"]), 4),
        ],
    );
    assert!(ok.actualize_manifest().is_ok());
    assert!(ok.inspect().unwrap().prelaunch_check().is_ok());

    // Two routes with identical method, resolved path and rank collide.
    let mut bad: Rocket<u64> = Rocket::ignite().mount(
        origin(&["base"]),
        vec![
            Route::ranked(1, Method::Get, fixed(&["a"]), 1),
            Route::ranked(1, Method::Get, fixed(&["a"]), 2),
        ],
    );
    assert!(bad.actualize_manifest().is_ok());
    match bad.inspect().unwrap().prelaunch_check() {
        Err(LaunchError::Collision(i, j)) => assert!(i < j),
        _ => panic!("expected a collision"),
    }
}

#[test]
fn duplicate_manage_is_a_fatal_build_error() {
    let mut rocket: Rocket<String> = Rocket::ignite()
        .manage(1, "first".to_string())
        .manage(1, "second".to_string());
    match rocket.actualize_manifest() {
        Err(BuildError::DuplicateManage(1)) => {},
        _ => panic!("expected a duplicate-manage error"),
    }
}

#[test]
fn managed_state_round_trip() {
    let mut rocket: Rocket<String> = Rocket::ignite().manage(3, "hello!".to_string());
    assert!(rocket.actualize_manifest().is_ok());
    // Inserting a value then querying its key returns the inserted value.
    assert_eq!(rocket.state(3), Ok(Some(&"hello!".to_string())));
    // Querying a never-inserted key is an absent result, not an error.
    assert_eq!(rocket.state(4), Ok(None));
}

#[test]
fn mount_base_with_query_is_a_fatal_build_error() {
    let mut hook = plain_fairing("bad-mount");
    hook.attach_ops = vec![BuildOp::Mount(
        Origin::new(vec!["x".to_string()], Some("q=1".to_string())),
        vec![Route::new(Method::Get, fixed(&["y"]), 1)],
    )];
    let mut rocket: Rocket<u64> = Rocket::ignite().attach(hook);
    match rocket.actualize_manifest() {
        Err(BuildError::InvalidMountBase) => {},
        _ => panic!("expected an invalid mount base error"),
    }
}

#[test]
fn registered_catcher_overwrites_default() {
    let mut rocket: Rocket<u64> = Rocket::ignite().register(vec![Catcher {
        code: 404,
        is_default: false,
        handler: CatcherRef::User(9),
    }]);
    assert!(rocket.actualize_manifest().is_ok());
    let m = rocket.inspect().unwrap();
    let c = m.catchers.lookup_for_error(404);
    assert_eq!(c.code, 404);
    assert!(!c.is_default);
    assert_eq!(c.handler, CatcherRef::User(9));
    // The default layer is untouched.
    let d = m.default_catchers.lookup_for_error(404);
    assert!(d.is_default);
}

#[test]
fn unknown_status_falls_back_to_the_500_entry() {
    let rocket: Rocket<u64> = Rocket::ignite();
    let c = rocket.manifest.catchers.lookup_for_error(418);
    assert_eq!(c.code, 500);
}

#[test]
fn default_configuration_values() {
    let mut rocket: Rocket<u64> = Rocket::ignite();
    let config = rocket.config().unwrap();
    assert_eq!(config.address, "localhost".to_string());
    assert_eq!(config.port, 8000);
    assert_eq!(config.workers, 16);
    assert!(config.ctrl_c_shutdown);
    assert!(config.get_extra("missing").is_none());
}

#[test]
fn freeze_forbids_no_reads() {
    let rocket: Rocket<u64> = Rocket::ignite().manage(5, 55);
    let mut m = rocket.actualize_and_take_manifest().unwrap();
    m.freeze();
    assert_eq!(m.state(5), Some(&55));
    assert!(m.take_shutdown_receiver().is_some());
    assert!(m.take_shutdown_receiver().is_none());
}

#[test]
fn shutdown_signal_round_trip() {
    let rocket: Rocket<u64> = Rocket::ignite();
    let mut m = rocket.actualize_and_take_manifest().unwrap();
    let handle = m.get_shutdown_handle();
    let other = handle.clone_handle();
    let mut receiver = m.take_shutdown_receiver().unwrap();
    // Triggering the signal delivers it to the serving loop's end.
    assert!(other.shutdown());
    assert!(receiver.receiver.try_recv().is_ok());
    assert!(receiver.receiver.try_recv().is_err());
    // The channel has capacity one: a second pending trigger is refused
    // until the first is consumed.
    assert!(handle.shutdown());
    assert!(!handle.shutdown());
}

#[test]
fn later_registration_for_a_code_wins() {
    let mut rocket: Rocket<u64> = Rocket::ignite()
        .register(vec![Catcher { code: 404, is_default: false, handler: CatcherRef::User(1) }])
        .register(vec![Catcher { code: 404, is_default: false, handler: CatcherRef::User(2) }]);
    assert!(rocket.actualize_manifest().is_ok());
    let m = rocket.inspect().unwrap();
    assert_eq!(m.catchers.lookup_for_error(404).handler, CatcherRef::User(2));
}

#[test]
fn all_five_hook_phases_are_reachable() {
    let mut hook = plain_fairing("everywhere");
    hook.on_launch = true;
    hook.on_request = true;
    hook.on_response = true;
    hook.on_shutdown = true;
    hook.callback = 44;
    let rocket: Rocket<u64> = Rocket::ignite().attach(hook).attach(plain_fairing("quiet"));
    let m = rocket.actualize_and_take_manifest().unwrap();
    assert_eq!(m.fairings.launch_hooks(), vec![0]);
    assert_eq!(m.fairings.request_hooks(), vec![0]);
    assert_eq!(m.fairings.response_hooks(), vec![0]);
    assert_eq!(m.fairings.shutdown_hooks(), vec![0]);
    assert!(m.fairings.all[0].on_launch && m.fairings.all[0].on_shutdown);
}

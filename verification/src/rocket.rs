//! The build pipeline and the frozen snapshot it produces.
//!
//! A [`Rocket`] accumulates deferred build operations; [`Rocket::actualize_manifest`]
//! drains them in FIFO order into the [`Manifest`], the queryable snapshot of
//! routes, catchers, managed state and hooks that dispatch reads. Attaching a
//! hook may enqueue further operations; they drain before anything queued
//! after the hook, re-entrantly, before the pipeline counts as actualized.
//!
//! What draining does is pinned mathematically: [`drained`] folds a queue
//! over a snapshot's [`BuildModel`], and actualization ensures the
//! manifest's model equals that fold — succeeding exactly when
//! [`crate::ops::drain_ok`] says so, and keeping, on failure, the effects
//! of every operation before the fatal one.

use vstd::prelude::*;
use crate::config::Config;
use crate::router::{Router, Route, collide};
use crate::catcher::{CatcherTable, Catcher, CatcherRef, has_code, is_default_code, register_all, lemma_register_all_snoc};
use crate::store::StateContainer;
use crate::ops::{BuildOp, Fairing, Fairings, op_weight, ops_weight, lemma_ops_weight_concat, drain_ok};
use crate::uri::{Origin, Segment, resolve, fixed_of};
use crate::error::{BuildError, LaunchError};
use crate::http::{clone_strings, Method};
use crate::shutdown::{ShutdownHandle, ShutdownReceiver};

verus! {

/// The state of an unlaunched instance: configuration, the route and
/// catcher tables, managed state, and the attached hooks.
pub struct Manifest<S> {
    pub config: Config,
    pub router: Router,
    /// The seeded default catchers; never removed, only shadowed.
    pub default_catchers: CatcherTable,
    /// The active catchers: the defaults, overlaid by user registrations.
    pub catchers: CatcherTable,
    pub state: StateContainer<S>,
    pub fairings: Fairings<S>,
    pub shutdown_handle: ShutdownHandle,
    pub shutdown_receiver: Option<ShutdownReceiver>,
}

/// A mounted table entry stands for a declared route: same method, rank and
/// handler, with the declared pattern resolved against the mount base.
pub open spec fn entry_resolves(e: Route, base_segments: Seq<String>, declared: Route) -> bool {
    &&& e.method == declared.method
    &&& e.rank == declared.rank
    &&& e.handler == declared.handler
    &&& e.base@ == base_segments
    &&& e.segments@ == fixed_of(base_segments) + declared.segments@
}

/// The table holds an entry that stands for `declared` mounted under the
/// given base.
pub open spec fn mounted_entry_for(table: Seq<Route>, base_segments: Seq<String>, declared: Route) -> bool {
    exists|e: Route| #[trigger] table.contains(e) && entry_resolves(e, base_segments, declared)
}

// ------------------------------------------------------------------
// The snapshot model: what a sequence of build operations does.
// ------------------------------------------------------------------

/// The mathematical content of one route-table entry.
#[verifier::ext_equal]
pub struct RouteModel {
    pub method: Method,
    pub base: Seq<String>,
    pub segments: Seq<Segment>,
    pub rank: i32,
    pub handler: u64,
}

/// What a route-table entry says.
pub open spec fn route_model_of(r: Route) -> RouteModel {
    RouteModel {
        method: r.method,
        base: r.base@,
        segments: r.segments@,
        rank: r.rank,
        handler: r.handler,
    }
}

/// The entry a declared route becomes when mounted under a base.
pub open spec fn resolved_model(base_segments: Seq<String>, declared: Route) -> RouteModel {
    RouteModel {
        method: declared.method,
        base: base_segments,
        segments: fixed_of(base_segments) + declared.segments@,
        rank: declared.rank,
        handler: declared.handler,
    }
}

/// Where a new route of the given rank goes: after every entry of rank at
/// most the new one, before the first of a higher rank — rank order with
/// mount-order ties.
pub open spec fn insert_pos(rs: Seq<RouteModel>, rank: i32) -> int
    decreases rs.len(),
{
    if rs.len() == 0 {
        0int
    } else if rs[0].rank > rank {
        0int
    } else {
        1 + insert_pos(rs.drop_first(), rank)
    }
}

/// Under rank order, the insertion frontier is unique: any index with only
/// lower-or-equal ranks before it and only higher ranks from it on is
/// `insert_pos`.
pub proof fn lemma_insert_pos_unique(rs: Seq<RouteModel>, rank: i32, k: int)
    requires
        0 <= k <= rs.len(),
        forall|j: int| 0 <= j < k ==> (#[trigger] rs[j].rank) <= rank,
        forall|j: int| k <= j < rs.len() ==> (#[trigger] rs[j].rank) > rank,
    ensures
        k == insert_pos(rs, rank),
    decreases rs.len(),
{
    if rs.len() == 0 {
    } else if rs[0].rank > rank {
        if k > 0 {
            assert(rs[0].rank <= rank);
        }
    } else {
        assert(k > 0);
        let rest = rs.drop_first();
        assert forall|j: int| 0 <= j < k - 1 implies (#[trigger] rest[j].rank) <= rank by {
            assert(rs[j + 1].rank <= rank);
        }
        assert forall|j: int| k - 1 <= j < rest.len() implies (#[trigger] rest[j].rank) > rank by {
            assert(rs[j + 1].rank > rank);
        }
        lemma_insert_pos_unique(rest, rank, k - 1);
    }
}

/// Mounting one list of declared routes: each resolved entry goes in at
/// its rank position, in declaration order.
pub open spec fn mount_fold(
    rs: Seq<RouteModel>,
    base_segments: Seq<String>,
    declared: Seq<Route>,
) -> Seq<RouteModel>
    decreases declared.len(),
{
    if declared.len() == 0 {
        rs
    } else {
        let entry = resolved_model(base_segments, declared[0]);
        mount_fold(rs.insert(insert_pos(rs, entry.rank), entry), base_segments, declared.drop_first())
    }
}

/// Folding one more declared route onto the end of a mount.
pub proof fn lemma_mount_fold_snoc(
    rs: Seq<RouteModel>,
    base_segments: Seq<String>,
    declared: Seq<Route>,
    r: Route,
)
    ensures
        mount_fold(rs, base_segments, declared.push(r)) == {
            let folded = mount_fold(rs, base_segments, declared);
            let entry = resolved_model(base_segments, r);
            folded.insert(insert_pos(folded, entry.rank), entry)
        },
    decreases declared.len(),
{
    let snoc = declared.push(r);
    if declared.len() == 0 {
        let entry = resolved_model(base_segments, r);
        let rs2 = rs.insert(insert_pos(rs, entry.rank), entry);
        assert(snoc[0] == r);
        assert(snoc.drop_first() =~= declared);
        assert(mount_fold(rs, base_segments, snoc) == mount_fold(rs2, base_segments, declared));
        assert(mount_fold(rs2, base_segments, declared) == rs2);
        assert(mount_fold(rs, base_segments, declared) == rs);
    } else {
        assert(snoc[0] == declared[0]);
        assert(snoc.drop_first() =~= declared.drop_first().push(r));
        let entry0 = resolved_model(base_segments, declared[0]);
        let rs2 = rs.insert(insert_pos(rs, entry0.rank), entry0);
        assert(mount_fold(rs, base_segments, snoc) == mount_fold(
            rs2,
            base_segments,
            declared.drop_first().push(r),
        ));
        lemma_mount_fold_snoc(rs2, base_segments, declared.drop_first(), r);
        assert(mount_fold(rs, base_segments, declared) == mount_fold(
            rs2,
            base_segments,
            declared.drop_first(),
        ));
    }
}

/// The mathematical content of a stored lifecycle hook; its build-time
/// operations are consumed when it attaches and do not survive into the
/// snapshot.
#[verifier::ext_equal]
pub struct HookModel {
    pub name: String,
    pub on_launch: bool,
    pub on_request: bool,
    pub on_response: bool,
    pub on_shutdown: bool,
    pub callback: u64,
    pub attach_ok: bool,
}

/// What a stored hook says.
pub open spec fn hook_model_of<S>(f: Fairing<S>) -> HookModel {
    HookModel {
        name: f.name,
        on_launch: f.on_launch,
        on_request: f.on_request,
        on_response: f.on_response,
        on_shutdown: f.on_shutdown,
        callback: f.callback,
        attach_ok: f.attach_ok,
    }
}

/// The models of a route-table view.
pub open spec fn route_models(rs: Seq<Route>) -> Seq<RouteModel> {
    rs.map_values(|r: Route| route_model_of(r))
}

/// The models of a stored hook list.
pub open spec fn hook_models<S>(fs: Seq<Fairing<S>>) -> Seq<HookModel> {
    fs.map_values(|f: Fairing<S>| hook_model_of(f))
}

/// Inserting into a route table and taking models commute.
pub proof fn lemma_route_models_insert(rs: Seq<Route>, k: int, r: Route)
    requires
        0 <= k <= rs.len(),
    ensures
        route_models(rs.insert(k, r)) == route_models(rs).insert(k, route_model_of(r)),
{
    rs.insert_ensures(k, r);
    route_models(rs).insert_ensures(k, route_model_of(r));
    assert(route_models(rs.insert(k, r)) =~= route_models(rs).insert(k, route_model_of(r)));
}

/// The snapshot's mathematical content: everything the build pipeline can
/// change.
#[verifier::ext_equal]
pub struct BuildModel<S> {
    pub routes: Seq<RouteModel>,
    pub catchers: Seq<Catcher>,
    pub state: Map<u64, S>,
    pub hooks: Seq<HookModel>,
    pub failures: Seq<String>,
}

/// A manifest's snapshot model.
pub open spec fn manifest_model<S>(m: Manifest<S>) -> BuildModel<S> {
    BuildModel {
        routes: route_models(m.router@),
        catchers: m.catchers@,
        state: m.state@,
        hooks: hook_models(m.fairings.all@),
        failures: m.fairings.failures@,
    }
}

/// What draining a queue of operations does to the snapshot, in FIFO
/// order, with an attach hook's own operations spliced in at the head: a
/// mount inserts each resolved route at its rank position, a registration
/// folds onto the catcher table, a manage inserts under a fresh type key,
/// and an attach records the hook (and its failure, if it reported one).
/// Draining stops at the first fatal operation — a mount base with a
/// query, or a duplicate type key — leaving the effects before it.
pub open spec fn drained<S>(b: BuildModel<S>, ops: Seq<BuildOp<S>>) -> BuildModel<S>
    decreases ops_weight(ops),
    via drained_decreases::<S>
{
    if ops.len() == 0 {
        b
    } else {
        match ops[0] {
            BuildOp::Mount(base, routes) => if base.query is Some {
                b
            } else {
                drained(
                    BuildModel { routes: mount_fold(b.routes, base.segments@, routes@), ..b },
                    ops.drop_first(),
                )
            },
            BuildOp::Register(cs) => drained(
                BuildModel { catchers: register_all(b.catchers, cs@), ..b },
                ops.drop_first(),
            ),
            BuildOp::Manage(k, v) => if b.state.contains_key(k) {
                b
            } else {
                drained(BuildModel { state: b.state.insert(k, v), ..b }, ops.drop_first())
            },
            BuildOp::Attach(f) => drained(
                BuildModel {
                    hooks: b.hooks.push(hook_model_of(f)),
                    failures: if f.attach_ok {
                        b.failures
                    } else {
                        b.failures.push(f.name)
                    },
                    ..b
                },
                f.attach_ops@ + ops.drop_first(),
            ),
        }
    }
}

#[via_fn]
proof fn drained_decreases<S>(b: BuildModel<S>, ops: Seq<BuildOp<S>>) {
    if ops.len() > 0 {
        assert(ops_weight(ops) == op_weight(ops[0]) + ops_weight(ops.drop_first()));
        match ops[0] {
            BuildOp::Attach(f) => {
                lemma_ops_weight_concat(f.attach_ops@, ops.drop_first());
            },
            _ => {},
        }
    }
}

impl<S> Manifest<S> {
    /// The tables are well formed and a 500 catcher is always at hand.
    pub open spec fn wf(&self) -> bool {
        &&& self.router.wf()
        &&& self.catchers.wf()
        &&& self.default_catchers.wf()
        &&& self.state.wf()
    }

    /// All mounted routes, in precedence order.
    pub fn routes(&self) -> (r: &Vec<Route>)
        ensures
            r@ == self.router@,
    {
        self.router.routes()
    }

    /// The managed value for a type key; `None` exactly when the key was
    /// never managed.
    pub fn state(&self, key: u64) -> (r: Option<&S>)
        requires
            self.wf(),
        ensures
            match r {
                Some(v) => self.state@.contains_key(key) && *v == self.state@[key],
                None => !self.state@.contains_key(key),
            },
    {
        self.state.try_get(key)
    }

    /// The active configuration.
    pub fn config(&self) -> (r: &Config)
        ensures
            *r == self.config,
    {
        &self.config
    }

    /// A capability to trigger graceful shutdown of this instance.
    pub fn get_shutdown_handle(&self) -> ShutdownHandle {
        self.shutdown_handle.clone_handle()
    }

    /// Whether the receiving end of the shutdown signal is still here.
    pub open spec fn has_shutdown_receiver(&self) -> bool {
        self.shutdown_receiver is Some
    }

    /// Hands the receiving end of the shutdown signal out, once; the
    /// serving loop waits on it.
    pub fn take_shutdown_receiver(&mut self) -> (r: Option<ShutdownReceiver>)
        ensures
            r is Some <==> old(self).has_shutdown_receiver(),
            !final(self).has_shutdown_receiver(),
            final(self).config == old(self).config,
            final(self).router == old(self).router,
            final(self).default_catchers == old(self).default_catchers,
            final(self).catchers == old(self).catchers,
            final(self).state == old(self).state,
            final(self).fairings == old(self).fairings,
    {
        self.shutdown_receiver.take()
    }

    /// Freezes managed state for synchronization-free reads while serving.
    pub fn freeze(&mut self)
        ensures
            final(self).state.frozen(),
            final(self).state@ == old(self).state@,
            final(self).state.wf() == old(self).state.wf(),
            final(self).config == old(self).config,
            final(self).router == old(self).router,
            final(self).default_catchers == old(self).default_catchers,
            final(self).catchers == old(self).catchers,
            final(self).fairings == old(self).fairings,
    {
        self.state.freeze();
    }

    /// The pre-launch check, run once after full actualization: no route
    /// collisions, and no attach hook reported failure.
    pub fn prelaunch_check(&self) -> (r: Result<(), LaunchError>)
        requires
            self.wf(),
        ensures
            match r {
                Ok(()) => (forall|i: int, j: int|
                    0 <= i < j < self.router@.len() ==> !collide(
                        &self.router@[i],
                        &self.router@[j],
                    )) && self.fairings.failures@.len() == 0,
                Err(LaunchError::Collision(i, j)) => i < j < self.router@.len() && collide(
                    &self.router@[i as int],
                    &self.router@[j as int],
                ),
                Err(LaunchError::FailedFairings(names)) => names@ == self.fairings.failures@
                    && names@.len() > 0,
            },
    {
        match self.router.collisions() {
            Err((i, j)) => Err(LaunchError::Collision(i, j)),
            Ok(()) => {
                if self.fairings.failures.len() > 0 {
                    Err(LaunchError::FailedFairings(clone_strings(&self.fairings.failures)))
                } else {
                    Ok(())
                }
            },
        }
    }

    /// Mounts routes under a base: each declared pattern is resolved
    /// against the base and the result added to the route table. A base
    /// carrying a query component is an invalid mount point.
    fn mount_routes(&mut self, base: Origin, routes: Vec<Route>) -> (r: Result<(), BuildError>)
        requires
            old(self).wf(),
        ensures
            final(self).wf(),
            r is Ok <==> base.query is None,
            r is Err ==> *final(self) == *old(self) && r == Err::<(), BuildError>(
                BuildError::InvalidMountBase,
            ),
            r is Ok ==> {
                &&& route_models(final(self).router@) == mount_fold(
                    route_models(old(self).router@),
                    base.segments@,
                    routes@,
                )
                &&& final(self).router@.len() == old(self).router@.len() + routes@.len()
                &&& (forall|k: int|
                    0 <= k < routes@.len() ==> mounted_entry_for(
                        final(self).router@,
                        base.segments@,
                        #[trigger] routes@[k],
                    ))
                &&& (forall|y: Route|
                    old(self).router@.contains(y) ==> final(self).router@.contains(y))
                &&& final(self).config == old(self).config
                &&& final(self).default_catchers == old(self).default_catchers
                &&& final(self).catchers == old(self).catchers
                &&& final(self).state == old(self).state
                &&& final(self).fairings == old(self).fairings
                &&& final(self).shutdown_handle == old(self).shutdown_handle
                &&& final(self).shutdown_receiver == old(self).shutdown_receiver
            },
    {
        if base.query.is_some() {
            return Err(BuildError::InvalidMountBase);
        }
        let mut routes = routes;
        let ghost all = routes@;
        let mut i: usize = 0;
        let n = routes.len();
        while i < n
            invariant
                i <= n,
                n == all.len(),
                routes@ == all.skip(i as int),
                self.wf(),
                route_models(self.router@) == mount_fold(
                    route_models(old(self).router@),
                    base.segments@,
                    all.take(i as int),
                ),
                self.router@.len() == old(self).router@.len() + i,
                forall|k: int|
                    0 <= k < i ==> mounted_entry_for(self.router@, base.segments@, #[trigger] all[k]),
                forall|y: Route| old(self).router@.contains(y) ==> self.router@.contains(y),
                self.config == old(self).config,
                self.default_catchers == old(self).default_catchers,
                self.catchers == old(self).catchers,
                self.state == old(self).state,
                self.fairings == old(self).fairings,
                self.shutdown_handle == old(self).shutdown_handle,
                self.shutdown_receiver == old(self).shutdown_receiver,
            decreases n - i,
        {
            let declared = routes.remove(0);
            proof {
                assert(all.skip(i as int)[0] == all[i as int]);
                assert(all.skip(i as int).drop_first() =~= all.skip(i + 1));
            }
            let resolved = resolve(&base.segments, &declared.segments);
            let entry = Route {
                method: declared.method,
                base: clone_strings(&base.segments),
                segments: resolved,
                rank: declared.rank,
                handler: declared.handler,
            };
            proof {
                assert(entry_resolves(entry, base.segments@, all[i as int]));
            }
            let ghost new_entry = entry;
            let ghost prev_router = self.router@;
            self.router.add(entry);
            proof {
                let k = choose|k: int|
                    {
                        &&& 0 <= k <= prev_router.len()
                        &&& (forall|j: int|
                            0 <= j < k ==> (#[trigger] prev_router[j].rank) <= new_entry.rank)
                        &&& (forall|j: int|
                            k <= j < prev_router.len() ==> (#[trigger] prev_router[j].rank)
                                > new_entry.rank)
                        &&& self.router@ == prev_router.insert(k, new_entry)
                    };
                let models0 = route_models(prev_router);
                assert forall|j: int| 0 <= j < k implies (#[trigger] models0[j].rank)
                    <= new_entry.rank by {
                    assert(prev_router[j].rank <= new_entry.rank);
                }
                assert forall|j: int| k <= j < models0.len() implies (#[trigger] models0[j].rank)
                    > new_entry.rank by {
                    assert(prev_router[j].rank > new_entry.rank);
                }
                lemma_insert_pos_unique(models0, new_entry.rank, k);
                lemma_route_models_insert(prev_router, k, new_entry);
                assert(route_model_of(new_entry) =~= resolved_model(base.segments@, all[i as int]));
                lemma_mount_fold_snoc(
                    route_models(old(self).router@),
                    base.segments@,
                    all.take(i as int),
                    all[i as int],
                );
                assert(all.take(i + 1) =~= all.take(i as int).push(all[i as int]));
                assert(self.router@.contains(new_entry));
                assert forall|k: int| 0 <= k < i + 1 implies mounted_entry_for(
                    self.router@,
                    base.segments@,
                    #[trigger] all[k],
                ) by {
                    if k < i {
                        let e = choose|e: Route|
                            #[trigger] prev_router.contains(e) && entry_resolves(
                                e,
                                base.segments@,
                                all[k],
                            );
                        assert(self.router@.contains(e));
                    } else {
                        assert(self.router@.contains(new_entry) && entry_resolves(
                            new_entry,
                            base.segments@,
                            all[k],
                        ));
                    }
                }
            }
            i += 1;
        }
        proof {
            assert(all.take(all.len() as int) =~= all);
        }
        Ok(())
    }

    /// Registers catchers, in order; each overwrites any existing entry
    /// for its code or appends a new one, so the last registration for a
    /// code wins.
    fn register_catchers(&mut self, catchers: Vec<Catcher>)
        requires
            old(self).wf(),
        ensures
            final(self).wf(),
            final(self).catchers@ == register_all(old(self).catchers@, catchers@),
            forall|k: int|
                0 <= k < catchers@.len() ==> has_code(
                    final(self).catchers@,
                    (#[trigger] catchers@[k]).code,
                ),
            final(self).config == old(self).config,
            final(self).router == old(self).router,
            final(self).default_catchers == old(self).default_catchers,
            final(self).state == old(self).state,
            final(self).fairings == old(self).fairings,
            final(self).shutdown_handle == old(self).shutdown_handle,
            final(self).shutdown_receiver == old(self).shutdown_receiver,
    {
        let mut catchers = catchers;
        let ghost all = catchers@;
        let mut i: usize = 0;
        let n = catchers.len();
        while i < n
            invariant
                i <= n,
                n == all.len(),
                catchers@ == all.skip(i as int),
                self.wf(),
                self.catchers@ == register_all(old(self).catchers@, all.take(i as int)),
                forall|k: int|
                    0 <= k < i ==> has_code(self.catchers@, (#[trigger] all[k]).code),
                self.config == old(self).config,
                self.router == old(self).router,
                self.default_catchers == old(self).default_catchers,
                self.state == old(self).state,
                self.fairings == old(self).fairings,
                self.shutdown_handle == old(self).shutdown_handle,
                self.shutdown_receiver == old(self).shutdown_receiver,
            decreases n - i,
        {
            let c = catchers.remove(0);
            proof {
                assert(all.skip(i as int)[0] == all[i as int]);
                assert(all.skip(i as int).drop_first() =~= all.skip(i + 1));
            }
            let ghost before = self.catchers@;
            let ghost newc = c;
            self.catchers.register(c);
            proof {
                lemma_register_all_snoc(old(self).catchers@, all.take(i as int), all[i as int]);
                assert(all.take(i + 1) =~= all.take(i as int).push(all[i as int]));
                assert forall|k: int| 0 <= k < i + 1 implies has_code(
                    self.catchers@,
                    (#[trigger] all[k]).code,
                ) by {
                    if k < i {
                        let w = choose|w: int|
                            0 <= w < before.len() && (#[trigger] before[w].code) == all[k].code;
                        if before[w].code == newc.code {
                            let v = choose|v: int|
                                0 <= v < self.catchers@.len() && (#[trigger] self.catchers@[v].code)
                                    == newc.code;
                        } else {
                            assert(self.catchers@.contains(before[w]));
                            let v = choose|v: int|
                                0 <= v < self.catchers@.len() && self.catchers@[v] == before[w];
                            assert(self.catchers@[v].code == all[k].code);
                        }
                    }
                }
            }
            i += 1;
        }
        proof {
            assert(all.take(all.len() as int) =~= all);
        }
    }

    /// Inserts a managed value; a duplicate type key is a fatal build
    /// error.
    fn manage_value(&mut self, key: u64, value: S) -> (r: Result<(), BuildError>)
        requires
            old(self).wf(),
            !old(self).state.frozen(),
        ensures
            final(self).wf(),
            !final(self).state.frozen(),
            r is Ok <==> !old(self).state@.contains_key(key),
            r is Ok ==> final(self).state@ == old(self).state@.insert(key, value),
            r is Err ==> final(self).state@ == old(self).state@ && r == Err::<(), BuildError>(
                BuildError::DuplicateManage(key),
            ),
            final(self).config == old(self).config,
            final(self).router == old(self).router,
            final(self).default_catchers == old(self).default_catchers,
            final(self).catchers == old(self).catchers,
            final(self).fairings == old(self).fairings,
            final(self).shutdown_handle == old(self).shutdown_handle,
            final(self).shutdown_receiver == old(self).shutdown_receiver,
    {
        if self.state.set(key, value) {
            Ok(())
        } else {
            Err(BuildError::DuplicateManage(key))
        }
    }
}

/// The build pipeline: a snapshot under construction plus the queue of
/// deferred operations not yet applied to it.
pub struct Rocket<S> {
    pub manifest: Manifest<S>,
    pub pending: Vec<BuildOp<S>>,
}

impl<S> Rocket<S> {
    /// The snapshot's tables are well formed and its state is not yet
    /// frozen: freezing happens at launch, after the pipeline drains.
    pub open spec fn wf(&self) -> bool {
        &&& self.manifest.wf()
        &&& !self.manifest.state.frozen()
    }

    fn configured(config: Config) -> (r: Rocket<S>)
        ensures
            r.wf(),
            r.pending@.len() == 0,
            r.manifest.config == config,
            r.manifest.router@.len() == 0,
            forall|c: u16| has_code(r.manifest.catchers@, c) == is_default_code(c),
            forall|i: int|
                0 <= i < r.manifest.catchers@.len() ==> (#[trigger] r.manifest.catchers@[
                i].is_default) && r.manifest.catchers@[i].handler == CatcherRef::BuiltIn,
            forall|c: u16| has_code(r.manifest.default_catchers@, c) == is_default_code(c),
            forall|i: int|
                0 <= i < r.manifest.default_catchers@.len() ==> (
                #[trigger] r.manifest.default_catchers@[i].is_default)
                    && r.manifest.default_catchers@[i].handler == CatcherRef::BuiltIn,
            r.manifest.state@ == Map::<u64, S>::empty(),
            r.manifest.fairings.all@.len() == 0,
            r.manifest.fairings.failures@.len() == 0,
            r.manifest.has_shutdown_receiver(),
    {
        let (handle, receiver) = ShutdownHandle::fresh();
        let manifest = Manifest {
            config,
            router: Router::new(),
            default_catchers: CatcherTable::defaults(),
            catchers: CatcherTable::defaults(),
            state: StateContainer::new(),
            fairings: Fairings::new(),
            shutdown_handle: handle,
            shutdown_receiver: Some(receiver),
        };
        Rocket { manifest, pending: Vec::new() }
    }

    /// A new instance with the default configuration: no routes, no
    /// managed state, no hooks, both catcher layers seeded with the
    /// defaults, and the shutdown receiver in place.
    pub fn ignite() -> (r: Rocket<S>)
        ensures
            r.wf(),
            r.pending@.len() == 0,
            r.manifest.router@.len() == 0,
            forall|c: u16| has_code(r.manifest.catchers@, c) == is_default_code(c),
            forall|i: int|
                0 <= i < r.manifest.catchers@.len() ==> (#[trigger] r.manifest.catchers@[
                i].is_default) && r.manifest.catchers@[i].handler == CatcherRef::BuiltIn,
            forall|c: u16| has_code(r.manifest.default_catchers@, c) == is_default_code(c),
            forall|i: int|
                0 <= i < r.manifest.default_catchers@.len() ==> (
                #[trigger] r.manifest.default_catchers@[i].is_default)
                    && r.manifest.default_catchers@[i].handler == CatcherRef::BuiltIn,
            r.manifest.state@ == Map::<u64, S>::empty(),
            r.manifest.fairings.all@.len() == 0,
            r.manifest.fairings.failures@.len() == 0,
            r.manifest.has_shutdown_receiver(),
    {
        let r = Rocket::configured(Config::default());
        proof {
            assert forall|i: int| 0 <= i < r.manifest.catchers@.len() implies (
            #[trigger] r.manifest.catchers@[i].is_default) && r.manifest.catchers@[i].handler
                == CatcherRef::BuiltIn by {
                assert(r.manifest.catchers@[i].is_default);
            }
            assert forall|i: int| 0 <= i < r.manifest.default_catchers@.len() implies (
            #[trigger] r.manifest.default_catchers@[i].is_default)
                && r.manifest.default_catchers@[i].handler == CatcherRef::BuiltIn by {
                assert(r.manifest.default_catchers@[i].is_default);
            }
        }
        r
    }

    /// A new instance with the supplied configuration, seeded like
    /// [`Rocket::ignite`].
    pub fn custom(config: Config) -> (r: Rocket<S>)
        ensures
            r.wf(),
            r.pending@.len() == 0,
            r.manifest.config == config,
            r.manifest.router@.len() == 0,
            forall|c: u16| has_code(r.manifest.catchers@, c) == is_default_code(c),
            forall|i: int|
                0 <= i < r.manifest.catchers@.len() ==> (#[trigger] r.manifest.catchers@[
                i].is_default) && r.manifest.catchers@[i].handler == CatcherRef::BuiltIn,
            forall|c: u16| has_code(r.manifest.default_catchers@, c) == is_default_code(c),
            forall|i: int|
                0 <= i < r.manifest.default_catchers@.len() ==> (
                #[trigger] r.manifest.default_catchers@[i].is_default)
                    && r.manifest.default_catchers@[i].handler == CatcherRef::BuiltIn,
            r.manifest.state@ == Map::<u64, S>::empty(),
            r.manifest.fairings.all@.len() == 0,
            r.manifest.fairings.failures@.len() == 0,
            r.manifest.has_shutdown_receiver(),
    {
        let r = Rocket::configured(config);
        proof {
            assert forall|i: int| 0 <= i < r.manifest.catchers@.len() implies (
            #[trigger] r.manifest.catchers@[i].is_default) && r.manifest.catchers@[i].handler
                == CatcherRef::BuiltIn by {
                assert(r.manifest.catchers@[i].is_default);
            }
            assert forall|i: int| 0 <= i < r.manifest.default_catchers@.len() implies (
            #[trigger] r.manifest.default_catchers@[i].is_default)
                && r.manifest.default_catchers@[i].handler == CatcherRef::BuiltIn by {
                assert(r.manifest.default_catchers@[i].is_default);
            }
        }
        r
    }

    /// Queues mounting `routes` under `base`. A base with a query
    /// component is not a valid mount point.
    pub fn mount(self, base: Origin, routes: Vec<Route>) -> (r: Rocket<S>)
        requires
            base.query is None,
        ensures
            r.manifest == self.manifest,
            r.pending@ == self.pending@.push(BuildOp::Mount(base, routes)),
    {
        let mut this = self;
        this.pending.push(BuildOp::Mount(base, routes));
        this
    }

    /// Queues registering catchers.
    pub fn register(self, catchers: Vec<Catcher>) -> (r: Rocket<S>)
        ensures
            r.manifest == self.manifest,
            r.pending@ == self.pending@.push(BuildOp::Register(catchers)),
    {
        let mut this = self;
        this.pending.push(BuildOp::Register(catchers));
        this
    }

    /// Queues managing a value under a type key; inserting a key twice is
    /// a fatal build error when the pipeline drains.
    pub fn manage(self, key: u64, value: S) -> (r: Rocket<S>)
        ensures
            r.manifest == self.manifest,
            r.pending@ == self.pending@.push(BuildOp::Manage(key, value)),
    {
        let mut this = self;
        this.pending.push(BuildOp::Manage(key, value));
        this
    }

    /// Queues attaching a lifecycle hook.
    pub fn attach(self, fairing: Fairing<S>) -> (r: Rocket<S>)
        ensures
            r.manifest == self.manifest,
            r.pending@ == self.pending@.push(BuildOp::Attach(fairing)),
    {
        let mut this = self;
        this.pending.push(BuildOp::Attach(fairing));
        this
    }

    /// Drains the queue in FIFO order, applying each operation to the
    /// snapshot. An attach hook's own operations are spliced in at the
    /// head and drain first. Draining succeeds — exactly when no mount
    /// base carries a query and no managed type key is inserted twice —
    /// and an already-drained pipeline actualizes to itself, without
    /// error.
    pub fn actualize_manifest(&mut self) -> (r: Result<(), BuildError>)
        requires
            old(self).wf(),
        ensures
            final(self).wf(),
            (r is Ok) == drain_ok(old(self).manifest.state@.dom(), old(self).pending@),
            r is Ok ==> final(self).pending@.len() == 0,
            old(self).pending@.len() == 0 ==> r is Ok && *final(self) == *old(self),
            manifest_model(final(self).manifest) == drained(
                manifest_model(old(self).manifest),
                old(self).pending@,
            ),
            final(self).manifest.config == old(self).manifest.config,
            final(self).manifest.default_catchers == old(self).manifest.default_catchers,
            final(self).manifest.shutdown_handle == old(self).manifest.shutdown_handle,
            final(self).manifest.shutdown_receiver == old(self).manifest.shutdown_receiver,
            forall|y: Route|
                #[trigger] old(self).manifest.router@.contains(y)
                    ==> final(self).manifest.router@.contains(y),
            forall|k: u64|
                #[trigger] old(self).manifest.state@.contains_key(k)
                    ==> final(self).manifest.state@.contains_key(k)
                    && final(self).manifest.state@[k] == old(self).manifest.state@[k],
            old(self).manifest.fairings.all@.len() <= final(self).manifest.fairings.all@.len(),
            final(self).manifest.fairings.all@.take(old(self).manifest.fairings.all@.len() as int)
                == old(self).manifest.fairings.all@,
    {
        if self.pending.len() == 0 {
            return Ok(());
        }
        while self.pending.len() > 0
            invariant
                self.wf(),
                old(self).pending@.len() > 0,
                drain_ok(old(self).manifest.state@.dom(), old(self).pending@) == drain_ok(
                    self.manifest.state@.dom(),
                    self.pending@,
                ),
                drained(manifest_model(old(self).manifest), old(self).pending@) == drained(
                    manifest_model(self.manifest),
                    self.pending@,
                ),
                self.manifest.config == old(self).manifest.config,
                self.manifest.default_catchers == old(self).manifest.default_catchers,
                self.manifest.shutdown_handle == old(self).manifest.shutdown_handle,
                self.manifest.shutdown_receiver == old(self).manifest.shutdown_receiver,
                forall|y: Route|
                    #[trigger] old(self).manifest.router@.contains(y)
                        ==> self.manifest.router@.contains(y),
                forall|k: u64|
                    #[trigger] old(self).manifest.state@.contains_key(k)
                        ==> self.manifest.state@.contains_key(k)
                        && self.manifest.state@[k] == old(self).manifest.state@[k],
                old(self).manifest.fairings.all@.len() <= self.manifest.fairings.all@.len(),
                self.manifest.fairings.all@.take(old(self).manifest.fairings.all@.len() as int)
                    == old(self).manifest.fairings.all@,
            decreases ops_weight(self.pending@),
        {
            let ghost before = self.pending@;
            let ghost keys0 = self.manifest.state@.dom();
            let ghost mb = manifest_model(self.manifest);
            let op = self.pending.remove(0);
            proof {
                assert(before.remove(0) =~= before.drop_first());
                assert(before[0] == op);
                assert(ops_weight(before) == op_weight(op) + ops_weight(self.pending@));
            }
            match op {
                BuildOp::Mount(base, routes) => {
                    let ghost q = base.query;
                    let ghost gbase = base;
                    let ghost groutes = routes@;
                    match self.manifest.mount_routes(base, routes) {
                        Ok(()) => {
                            proof {
                                assert(q is None);
                                assert(drain_ok(keys0, before) == drain_ok(keys0, self.pending@));
                                assert(manifest_model(self.manifest) =~= (BuildModel {
                                    routes: mount_fold(mb.routes, gbase.segments@, groutes),
                                    ..mb
                                }));
                                assert(drained(mb, before) == drained(
                                    manifest_model(self.manifest),
                                    self.pending@,
                                ));
                            }
                        },
                        Err(e) => {
                            proof {
                                assert(q is Some);
                                assert(!drain_ok(keys0, before));
                                assert(drained(mb, before) == mb);
                            }
                            return Err(e);
                        },
                    }
                },
                BuildOp::Register(catchers) => {
                    let ghost gcs = catchers@;
                    self.manifest.register_catchers(catchers);
                    proof {
                        assert(drain_ok(keys0, before) == drain_ok(keys0, self.pending@));
                        assert(manifest_model(self.manifest) =~= (BuildModel {
                            catchers: register_all(mb.catchers, gcs),
                            ..mb
                        }));
                        assert(drained(mb, before) == drained(
                            manifest_model(self.manifest),
                            self.pending@,
                        ));
                    }
                },
                BuildOp::Manage(key, value) => {
                    let ghost prev_state = self.manifest.state@;
                    let ghost gval = value;
                    match self.manifest.manage_value(key, value) {
                        Ok(()) => {
                            proof {
                                assert(!keys0.contains(key));
                                assert(self.manifest.state@.dom() =~= keys0.insert(key));
                                assert(drain_ok(keys0, before) == drain_ok(
                                    self.manifest.state@.dom(),
                                    self.pending@,
                                ));
                                assert(!mb.state.contains_key(key));
                                assert(manifest_model(self.manifest) =~= (BuildModel {
                                    state: mb.state.insert(key, gval),
                                    ..mb
                                }));
                                assert(drained(mb, before) == drained(
                                    manifest_model(self.manifest),
                                    self.pending@,
                                ));
                                assert forall|k: u64|
                                    old(self).manifest.state@.contains_key(k) implies self.manifest
                                    .state@.contains_key(k) && self.manifest.state@[k] == old(
                                    self,
                                ).manifest.state@[k] by {
                                    assert(prev_state.contains_key(k));
                                    assert(prev_state[k] == old(self).manifest.state@[k]);
                                    assert(k != key);
                                    assert(self.manifest.state@ == prev_state.insert(key, value));
                                    assert(self.manifest.state@.contains_key(k));
                                    assert(self.manifest.state@[k] == prev_state[k]);
                                }
                            }
                        },
                        Err(e) => {
                            proof {
                                assert(keys0.contains(key));
                                assert(!drain_ok(keys0, before));
                                assert(mb.state.contains_key(key));
                                assert(drained(mb, before) == mb);
                            }
                            return Err(e);
                        },
                    }
                },
                BuildOp::Attach(fairing) => {
                    let ghost gf = fairing;
                    let Fairing {
                        name,
                        on_launch,
                        on_request,
                        on_response,
                        on_shutdown,
                        callback,
                        attach_ops,
                        attach_ok,
                    } = fairing;
                    let ghost hook_ops = attach_ops@;
                    let ghost rest = self.pending@;
                    let mut spliced = attach_ops;
                    spliced.append(&mut self.pending);
                    self.pending = spliced;
                    proof {
                        assert(self.pending@ == hook_ops + rest);
                        lemma_ops_weight_concat(hook_ops, rest);
                        assert(drain_ok(keys0, before) == drain_ok(keys0, self.pending@));
                    }
                    // The hook's build-time effect is consumed here; the
                    // stored hook keeps only its run-time callbacks.
                    let ghost prev_all = self.manifest.fairings.all@;
                    self.manifest.fairings.attach(
                        Fairing {
                            name,
                            on_launch,
                            on_request,
                            on_response,
                            on_shutdown,
                            callback,
                            attach_ops: Vec::new(),
                            attach_ok,
                        },
                    );
                    proof {
                        assert(self.manifest.fairings.all@.take(prev_all.len() as int)
                            =~= prev_all);
                        assert(self.manifest.fairings.all@.take(
                            old(self).manifest.fairings.all@.len() as int,
                        ) =~= old(self).manifest.fairings.all@);
                        assert(hook_models(self.manifest.fairings.all@) =~= hook_models(
                            prev_all,
                        ).push(hook_model_of(gf)));
                        assert(manifest_model(self.manifest) =~= (BuildModel {
                            hooks: mb.hooks.push(hook_model_of(gf)),
                            failures: if gf.attach_ok {
                                mb.failures
                            } else {
                                mb.failures.push(gf.name)
                            },
                            ..mb
                        }));
                        assert(drained(mb, before) == drained(
                            manifest_model(self.manifest),
                            self.pending@,
                        ));
                    }
                },
            }
        }
        Ok(())
    }

    /// Actualizes, then hands the snapshot out for reading.
    pub fn inspect(&mut self) -> (r: Result<&Manifest<S>, BuildError>)
        requires
            old(self).wf(),
        ensures
            final(self).wf(),
            (r is Ok) == drain_ok(old(self).manifest.state@.dom(), old(self).pending@),
            manifest_model(final(self).manifest) == drained(
                manifest_model(old(self).manifest),
                old(self).pending@,
            ),
            r is Ok ==> final(self).pending@.len() == 0,
            old(self).pending@.len() == 0 ==> r is Ok && *final(self) == *old(self),
            manifest_model(final(self).manifest) == drained(
                manifest_model(old(self).manifest),
                old(self).pending@,
            ),
            match r {
                Ok(m) => *m == final(self).manifest,
                Err(_) => true,
            },
    {
        match self.actualize_manifest() {
            Ok(()) => Ok(&self.manifest),
            Err(e) => Err(e),
        }
    }

    /// Actualizes, then looks a managed value up.
    pub fn state(&mut self, key: u64) -> (r: Result<Option<&S>, BuildError>)
        requires
            old(self).wf(),
        ensures
            final(self).wf(),
            (r is Ok) == drain_ok(old(self).manifest.state@.dom(), old(self).pending@),
            final(self).manifest.state@ == drained(
                manifest_model(old(self).manifest),
                old(self).pending@,
            ).state,
            match r {
                Ok(Some(v)) => final(self).manifest.state@.contains_key(key) && *v == final(self)
                    .manifest.state@[key],
                Ok(None) => !final(self).manifest.state@.contains_key(key),
                Err(_) => true,
            },
    {
        match self.actualize_manifest() {
            Ok(()) => Ok(self.manifest.state.try_get(key)),
            Err(e) => Err(e),
        }
    }

    /// Actualizes, then hands the active configuration out.
    pub fn config(&mut self) -> (r: Result<&Config, BuildError>)
        requires
            old(self).wf(),
        ensures
            final(self).wf(),
            (r is Ok) == drain_ok(old(self).manifest.state@.dom(), old(self).pending@),
            final(self).manifest.config == old(self).manifest.config,
            match r {
                Ok(c) => *c == final(self).manifest.config,
                Err(_) => true,
            },
    {
        match self.actualize_manifest() {
            Ok(()) => Ok(&self.manifest.config),
            Err(e) => Err(e),
        }
    }

    /// Actualizes and takes the snapshot, consuming the pipeline; what
    /// launching does before it begins serving.
    pub fn actualize_and_take_manifest(self) -> (r: Result<Manifest<S>, BuildError>)
        requires
            self.wf(),
        ensures
            (r is Ok) == drain_ok(self.manifest.state@.dom(), self.pending@),
            match r {
                Ok(m) => {
                    &&& m.wf()
                    &&& !m.state.frozen()
                    &&& manifest_model(m) == drained(manifest_model(self.manifest), self.pending@)
                    &&& m.config == self.manifest.config
                    &&& m.default_catchers == self.manifest.default_catchers
                    &&& m.shutdown_handle == self.manifest.shutdown_handle
                    &&& m.shutdown_receiver == self.manifest.shutdown_receiver
                },
                Err(_) => true,
            },
    {
        let mut this = self;
        match this.actualize_manifest() {
            Ok(()) => Ok(this.manifest),
            Err(e) => Err(e),
        }
    }
}

} // verus!

//! The route table: rank-aware, ordered, with collision detection.

use vstd::prelude::*;
use crate::http::Method;
use crate::uri::{Segment, segs_same, segs_same_exec, pattern_matches, path_view, matches_path};

verus! {

/// A route: a method and a resolved path pattern, with a rank and a handler
/// capability reference. Lower ranks take precedence; ties go to the route
/// mounted first.
pub struct Route {
    pub method: Method,
    /// The path segments of the base the route was mounted under.
    pub base: Vec<String>,
    /// The full, resolved path pattern: the mount base's segments as
    /// literals, followed by the declared pattern.
    pub segments: Vec<Segment>,
    pub rank: i32,
    /// An opaque reference to the handler capability that serves the route.
    pub handler: u64,
}

/// Whether a pattern holds a single dynamic segment.
pub open spec fn has_param(segs: Seq<Segment>) -> bool {
    exists|i: int| 0 <= i < segs.len() && (#[trigger] segs[i]) is Param
}

/// Whether a pattern holds a trailing dynamic segment.
pub open spec fn has_trail(segs: Seq<Segment>) -> bool {
    exists|i: int| 0 <= i < segs.len() && (#[trigger] segs[i]) is Trail
}

/// The default rank of a pattern: fully literal patterns rank 0, patterns
/// with single dynamic segments rank 1, patterns with a trailing dynamic
/// segment rank 2 — so the more a pattern can match, the lower its
/// precedence.
pub open spec fn default_rank(segs: Seq<Segment>) -> i32 {
    if has_trail(segs) {
        2
    } else if has_param(segs) {
        1
    } else {
        0
    }
}

/// Computes the default rank of a pattern.
pub fn default_rank_exec(segs: &Vec<Segment>) -> (r: i32)
    ensures
        r == default_rank(segs@),
{
    let mut param = false;
    let mut trail = false;
    let mut i: usize = 0;
    while i < segs.len()
        invariant
            i <= segs.len(),
            param == exists|j: int| 0 <= j < i && (#[trigger] segs@[j]) is Param,
            trail == exists|j: int| 0 <= j < i && (#[trigger] segs@[j]) is Trail,
        decreases segs.len() - i,
    {
        match &segs[i] {
            Segment::Param(_) => {
                param = true;
            },
            Segment::Trail(_) => {
                trail = true;
            },
            Segment::Fixed(_) => {},
        }
        i += 1;
    }
    if trail {
        2
    } else if param {
        1
    } else {
        0
    }
}

impl Route {
    /// A route with the default rank for its pattern.
    pub fn new(method: Method, segments: Vec<Segment>, handler: u64) -> (r: Route)
        ensures
            r.method == method,
            r.segments == segments,
            r.handler == handler,
            r.rank == default_rank(segments@),
            r.base@.len() == 0,
    {
        let rank = default_rank_exec(&segments);
        Route { method, base: Vec::new(), segments, rank, handler }
    }

    /// A route with an explicit rank.
    pub fn ranked(rank: i32, method: Method, segments: Vec<Segment>, handler: u64) -> (r: Route)
        ensures
            r.method == method,
            r.segments == segments,
            r.handler == handler,
            r.rank == rank,
            r.base@.len() == 0,
    {
        Route { method, base: Vec::new(), segments, rank, handler }
    }
}

/// Whether two routes collide: identical method, identical rank, and the
/// same resolved path pattern. A table holding a colliding pair is an
/// ambiguous configuration and must fail the build before launch.
pub open spec fn collide(a: &Route, b: &Route) -> bool {
    &&& a.method == b.method
    &&& a.rank == b.rank
    &&& segs_same(a.segments@, b.segments@)
}

/// Collision law: two routes collide exactly when their method, rank and
/// resolved path pattern are all identical — a route set whose triples are
/// pairwise distinct can never collide, and introducing two routes with an
/// identical triple always does.
pub proof fn lemma_collision_is_identical_triple(a: &Route, b: &Route)
    ensures
        collide(a, b) <==> (a.method == b.method && a.rank == b.rank && segs_same(
            a.segments@,
            b.segments@,
        )),
{
}

/// Whether a route serves a request with the given method and path.
pub open spec fn route_matches(r: &Route, m: Method, path: Seq<Seq<char>>) -> bool {
    &&& r.method == m
    &&& pattern_matches(r.segments@, path)
}

/// Whether a route sequence is ordered by rank, ascending.
pub open spec fn rank_sorted(rs: Seq<Route>) -> bool {
    forall|i: int, j: int| 0 <= i < j < rs.len() ==> (#[trigger] rs[i].rank) <= #[trigger] rs[j].rank
}

/// The ordered route table.
pub struct Router {
    routes: Vec<Route>,
}

impl Router {
    /// The table's routes, in precedence order.
    pub closed spec fn view(&self) -> Seq<Route> {
        self.routes@
    }

    /// The table keeps its routes ordered by rank.
    pub open spec fn wf(&self) -> bool {
        rank_sorted(self@)
    }

    pub fn new() -> (r: Router)
        ensures
            r@.len() == 0,
            r.wf(),
    {
        Router { routes: Vec::new() }
    }

    /// All routes, in precedence order: rank ascending, ties in mount order.
    pub fn routes(&self) -> (r: &Vec<Route>)
        ensures
            r@ == self@,
    {
        &self.routes
    }

    /// Adds a route, keeping rank order; among routes of equal rank the
    /// earlier-added one keeps precedence.
    pub fn add(&mut self, route: Route)
        requires
            old(self).wf(),
        ensures
            final(self).wf(),
            final(self)@.len() == old(self)@.len() + 1,
            final(self)@.contains(route),
            forall|y: Route| old(self)@.contains(y) ==> final(self)@.contains(y),
            exists|k: int|
                {
                    &&& 0 <= k <= old(self)@.len()
                    &&& (forall|j: int| 0 <= j < k ==> (#[trigger] old(self)@[j].rank) <= route.rank)
                    &&& (forall|j: int|
                        k <= j < old(self)@.len() ==> (#[trigger] old(self)@[j].rank) > route.rank)
                    &&& final(self)@ == old(self)@.insert(k, route)
                },
    {
        let mut pos: usize = 0;
        while pos < self.routes.len() && self.routes[pos].rank <= route.rank
            invariant
                pos <= self.routes.len(),
                forall|j: int| 0 <= j < pos ==> (#[trigger] self.routes@[j].rank) <= route.rank,
        decreases self.routes.len() - pos,
        {
            pos += 1;
        }
        proof {
            assert forall|j: int| pos <= j < self.routes@.len() implies (#[trigger] self.routes@[
            j].rank) > route.rank by {
                assert(self.routes@[pos as int].rank <= self.routes@[j].rank);
            }
        }
        let ghost prev = self.routes@;
        self.routes.insert(pos, route);
        proof {
            prev.insert_ensures(pos as int, route);
            assert(self@[pos as int] == route);
            assert forall|y: Route| prev.contains(y) implies self@.contains(y) by {
                let j = choose|j: int| 0 <= j < prev.len() && prev[j] == y;
                if j < pos {
                    assert(self@[j] == y);
                } else {
                    assert(self@[j + 1] == y);
                }
            }
        }
    }

    /// The indices, in precedence order, of every route that serves the
    /// given method and path.
    pub fn route(&self, m: Method, path: &Vec<String>) -> (r: Vec<usize>)
        ensures
            forall|k: int|
                0 <= k < r@.len() ==> 0 <= #[trigger] r@[k] < self@.len() && route_matches(
                    &self@[r@[k] as int],
                    m,
                    path_view(path@),
                ),
            forall|k1: int, k2: int| 0 <= k1 < k2 < r@.len() ==> r@[k1] < r@[k2],
            forall|i: int|
                0 <= i < self@.len() && route_matches(&self@[i], m, path_view(path@))
                    ==> exists|k: int| 0 <= k < r@.len() && #[trigger] r@[k] == i,
    {
        let mut out: Vec<usize> = Vec::new();
        let mut i: usize = 0;
        while i < self.routes.len()
            invariant
                i <= self.routes@.len(),
                forall|k: int|
                    0 <= k < out@.len() ==> 0 <= #[trigger] out@[k] < i && route_matches(
                        &self@[out@[k] as int],
                        m,
                        path_view(path@),
                    ),
                forall|k1: int, k2: int| 0 <= k1 < k2 < out@.len() ==> out@[k1] < out@[k2],
                forall|j: int|
                    0 <= j < i && route_matches(&self@[j], m, path_view(path@))
                        ==> exists|k: int| 0 <= k < out@.len() && #[trigger] out@[k] == j,
            decreases self.routes@.len() - i,
        {
            let rt = &self.routes[i];
            if rt.method == m && matches_path(&rt.segments, path) {
                let ghost prev = out@;
                out.push(i);
                proof {
                    assert forall|j: int|
                        0 <= j < i + 1 && route_matches(
                            &self@[j],
                            m,
                            path_view(path@),
                        ) implies exists|k: int|
                        0 <= k < out@.len() && #[trigger] out@[k] == j by {
                        if j < i {
                            let k = choose|k: int| 0 <= k < prev.len() && #[trigger] prev[k] == j;
                            assert(out@[k] == j);
                        } else {
                            assert(out@[out@.len() - 1] == i);
                        }
                    }
                }
            }
            i += 1;
        }
        out
    }

    /// Looks for a colliding pair. `Ok` exactly when no two routes in the
    /// table collide; otherwise the indices of a colliding pair.
    pub fn collisions(&self) -> (r: Result<(), (usize, usize)>)
        ensures
            match r {
                Ok(()) => forall|i: int, j: int|
                    0 <= i < j < self@.len() ==> !collide(&self@[i], &self@[j]),
                Err((i, j)) => i < j < self@.len() && collide(&self@[i as int], &self@[j as int]),
            },
    {
        let mut i: usize = 0;
        while i < self.routes.len()
            invariant
                i <= self.routes@.len(),
                forall|x: int, y: int| 0 <= x < y < self@.len() && x < i ==> !collide(
                    &self@[x],
                    &self@[y],
                ),
            decreases self.routes@.len() - i,
        {
            let mut j: usize = i + 1;
            while j < self.routes.len()
                invariant
                    i < j <= self.routes@.len(),
                    forall|y: int| i < y < j ==> !collide(&self@[i as int], &self@[y]),
                decreases self.routes@.len() - j,
            {
                let a = &self.routes[i];
                let b = &self.routes[j];
                if a.method == b.method && a.rank == b.rank && segs_same_exec(
                    &a.segments,
                    &b.segments,
                ) {
                    return Err((i, j));
                }
                j += 1;
            }
            i += 1;
        }
        Ok(())
    }
}

} // verus!

//! Deferred build operations and lifecycle hooks (fairings).
//!
//! Configuration calls do not take effect at once: each queues a
//! [`BuildOp`], and the queue drains in FIFO order when the pipeline
//! actualizes. An attach hook's build-time effect is itself a list of
//! operations; they are spliced in at the queue's head, so whatever a hook
//! appends drains before the operations queued after it — the queue grows
//! re-entrantly while it drains.

use vstd::prelude::*;
use crate::uri::Origin;
use crate::router::Route;
use crate::catcher::Catcher;

verus! {

/// A lifecycle hook. Which phases it takes part in is declared up front;
/// the run-time callbacks are capability references, while the build-time
/// effect of attaching — the operations the hook enqueues, and whether the
/// attachment succeeded — is data the pipeline consumes.
pub struct Fairing<S> {
    pub name: String,
    /// Whether the hook runs at each phase; the run-time phases share one
    /// callback capability reference.
    pub on_launch: bool,
    pub on_request: bool,
    pub on_response: bool,
    pub on_shutdown: bool,
    /// The capability reference for the run-time callbacks.
    pub callback: u64,
    /// The operations attaching this hook enqueues.
    pub attach_ops: Vec<BuildOp<S>>,
    /// Whether the attach-time logic reported success.
    pub attach_ok: bool,
}

/// One deferred build operation.
pub enum BuildOp<S> {
    /// Mount routes under a base path.
    Mount(Origin, Vec<Route>),
    /// Register error catchers.
    Register(Vec<Catcher>),
    /// Insert a managed value under a type key.
    Manage(u64, S),
    /// Attach a lifecycle hook.
    Attach(Fairing<S>),
}

/// How much draining an operation costs: itself, plus — for an attach —
/// everything its hook enqueues. The pipeline's termination measure.
pub open spec fn op_weight<S>(op: BuildOp<S>) -> nat
    decreases op,
{
    match op {
        BuildOp::Attach(f) => 1 + ops_weight(f.attach_ops@),
        _ => 1,
    }
}

/// The total weight of an operation sequence.
pub open spec fn ops_weight<S>(ops: Seq<BuildOp<S>>) -> nat
    decreases ops,
{
    if ops.len() == 0 {
        0
    } else {
        op_weight(ops[0]) + ops_weight(ops.drop_first())
    }
}

/// Weight adds up over concatenation.
pub proof fn lemma_ops_weight_concat<S>(a: Seq<BuildOp<S>>, b: Seq<BuildOp<S>>)
    ensures
        ops_weight(a + b) == ops_weight(a) + ops_weight(b),
    decreases a.len(),
{
    if a.len() == 0 {
        assert(a + b =~= b);
    } else {
        assert((a + b).drop_first() =~= a.drop_first() + b);
        assert((a + b)[0] == a[0]);
        lemma_ops_weight_concat(a.drop_first(), b);
    }
}

/// Whether draining succeeds: every mount's base is free of a query
/// component, and no managed type key — `keys` holds those managed so far
/// — is inserted twice, counting the operations attach hooks splice in at
/// the head.
pub open spec fn drain_ok<S>(keys: Set<u64>, ops: Seq<BuildOp<S>>) -> bool
    decreases ops_weight(ops),
    via drain_ok_decreases::<S>
{
    if ops.len() == 0 {
        true
    } else {
        match ops[0] {
            BuildOp::Mount(base, _) => base.query is None && drain_ok(keys, ops.drop_first()),
            BuildOp::Register(_) => drain_ok(keys, ops.drop_first()),
            BuildOp::Manage(k, _) => !keys.contains(k) && drain_ok(
                keys.insert(k),
                ops.drop_first(),
            ),
            BuildOp::Attach(f) => drain_ok(keys, f.attach_ops@ + ops.drop_first()),
        }
    }
}

#[via_fn]
proof fn drain_ok_decreases<S>(keys: Set<u64>, ops: Seq<BuildOp<S>>) {
    if ops.len() > 0 {
        assert(ops_weight(ops) == op_weight(ops[0]) + ops_weight(ops.drop_first()));
        match ops[0] {
            BuildOp::Attach(f) => {
                lemma_ops_weight_concat(f.attach_ops@, ops.drop_first());
            },
            _ => {},
        }
    }
}

/// The attached lifecycle hooks, in attachment order, and the names of
/// those whose attach-time logic failed.
pub struct Fairings<S> {
    pub all: Vec<Fairing<S>>,
    pub failures: Vec<String>,
}

/// `list` is exactly the indices of the hooks that run at the on-request
/// phase, in attachment order.
pub open spec fn is_request_hook_list<S>(list: Seq<usize>, all: Seq<Fairing<S>>) -> bool {
    &&& (forall|k: int|
        0 <= k < list.len() ==> 0 <= #[trigger] list[k] < all.len() && all[list[k] as int].on_request)
    &&& (forall|k1: int, k2: int| 0 <= k1 < k2 < list.len() ==> list[k1] < list[k2])
    &&& (forall|i: int|
        0 <= i < all.len() && (#[trigger] all[i].on_request) ==> exists|k: int|
            0 <= k < list.len() && #[trigger] list[k] == i)
}

/// `list` is exactly the indices of the hooks that run at the on-response
/// phase, in attachment order.
pub open spec fn is_response_hook_list<S>(list: Seq<usize>, all: Seq<Fairing<S>>) -> bool {
    &&& (forall|k: int|
        0 <= k < list.len() ==> 0 <= #[trigger] list[k] < all.len() && all[list[k] as int].on_response)
    &&& (forall|k1: int, k2: int| 0 <= k1 < k2 < list.len() ==> list[k1] < list[k2])
    &&& (forall|i: int|
        0 <= i < all.len() && (#[trigger] all[i].on_response) ==> exists|k: int|
            0 <= k < list.len() && #[trigger] list[k] == i)
}

/// `list` is exactly the indices of the hooks that run at the on-launch
/// phase, in attachment order.
pub open spec fn is_launch_hook_list<S>(list: Seq<usize>, all: Seq<Fairing<S>>) -> bool {
    &&& (forall|k: int|
        0 <= k < list.len() ==> 0 <= #[trigger] list[k] < all.len() && all[list[k] as int].on_launch)
    &&& (forall|k1: int, k2: int| 0 <= k1 < k2 < list.len() ==> list[k1] < list[k2])
    &&& (forall|i: int|
        0 <= i < all.len() && (#[trigger] all[i].on_launch) ==> exists|k: int|
            0 <= k < list.len() && #[trigger] list[k] == i)
}

/// `list` is exactly the indices of the hooks that run at the on-shutdown
/// phase, in attachment order.
pub open spec fn is_shutdown_hook_list<S>(list: Seq<usize>, all: Seq<Fairing<S>>) -> bool {
    &&& (forall|k: int|
        0 <= k < list.len() ==> 0 <= #[trigger] list[k] < all.len() && all[list[k] as int].on_shutdown)
    &&& (forall|k1: int, k2: int| 0 <= k1 < k2 < list.len() ==> list[k1] < list[k2])
    &&& (forall|i: int|
        0 <= i < all.len() && (#[trigger] all[i].on_shutdown) ==> exists|k: int|
            0 <= k < list.len() && #[trigger] list[k] == i)
}

impl<S> Fairings<S> {
    pub fn new() -> (r: Fairings<S>)
        ensures
            r.all@.len() == 0,
            r.failures@.len() == 0,
    {
        Fairings { all: Vec::new(), failures: Vec::new() }
    }

    /// Records an attached hook; a failed attachment is remembered by name
    /// and fails the pre-launch check later, but the hook still takes its
    /// place in the chain.
    pub fn attach(&mut self, f: Fairing<S>)
        ensures
            final(self).all@ == old(self).all@.push(f),
            f.attach_ok ==> final(self).failures@ == old(self).failures@,
            !f.attach_ok ==> final(self).failures@.len() == old(self).failures@.len() + 1
                && final(self).failures@ == old(self).failures@.push(f.name),
    {
        if !f.attach_ok {
            self.failures.push(f.name.clone());
        }
        self.all.push(f);
    }

    /// The indices, in attachment order, of the hooks that run at the
    /// on-request phase.
    pub fn request_hooks(&self) -> (r: Vec<usize>)
        ensures
            is_request_hook_list(r@, self.all@),
            forall|k: int|
                0 <= k < r@.len() ==> 0 <= #[trigger] r@[k] < self.all@.len()
                    && self.all@[r@[k] as int].on_request,
            forall|k1: int, k2: int| 0 <= k1 < k2 < r@.len() ==> r@[k1] < r@[k2],
            forall|i: int|
                0 <= i < self.all@.len() && (#[trigger] self.all@[i].on_request)
                    ==> exists|k: int| 0 <= k < r@.len() && #[trigger] r@[k] == i,
    {
        let mut out: Vec<usize> = Vec::new();
        let mut i: usize = 0;
        while i < self.all.len()
            invariant
                i <= self.all@.len(),
                forall|k: int|
                    0 <= k < out@.len() ==> 0 <= #[trigger] out@[k] < i
                        && self.all@[out@[k] as int].on_request,
                forall|k1: int, k2: int| 0 <= k1 < k2 < out@.len() ==> out@[k1] < out@[k2],
                forall|j: int|
                    0 <= j < i && (#[trigger] self.all@[j].on_request)
                        ==> exists|k: int| 0 <= k < out@.len() && #[trigger] out@[k] == j,
            decreases self.all@.len() - i,
        {
            if self.all[i].on_request {
                let ghost prev = out@;
                out.push(i);
                proof {
                    assert forall|j: int|
                        0 <= j < i + 1 && (#[trigger] self.all@[j].on_request) implies exists|
                    k: int|
                        0 <= k < out@.len() && #[trigger] out@[k] == j by {
                        if j < i {
                            let k = choose|k: int| 0 <= k < prev.len() && #[trigger] prev[k] == j;
                            assert(out@[k] == j);
                        } else {
                            assert(out@[out@.len() - 1] == i);
                        }
                    }
                }
            }
            i += 1;
        }
        out
    }

    /// The indices, in attachment order, of the hooks that run at the
    /// on-response phase.
    pub fn response_hooks(&self) -> (r: Vec<usize>)
        ensures
            is_response_hook_list(r@, self.all@),
            forall|k: int|
                0 <= k < r@.len() ==> 0 <= #[trigger] r@[k] < self.all@.len()
                    && self.all@[r@[k] as int].on_response,
            forall|k1: int, k2: int| 0 <= k1 < k2 < r@.len() ==> r@[k1] < r@[k2],
            forall|i: int|
                0 <= i < self.all@.len() && (#[trigger] self.all@[i].on_response)
                    ==> exists|k: int| 0 <= k < r@.len() && #[trigger] r@[k] == i,
    {
        let mut out: Vec<usize> = Vec::new();
        let mut i: usize = 0;
        while i < self.all.len()
            invariant
                i <= self.all@.len(),
                forall|k: int|
                    0 <= k < out@.len() ==> 0 <= #[trigger] out@[k] < i
                        && self.all@[out@[k] as int].on_response,
                forall|k1: int, k2: int| 0 <= k1 < k2 < out@.len() ==> out@[k1] < out@[k2],
                forall|j: int|
                    0 <= j < i && (#[trigger] self.all@[j].on_response)
                        ==> exists|k: int| 0 <= k < out@.len() && #[trigger] out@[k] == j,
            decreases self.all@.len() - i,
        {
            if self.all[i].on_response {
                let ghost prev = out@;
                out.push(i);
                proof {
                    assert forall|j: int|
                        0 <= j < i + 1 && (#[trigger] self.all@[j].on_response) implies exists|
                    k: int|
                        0 <= k < out@.len() && #[trigger] out@[k] == j by {
                        if j < i {
                            let k = choose|k: int| 0 <= k < prev.len() && #[trigger] prev[k] == j;
                            assert(out@[k] == j);
                        } else {
                            assert(out@[out@.len() - 1] == i);
                        }
                    }
                }
            }
            i += 1;
        }
        out
    }

    /// The indices, in attachment order, of the hooks that run at the
    /// on-launch phase.
    pub fn launch_hooks(&self) -> (r: Vec<usize>)
        ensures
            is_launch_hook_list(r@, self.all@),
    {
        let mut out: Vec<usize> = Vec::new();
        let mut i: usize = 0;
        while i < self.all.len()
            invariant
                i <= self.all@.len(),
                forall|k: int|
                    0 <= k < out@.len() ==> 0 <= #[trigger] out@[k] < i
                        && self.all@[out@[k] as int].on_launch,
                forall|k1: int, k2: int| 0 <= k1 < k2 < out@.len() ==> out@[k1] < out@[k2],
                forall|j: int|
                    0 <= j < i && (#[trigger] self.all@[j].on_launch)
                        ==> exists|k: int| 0 <= k < out@.len() && #[trigger] out@[k] == j,
            decreases self.all@.len() - i,
        {
            if self.all[i].on_launch {
                let ghost prev = out@;
                out.push(i);
                proof {
                    assert forall|j: int|
                        0 <= j < i + 1 && (#[trigger] self.all@[j].on_launch) implies exists|
                    k: int|
                        0 <= k < out@.len() && #[trigger] out@[k] == j by {
                        if j < i {
                            let k = choose|k: int| 0 <= k < prev.len() && #[trigger] prev[k] == j;
                            assert(out@[k] == j);
                        } else {
                            assert(out@[out@.len() - 1] == i);
                        }
                    }
                }
            }
            i += 1;
        }
        out
    }

    /// The indices, in attachment order, of the hooks that run at the
    /// on-shutdown phase.
    pub fn shutdown_hooks(&self) -> (r: Vec<usize>)
        ensures
            is_shutdown_hook_list(r@, self.all@),
    {
        let mut out: Vec<usize> = Vec::new();
        let mut i: usize = 0;
        while i < self.all.len()
            invariant
                i <= self.all@.len(),
                forall|k: int|
                    0 <= k < out@.len() ==> 0 <= #[trigger] out@[k] < i
                        && self.all@[out@[k] as int].on_shutdown,
                forall|k1: int, k2: int| 0 <= k1 < k2 < out@.len() ==> out@[k1] < out@[k2],
                forall|j: int|
                    0 <= j < i && (#[trigger] self.all@[j].on_shutdown)
                        ==> exists|k: int| 0 <= k < out@.len() && #[trigger] out@[k] == j,
            decreases self.all@.len() - i,
        {
            if self.all[i].on_shutdown {
                let ghost prev = out@;
                out.push(i);
                proof {
                    assert forall|j: int|
                        0 <= j < i + 1 && (#[trigger] self.all@[j].on_shutdown) implies exists|
                    k: int|
                        0 <= k < out@.len() && #[trigger] out@[k] == j by {
                        if j < i {
                            let k = choose|k: int| 0 <= k < prev.len() && #[trigger] prev[k] == j;
                            assert(out@[k] == j);
                        } else {
                            assert(out@[out@.len() - 1] == i);
                        }
                    }
                }
            }
            i += 1;
        }
        out
    }
}

} // verus!

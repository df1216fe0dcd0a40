//! Orchestration state machine for one stop or restart invocation.
//!
//! One lifecycle task exists per (service, container) pair. A task is
//! dispatched (its action may start) only once every predecessor service's
//! group has fully succeeded; the machine tracks this with one completion
//! pulse per distinct predecessor, mirroring a counting latch per node.
//! A group succeeds when all of its containers' actions succeed; only then
//! is one pulse posted to each successor. A failed action fails the whole
//! invocation: nothing further is dispatched and no pulse is posted for the
//! failed group, so services depending on it stay blocked.
//!
//! The machine decides; it performs no action itself. The caller runs the
//! dispatched actions (concurrently, if it wishes) and reports each
//! container's outcome back through [`Orchestrator::on_container_result`].

use vstd::prelude::*;

use crate::util::clone_names;

use crate::graph::{build_graph, must_precede, row_has, row_wf, Graph, LiveService, Operation};

verus! {

/// The state of one lifecycle task (one container of one service).
#[derive(Clone, Copy, PartialEq, Eq, Structural, Debug)]
pub enum TaskState {
    /// Awaiting predecessor completions; the action has not started.
    Waiting,
    /// Dispatched: the action is in flight.
    Acting,
    /// The action completed successfully.
    Succeeded,
    /// The action failed.
    Failed,
}

/// Number of entries of `row` whose group is marked done in `done`.
/// This is the pulse count a node with predecessor row `row` has received.
pub open spec fn count_done(row: Seq<usize>, done: Seq<bool>) -> int
    decreases row.len(),
{
    if row.len() == 0 {
        0
    } else {
        count_done(row.drop_last(), done) + if 0 <= row.last() < done.len()
            && done[row.last() as int] {
            1int
        } else {
            0int
        }
    }
}

pub proof fn lemma_count_done_bounds(row: Seq<usize>, done: Seq<bool>)
    ensures
        0 <= count_done(row, done) <= row.len(),
    decreases row.len(),
{
    if row.len() > 0 {
        lemma_count_done_bounds(row.drop_last(), done);
    }
}

/// A full pulse count means every predecessor in the row is done.
pub proof fn lemma_count_done_full(row: Seq<usize>, done: Seq<bool>)
    requires
        count_done(row, done) == row.len(),
        forall|k: int| 0 <= k < row.len() ==> #[trigger] row[k] < done.len(),
    ensures
        forall|k: int| 0 <= k < row.len() ==> done[#[trigger] row[k] as int],
    decreases row.len(),
{
    if row.len() > 0 {
        lemma_count_done_bounds(row.drop_last(), done);
        lemma_count_done_full(row.drop_last(), done);
        assert forall|k: int| 0 <= k < row.len() implies done[#[trigger] row[k] as int] by {
            if k < row.len() - 1 {
                assert(row.drop_last()[k] == row[k]);
            }
        }
    }
}

/// If no entry of the row is done, the pulse count is zero.
pub proof fn lemma_count_done_none(row: Seq<usize>, done: Seq<bool>)
    requires
        forall|k: int| 0 <= k < row.len() ==> !done[#[trigger] row[k] as int] || !(row[k] < done.len()),
    ensures
        count_done(row, done) == 0,
    decreases row.len(),
{
    if row.len() > 0 {
        assert(row.last() == row[row.len() - 1]);
        assert forall|k: int| 0 <= k < row.drop_last().len() implies !done[#[trigger] row.drop_last()[k] as int]
            || !(row.drop_last()[k] < done.len()) by {
            assert(row.drop_last()[k] == row[k]);
        }
        lemma_count_done_none(row.drop_last(), done);
    }
}

/// An undone entry of the row keeps the pulse count strictly below the
/// row's length.
pub proof fn lemma_count_done_missing(row: Seq<usize>, done: Seq<bool>, s: int)
    requires
        row_has(row, s),
        0 <= s < done.len(),
        !done[s],
    ensures
        count_done(row, done) < row.len(),
    decreases row.len(),
{
    lemma_count_done_bounds(row.drop_last(), done);
    if row.last() == s {
    } else {
        let k = choose|k: int| 0 <= k < row.len() && #[trigger] row[k] == s;
        assert(row.drop_last()[k] == s);
        assert(row_has(row.drop_last(), s));
        lemma_count_done_missing(row.drop_last(), done, s);
    }
}

/// Marking one previously-undone group `s` as done raises the pulse count
/// of a row by one exactly when `s` occurs in the row (rows hold distinct
/// entries), and leaves it unchanged otherwise.
pub proof fn lemma_count_done_update(row: Seq<usize>, done: Seq<bool>, s: int, n: int)
    requires
        row_wf(row, n),
        0 <= s < done.len(),
        n <= done.len(),
        !done[s],
    ensures
        count_done(row, done.update(s, true)) == count_done(row, done) + if row_has(row, s) {
            1int
        } else {
            0int
        },
    decreases row.len(),
{
    let done2 = done.update(s, true);
    if row.len() == 0 {
        assert(!row_has(row, s));
    } else {
        let prefix = row.drop_last();
        assert(row_wf(prefix, n)) by {
            assert forall|k: int| 0 <= k < prefix.len() implies #[trigger] prefix[k] < n by {
                assert(prefix[k] == row[k]);
            }
            assert forall|k1: int, k2: int| 0 <= k1 < k2 < prefix.len() implies #[trigger] prefix[k1]
                < #[trigger] prefix[k2] by {
                assert(prefix[k1] == row[k1] && prefix[k2] == row[k2]);
            }
        }
        lemma_count_done_update(prefix, done, s, n);
        assert(row.last() == row[row.len() - 1]);
        assert(row.last() < n);
        if row.last() == s {
            // The strictly increasing order rules out another occurrence.
            assert(!row_has(prefix, s)) by {
                if row_has(prefix, s) {
                    let k = choose|k: int| 0 <= k < prefix.len() && #[trigger] prefix[k] == s;
                    assert(row[k] == s);
                    assert(row[k] < row[row.len() - 1]);
                }
            }
            assert(row_has(row, s)) by {
                assert(row[row.len() - 1] == s);
            }
        } else {
            assert(row_has(row, s) == row_has(prefix, s)) by {
                if row_has(row, s) {
                    let k = choose|k: int| 0 <= k < row.len() && #[trigger] row[k] == s;
                    assert(k < row.len() - 1);
                    assert(prefix[k] == s);
                }
                if row_has(prefix, s) {
                    let k = choose|k: int| 0 <= k < prefix.len() && #[trigger] prefix[k] == s;
                    assert(row[k] == s);
                }
            }
        }
    }
}

/// `x` occurs among the first `bound` entries of `row`.
pub open spec fn row_has_prefix(row: Seq<usize>, bound: int, x: int) -> bool {
    exists|k: int| 0 <= k < bound && k < row.len() && #[trigger] row[k] == x
}

/// The orchestration state of one invocation.
///
/// `pulses[s]` is the number of completion pulses service `s` has received:
/// one per predecessor whose group has fully succeeded. A group is
/// dispatched (all its tasks move from `Waiting` to `Acting` together) only
/// when its pulse count equals its in-degree and no failure has been
/// observed.
pub struct Orchestrator {
    pub graph: Graph,
    pub containers: Vec<Vec<String>>,
    pub states: Vec<Vec<TaskState>>,
    pub pulses: Vec<usize>,
    pub failed: bool,
}

impl Orchestrator {
    /// Number of live services of the invocation.
    pub open spec fn n(self) -> int {
        self.graph.node_count()
    }

    /// Every container of service `s` still awaits dispatch.
    pub open spec fn group_waiting(self, s: int) -> bool {
        self.states@[s]@[0] == TaskState::Waiting
    }

    /// Every container of service `s` has succeeded: the group is complete
    /// and may unblock its successors.
    pub open spec fn group_succeeded(self, s: int) -> bool {
        forall|c: int| 0 <= c < self.states@[s]@.len() ==> #[trigger] self.states@[s]@[c]
            == TaskState::Succeeded
    }

    /// Service `s` has received one pulse per predecessor.
    pub open spec fn ready(self, s: int) -> bool {
        self.pulses@[s] == self.graph.in_degree(s)
    }

    /// Which groups have fully succeeded, by service index.
    pub open spec fn done_map(self) -> Seq<bool> {
        Seq::new(self.n() as nat, |s: int| self.group_succeeded(s))
    }

    /// Structural consistency: the graph is well-formed and every table is
    /// sized to it; every service has at least one container.
    pub open spec fn dims_ok(self) -> bool {
        &&& self.graph.wf()
        &&& self.containers@.len() == self.n()
        &&& self.states@.len() == self.n()
        &&& self.pulses@.len() == self.n()
        &&& forall|s: int|
            0 <= s < self.n() ==> #[trigger] self.states@[s]@.len() == self.containers@[s]@.len()
        &&& forall|s: int| 0 <= s < self.n() ==> #[trigger] self.states@[s]@.len() >= 1
    }

    /// The mailbox law: every pulse count equals the number of fully
    /// succeeded predecessors.
    pub open spec fn pulses_ok(self) -> bool {
        forall|s: int|
            0 <= s < self.n() ==> #[trigger] self.pulses@[s] == count_done(
                self.graph.preds@[s]@,
                self.done_map(),
            )
    }

    /// The gating law: a task leaves `Waiting` only once its service has
    /// received its full pulse count.
    pub open spec fn gating_ok(self) -> bool {
        forall|s: int, c: int|
            0 <= s < self.n() && 0 <= c < self.states@[s]@.len() && #[trigger] self.states@[s]@[c]
                != TaskState::Waiting ==> self.ready(s)
    }

    /// Containers of one service are dispatched together: either all of a
    /// group's tasks are `Waiting` or none is.
    pub open spec fn uniform_ok(self) -> bool {
        forall|s: int, c: int|
            0 <= s < self.n() && 0 <= c < self.states@[s]@.len() ==> ((#[trigger] self.states@[s]@[c]
                == TaskState::Waiting) <==> self.group_waiting(s))
    }

    /// The failure flag is set exactly when some task has failed.
    pub open spec fn failed_ok(self) -> bool {
        self.failed <==> exists|s: int, c: int|
            0 <= s < self.n() && 0 <= c < self.states@[s]@.len() && #[trigger] self.states@[s]@[c]
                == TaskState::Failed
    }

    /// While no failure has been observed, every service with a full pulse
    /// count has been dispatched; after a failure, undispatched groups are
    /// abandoned.
    pub open spec fn progress_ok(self) -> bool {
        !self.failed ==> forall|s: int|
            0 <= s < self.n() && #[trigger] self.ready(s) ==> !self.group_waiting(s)
    }

    /// All invariants that hold between mutations.
    pub open spec fn stable(self) -> bool {
        &&& self.dims_ok()
        &&& self.pulses_ok()
        &&& self.gating_ok()
        &&& self.uniform_ok()
        &&& self.failed_ok()
    }

    /// The invariant of the machine at rest, between events.
    pub open spec fn wf(self) -> bool {
        self.stable() && self.progress_ok()
    }

    /// A group is dispatched by [`Self::dispatch_ready`] when it is still
    /// waiting, has its full pulse count, and no failure has been observed.
    pub open spec fn dispatchable(self, s: int) -> bool {
        self.group_waiting(s) && self.ready(s) && !self.failed
    }
}


/// A row of `len` tasks all in the `Acting` state.
fn acting_row(len: usize) -> (r: Vec<TaskState>)
    ensures
        r@.len() == len,
        forall|e: int| 0 <= e < len ==> #[trigger] r@[e] == TaskState::Acting,
{
    let mut v: Vec<TaskState> = Vec::new();
    let mut e: usize = 0;
    while e < len
        invariant
            e <= len,
            v@.len() == e,
            forall|k: int| 0 <= k < e ==> #[trigger] v@[k] == TaskState::Acting,
        decreases len - e,
    {
        v.push(TaskState::Acting);
        e = e + 1;
    }
    v
}

/// A row of `len` tasks all in the `Waiting` state.
fn waiting_row(len: usize) -> (r: Vec<TaskState>)
    ensures
        r@.len() == len,
        forall|e: int| 0 <= e < len ==> #[trigger] r@[e] == TaskState::Waiting,
{
    let mut v: Vec<TaskState> = Vec::new();
    let mut e: usize = 0;
    while e < len
        invariant
            e <= len,
            v@.len() == e,
            forall|k: int| 0 <= k < e ==> #[trigger] v@[k] == TaskState::Waiting,
        decreases len - e,
    {
        v.push(TaskState::Waiting);
        e = e + 1;
    }
    v
}

impl Orchestrator {
    /// Marks every dispatchable group `Acting` and returns the dispatched
    /// (service, container) pairs, one per task, without duplicates.
    fn dispatch_ready(&mut self) -> (acts: Vec<(usize, usize)>)
        requires
            old(self).stable(),
        ensures
            final(self).wf(),
            final(self).graph == old(self).graph,
            final(self).containers == old(self).containers,
            final(self).pulses == old(self).pulses,
            final(self).failed == old(self).failed,
            final(self).states@.len() == old(self).states@.len(),
            forall|s: int, c: int|
                0 <= s < old(self).n() && 0 <= c < old(self).states@[s]@.len()
                    ==> #[trigger] final(self).states@[s]@[c] == if old(self).dispatchable(s) {
                        TaskState::Acting
                    } else {
                        old(self).states@[s]@[c]
                    },
            forall|k: int| 0 <= k < acts@.len() ==> {
                let a = #[trigger] acts@[k];
                &&& 0 <= a.0 < old(self).n()
                &&& (a.1 as int) < old(self).states@[a.0 as int]@.len()
                &&& old(self).dispatchable(a.0 as int)
            },
            forall|s: int, c: int|
                0 <= s < old(self).n() && 0 <= c < old(self).states@[s]@.len()
                    && old(self).dispatchable(s) ==> #[trigger] acts@.contains((s as usize, c as usize)),
            forall|k1: int, k2: int|
                0 <= k1 < k2 < acts@.len() ==> #[trigger] acts@[k1] != #[trigger] acts@[k2],
    {
        let ghost o = *old(self);
        let n = self.graph.preds.len();
        let mut acts: Vec<(usize, usize)> = Vec::new();
        let mut t: usize = 0;
        while t < n
            invariant
                o.stable(),
                t <= n,
                n == o.n(),
                self.graph == o.graph,
                self.containers == o.containers,
                self.pulses == o.pulses,
                self.failed == o.failed,
                self.states@.len() == o.states@.len(),
                forall|s: int|
                    0 <= s < o.n() ==> #[trigger] self.states@[s]@.len() == o.states@[s]@.len(),
                forall|s: int, c: int|
                    0 <= s < o.n() && 0 <= c < o.states@[s]@.len()
                        ==> #[trigger] self.states@[s]@[c] == if s < t && o.dispatchable(s) {
                            TaskState::Acting
                        } else {
                            o.states@[s]@[c]
                        },
                forall|k: int| 0 <= k < acts@.len() ==> {
                    let a = #[trigger] acts@[k];
                    &&& 0 <= a.0 < t
                    &&& (a.1 as int) < o.states@[a.0 as int]@.len()
                    &&& o.dispatchable(a.0 as int)
                },
                forall|s: int, c: int|
                    0 <= s < t && 0 <= c < o.states@[s]@.len() && o.dispatchable(s)
                        ==> #[trigger] acts@.contains((s as usize, c as usize)),
                forall|k1: int, k2: int|
                    0 <= k1 < k2 < acts@.len() ==> (#[trigger] acts@[k1].0 < #[trigger] acts@[k2].0
                        || (acts@[k1].0 == acts@[k2].0 && acts@[k1].1 < acts@[k2].1)),
            decreases n - t,
        {
            let ghost acts_before = acts@;
            let ghost states_before = self.states@;
            let is_ready = self.pulses[t] == self.graph.preds[t].len();
            if !self.failed && is_ready && self.states[t][0] == TaskState::Waiting {
                proof {
                    assert(o.dispatchable(t as int));
                }
                let len = self.states[t].len();
                let row = acting_row(len);
                self.states[t] = row;
                let mut d: usize = 0;
                while d < len
                    invariant
                        d <= len,
                        t < n,
                        acts@.len() == acts_before.len() + d,
                        forall|k: int| 0 <= k < acts_before.len() ==> #[trigger] acts@[k] == acts_before[k],
                        forall|k: int|
                            acts_before.len() <= k < acts@.len() ==> #[trigger] acts@[k] == (
                                t,
                                (k - acts_before.len()) as usize,
                            ),
                    decreases len - d,
                {
                    acts.push((t, d));
                    d = d + 1;
                }
                proof {
                    assert(self.states@ =~= states_before.update(t as int, self.states@[t as int]));
                    assert forall|s: int, c: int|
                        0 <= s < t + 1 && 0 <= c < o.states@[s]@.len() && o.dispatchable(s) implies #[trigger] acts@.contains(
                        (s as usize, c as usize),
                    ) by {
                        if s < t {
                            assert(acts_before.contains((s as usize, c as usize)));
                            let k = choose|k: int|
                                0 <= k < acts_before.len() && acts_before[k] == (s as usize, c as usize);
                            assert(acts@[k] == (s as usize, c as usize));
                        } else {
                            assert(acts@[acts_before.len() + c] == (t, c as usize));
                        }
                    }
                    assert forall|k1: int, k2: int| 0 <= k1 < k2 < acts@.len() implies (
                        #[trigger] acts@[k1].0 < #[trigger] acts@[k2].0 || (acts@[k1].0 == acts@[k2].0
                            && acts@[k1].1 < acts@[k2].1)) by {
                        if k2 >= acts_before.len() && k1 < acts_before.len() {
                            assert(acts@[k1].0 < t);
                        }
                    }
                }
            } else {
                proof {
                    assert(!o.dispatchable(t as int)) by {
                        if o.dispatchable(t as int) {
                            assert(o.states@[t as int]@[0] == TaskState::Waiting);
                            assert(self.states@[t as int]@[0] == o.states@[t as int]@[0]);
                        }
                    }
                }
            }
            t = t + 1;
        }
        proof {
            let f = *self;
            assert forall|s: int| 0 <= s < o.n() implies f.group_succeeded(s) == o.group_succeeded(s) by {
                if o.dispatchable(s) {
                    assert(f.states@[s]@[0] == TaskState::Acting);
                    assert(o.states@[s]@[0] == TaskState::Waiting);
                    assert(!f.group_succeeded(s));
                    assert(!o.group_succeeded(s));
                } else {
                    assert forall|c: int| 0 <= c < f.states@[s]@.len() implies f.states@[s]@[c]
                        == o.states@[s]@[c] by {}
                }
            }
            assert(f.done_map() =~= o.done_map());
            assert forall|s: int| 0 <= s < f.n() implies #[trigger] f.pulses@[s] == count_done(
                f.graph.preds@[s]@,
                f.done_map(),
            ) by {
                assert(o.pulses@[s] == count_done(o.graph.preds@[s]@, o.done_map()));
            }
            assert(f.gating_ok()) by {
                assert forall|s: int, c: int|
                    0 <= s < f.n() && 0 <= c < f.states@[s]@.len() && #[trigger] f.states@[s]@[c]
                        != TaskState::Waiting implies f.ready(s) by {
                    if !o.dispatchable(s) {
                        assert(f.states@[s]@[c] == o.states@[s]@[c]);
                        assert(o.ready(s));
                    }
                }
            }
            assert(f.uniform_ok()) by {
                assert forall|s: int, c: int|
                    0 <= s < f.n() && 0 <= c < f.states@[s]@.len() implies ((#[trigger] f.states@[s]@[c]
                        == TaskState::Waiting) <==> f.group_waiting(s)) by {
                    if o.dispatchable(s) {
                        assert(f.states@[s]@[c] == TaskState::Acting);
                        assert(f.states@[s]@[0] == TaskState::Acting);
                    } else {
                        assert(f.states@[s]@[c] == o.states@[s]@[c]);
                        assert(f.states@[s]@[0] == o.states@[s]@[0]);
                    }
                }
            }
            assert(f.failed_ok()) by {
                if f.failed {
                    let (s, c) = choose|s: int, c: int|
                        0 <= s < o.n() && 0 <= c < o.states@[s]@.len() && #[trigger] o.states@[s]@[c]
                            == TaskState::Failed;
                    assert(!o.dispatchable(s));
                    assert(f.states@[s]@[c] == TaskState::Failed);
                }
                if exists|s: int, c: int|
                    0 <= s < f.n() && 0 <= c < f.states@[s]@.len() && #[trigger] f.states@[s]@[c]
                        == TaskState::Failed {
                    let (s, c) = choose|s: int, c: int|
                        0 <= s < f.n() && 0 <= c < f.states@[s]@.len() && #[trigger] f.states@[s]@[c]
                            == TaskState::Failed;
                    if o.dispatchable(s) {
                        assert(f.states@[s]@[c] == TaskState::Acting);
                    } else {
                        assert(o.states@[s]@[c] == TaskState::Failed);
                    }
                    assert(o.failed);
                }
            }
            assert(f.progress_ok()) by {
                if !f.failed {
                    assert forall|s: int| 0 <= s < f.n() && #[trigger] f.ready(s) implies !f.group_waiting(
                        s,
                    ) by {
                        assert(o.ready(s));
                        if o.dispatchable(s) {
                            assert(f.states@[s]@[0] == TaskState::Acting);
                        } else {
                            assert(!o.group_waiting(s));
                            assert(f.states@[s]@[0] == o.states@[s]@[0]);
                        }
                    }
                }
            }
        }
        acts
    }

    /// Builds the machine for a graph and the per-service container lists;
    /// returns it together with the initial dispatches: every container of
    /// every service with no predecessor.
    pub fn new(graph: Graph, containers: Vec<Vec<String>>) -> (r: (Orchestrator, Vec<(usize, usize)>))
        requires
            graph.wf(),
            containers@.len() == graph.node_count(),
            forall|s: int| 0 <= s < containers@.len() ==> #[trigger] containers@[s]@.len() >= 1,
        ensures
            r.0.wf(),
            r.0.graph == graph,
            r.0.containers == containers,
            !r.0.failed,
            forall|s: int| 0 <= s < r.0.n() ==> !r.0.group_succeeded(s),
            forall|s: int, c: int|
                0 <= s < r.0.n() && 0 <= c < r.0.states@[s]@.len()
                    ==> #[trigger] r.0.states@[s]@[c] == if graph.in_degree(s) == 0 {
                        TaskState::Acting
                    } else {
                        TaskState::Waiting
                    },
            forall|k: int| 0 <= k < r.1@.len() ==> {
                let a = #[trigger] r.1@[k];
                &&& 0 <= a.0 < r.0.n()
                &&& (a.1 as int) < r.0.states@[a.0 as int]@.len()
                &&& graph.in_degree(a.0 as int) == 0
            },
            forall|s: int, c: int|
                0 <= s < r.0.n() && 0 <= c < r.0.states@[s]@.len() && graph.in_degree(s) == 0
                    ==> #[trigger] r.1@.contains((s as usize, c as usize)),
            forall|k1: int, k2: int|
                0 <= k1 < k2 < r.1@.len() ==> #[trigger] r.1@[k1] != #[trigger] r.1@[k2],
    {
        let n = containers.len();
        let mut states: Vec<Vec<TaskState>> = Vec::new();
        let mut pulses: Vec<usize> = Vec::new();
        let mut s: usize = 0;
        while s < n
            invariant
                s <= n,
                n == containers@.len(),
                states@.len() == s,
                pulses@.len() == s,
                forall|u: int| 0 <= u < containers@.len() ==> #[trigger] containers@[u]@.len() >= 1,
                forall|u: int| 0 <= u < s ==> #[trigger] states@[u]@.len() == containers@[u]@.len(),
                forall|u: int, c: int|
                    0 <= u < s && 0 <= c < states@[u]@.len() ==> #[trigger] states@[u]@[c]
                        == TaskState::Waiting,
                forall|u: int| 0 <= u < s ==> #[trigger] pulses@[u] == 0,
            decreases n - s,
        {
            states.push(waiting_row(containers[s].len()));
            pulses.push(0);
            s = s + 1;
        }
        let mut machine = Orchestrator { graph, containers, states, pulses, failed: false };
        proof {
            assert forall|u: int| 0 <= u < machine.n() implies !machine.group_succeeded(u) by {
                assert(machine.states@[u]@[0] == TaskState::Waiting);
            }
            assert forall|u: int| 0 <= u < machine.n() implies #[trigger] machine.pulses@[u]
                == count_done(machine.graph.preds@[u]@, machine.done_map()) by {
                let row = machine.graph.preds@[u]@;
                assert(row_wf(row, machine.n()));
                assert forall|k: int| 0 <= k < row.len() implies !machine.done_map()[#[trigger] row[k] as int]
                    || !(row[k] < machine.done_map().len()) by {
                    assert(row[k] < machine.n());
                    assert(!machine.group_succeeded(row[k] as int));
                }
                lemma_count_done_none(row, machine.done_map());
            }
            assert(machine.stable());
        }
        let ghost before = machine;
        let acts = machine.dispatch_ready();
        proof {
            assert forall|u: int| 0 <= u < before.n() implies (before.dispatchable(u)
                <==> before.graph.in_degree(u) == 0) by {
                assert(before.states@[u]@[0] == TaskState::Waiting);
                lemma_count_done_bounds(before.graph.preds@[u]@, before.done_map());
            }
            assert forall|u: int| 0 <= u < machine.n() implies !machine.group_succeeded(u) by {
                if before.dispatchable(u) {
                    assert(machine.states@[u]@[0] == TaskState::Acting);
                } else {
                    assert(machine.states@[u]@[0] == before.states@[u]@[0]);
                }
            }
        }
        (machine, acts)
    }

    /// Prepares one invocation: builds the dependency graph for the
    /// operation over the live services, sets every task waiting, and
    /// dispatches the services with no predecessor. An empty service set
    /// dispatches nothing and the invocation is immediately successful.
    pub fn begin(live: &Vec<LiveService>, op: Operation) -> (r: (Orchestrator, Vec<(usize, usize)>))
        requires
            forall|i: int| 0 <= i < live@.len() ==> #[trigger] live@[i].containers@.len() >= 1,
        ensures
            r.0.wf(),
            r.0.n() == live@.len(),
            !r.0.failed,
            forall|i: int| 0 <= i < live@.len() ==> #[trigger] r.0.containers@[i]@ == live@[i].containers@,
            forall|f: int, t: int|
                0 <= f < live@.len() && 0 <= t < live@.len()
                    ==> (r.0.graph.edge(f, t) <==> must_precede(op, live@, f, t)),
            forall|s: int| 0 <= s < r.0.n() ==> !r.0.group_succeeded(s),
            forall|s: int, c: int|
                0 <= s < r.0.n() && 0 <= c < r.0.states@[s]@.len()
                    ==> #[trigger] r.0.states@[s]@[c] == if r.0.graph.in_degree(s) == 0 {
                        TaskState::Acting
                    } else {
                        TaskState::Waiting
                    },
            forall|k: int| 0 <= k < r.1@.len() ==> {
                let a = #[trigger] r.1@[k];
                &&& 0 <= a.0 < r.0.n()
                &&& (a.1 as int) < r.0.states@[a.0 as int]@.len()
                &&& r.0.graph.in_degree(a.0 as int) == 0
            },
            forall|s: int, c: int|
                0 <= s < r.0.n() && 0 <= c < r.0.states@[s]@.len() && r.0.graph.in_degree(s) == 0
                    ==> #[trigger] r.1@.contains((s as usize, c as usize)),
            forall|k1: int, k2: int|
                0 <= k1 < k2 < r.1@.len() ==> #[trigger] r.1@[k1] != #[trigger] r.1@[k2],
            live@.len() == 0 ==> r.1@.len() == 0,
    {
        let g = build_graph(live, op);
        let mut containers: Vec<Vec<String>> = Vec::new();
        let mut i: usize = 0;
        while i < live.len()
            invariant
                i <= live@.len(),
                containers@.len() == i,
                forall|u: int| 0 <= u < i ==> #[trigger] containers@[u]@ == live@[u].containers@,
            decreases live@.len() - i,
        {
            containers.push(clone_names(&live[i].containers));
            i = i + 1;
        }
        let r = Orchestrator::new(g, containers);
        proof {
            if live@.len() == 0 && r.1@.len() > 0 {
                let a = r.1@[0];
                assert(0 <= a.0 < r.0.n());
            }
        }
        r
    }

    /// Whether a container action has failed; once set, the invocation can
    /// only report failure.
    pub fn has_failed(&self) -> (r: bool)
        ensures
            r == self.failed,
    {
        self.failed
    }

    /// Whether every container of service `s` has succeeded.
    fn group_complete(&self, s: usize) -> (r: bool)
        requires
            self.dims_ok(),
            (s as int) < self.n(),
        ensures
            r == self.group_succeeded(s as int),
    {
        let len = self.states[s].len();
        let mut c: usize = 0;
        while c < len
            invariant
                c <= len,
                self.dims_ok(),
                (s as int) < self.n(),
                len == self.states@[s as int]@.len(),
                forall|e: int| 0 <= e < c ==> #[trigger] self.states@[s as int]@[e] == TaskState::Succeeded,
            decreases len - c,
        {
            if !(self.states[s][c] == TaskState::Succeeded) {
                return false;
            }
            c = c + 1;
        }
        true
    }

    /// Whether every group of the invocation has fully succeeded: the
    /// invocation's overall success condition.
    pub fn all_succeeded(&self) -> (r: bool)
        requires
            self.wf(),
        ensures
            r == forall|s: int| 0 <= s < self.n() ==> self.group_succeeded(s),
    {
        let n = self.states.len();
        let mut s: usize = 0;
        while s < n
            invariant
                s <= n,
                self.wf(),
                n == self.n(),
                forall|u: int| 0 <= u < s ==> self.group_succeeded(u),
            decreases n - s,
        {
            if !self.group_complete(s) {
                return false;
            }
            s = s + 1;
        }
        true
    }

    /// The identifier of container `c` of service `s`.
    pub fn container_name(&self, s: usize, c: usize) -> (r: &String)
        requires
            self.wf(),
            (s as int) < self.n(),
            (c as int) < self.containers@[s as int]@.len(),
        ensures
            r@ == self.containers@[s as int]@[c as int]@,
    {
        &self.containers[s][c]
    }
}


impl Orchestrator {
    /// Records the outcome of one dispatched container action.
    ///
    /// On success, when this was the last container of its service, the
    /// group is complete: one pulse is posted to every successor and every
    /// group thereby unblocked is dispatched; the newly dispatched
    /// (service, container) pairs are returned. On failure the invocation
    /// fails: no pulse is posted, nothing further is ever dispatched, and
    /// services depending on the failed one stay blocked.
    pub fn on_container_result(&mut self, s: usize, c: usize, ok: bool) -> (acts: Vec<(usize, usize)>)
        requires
            old(self).wf(),
            (s as int) < old(self).n(),
            (c as int) < old(self).states@[s as int]@.len(),
            old(self).states@[s as int]@[c as int] == TaskState::Acting,
        ensures
            final(self).wf(),
            final(self).graph == old(self).graph,
            final(self).containers == old(self).containers,
            final(self).states@.len() == old(self).states@.len(),
            forall|t: int|
                0 <= t < old(self).n() ==> #[trigger] final(self).states@[t]@.len() == old(
                    self,
                ).states@[t]@.len(),
            final(self).states@[s as int]@[c as int] == if ok {
                TaskState::Succeeded
            } else {
                TaskState::Failed
            },
            !ok ==> final(self).failed && acts@.len() == 0 && final(self).pulses == old(self).pulses,
            ok ==> final(self).failed == old(self).failed,
            forall|t: int, d: int|
                0 <= t < old(self).n() && 0 <= d < old(self).states@[t]@.len() && !(t == s as int && d
                    == c as int) ==> #[trigger] final(self).states@[t]@[d] == old(self).states@[t]@[d]
                    || (old(self).states@[t]@[d] == TaskState::Waiting && final(self).states@[t]@[d]
                    == TaskState::Acting),
            forall|k: int| 0 <= k < acts@.len() ==> {
                let a = #[trigger] acts@[k];
                &&& 0 <= a.0 < old(self).n()
                &&& (a.1 as int) < old(self).states@[a.0 as int]@.len()
                &&& old(self).states@[a.0 as int]@[a.1 as int] == TaskState::Waiting
                &&& final(self).states@[a.0 as int]@[a.1 as int] == TaskState::Acting
            },
            forall|t: int, d: int|
                0 <= t < old(self).n() && 0 <= d < old(self).states@[t]@.len() && old(
                    self,
                ).states@[t]@[d] == TaskState::Waiting && final(self).states@[t]@[d]
                    == TaskState::Acting ==> #[trigger] acts@.contains((t as usize, d as usize)),
            forall|k1: int, k2: int|
                0 <= k1 < k2 < acts@.len() ==> #[trigger] acts@[k1] != #[trigger] acts@[k2],
    {
        let ghost o = *old(self);
        if !ok {
            self.states[s][c] = TaskState::Failed;
            self.failed = true;
            proof {
                let f = *self;
                assert(f.states@[s as int]@[c as int] == TaskState::Failed);
                assert forall|u: int| 0 <= u < o.n() implies f.group_succeeded(u)
                    == o.group_succeeded(u) by {
                    if u == s as int {
                        assert(o.states@[u]@[c as int] == TaskState::Acting);
                        assert(f.states@[u]@[c as int] == TaskState::Failed);
                    } else {
                        assert(f.states@[u]@ == o.states@[u]@);
                    }
                }
                assert(f.done_map() =~= o.done_map());
                assert(f.pulses_ok()) by {
                    assert forall|u: int| 0 <= u < f.n() implies #[trigger] f.pulses@[u] == count_done(
                        f.graph.preds@[u]@,
                        f.done_map(),
                    ) by {
                        assert(o.pulses@[u] == count_done(o.graph.preds@[u]@, o.done_map()));
                    }
                }
                assert(f.gating_ok()) by {
                    assert forall|t: int, d: int|
                        0 <= t < f.n() && 0 <= d < f.states@[t]@.len() && #[trigger] f.states@[t]@[d]
                            != TaskState::Waiting implies f.ready(t) by {
                        if t == s as int && d == c as int {
                            assert(o.states@[t]@[d] == TaskState::Acting);
                        } else {
                            assert(f.states@[t]@[d] == o.states@[t]@[d]);
                        }
                        assert(o.ready(t));
                    }
                }
                assert(f.uniform_ok()) by {
                    assert forall|t: int, d: int|
                        0 <= t < f.n() && 0 <= d < f.states@[t]@.len() implies ((
                        #[trigger] f.states@[t]@[d] == TaskState::Waiting) <==> f.group_waiting(t)) by {
                        assert(o.states@[s as int]@[c as int] != TaskState::Waiting);
                        assert(!o.group_waiting(s as int));
                        if t == s as int {
                            assert(o.states@[t]@[0] != TaskState::Waiting);
                            if c == 0 {
                                assert(f.states@[t]@[0] == TaskState::Failed);
                            } else {
                                assert(f.states@[t]@[0] == o.states@[t]@[0]);
                            }
                            if d != c as int {
                                assert(f.states@[t]@[d] == o.states@[t]@[d]);
                            }
                        } else {
                            assert(f.states@[t]@[d] == o.states@[t]@[d]);
                            assert(f.states@[t]@[0] == o.states@[t]@[0]);
                        }
                    }
                }
                assert(f.failed_ok()) by {
                    assert(f.states@[s as int]@[c as int] == TaskState::Failed);
                }
                assert(f.wf());
            }
            Vec::new()
        } else {
            self.states[s][c] = TaskState::Succeeded;
            proof {
                let m1 = *self;
                assert(m1.states@[s as int]@[c as int] == TaskState::Succeeded);
                assert forall|u: int| 0 <= u < o.n() && u != s as int implies m1.group_succeeded(u)
                    == o.group_succeeded(u) by {
                    assert(m1.states@[u]@ == o.states@[u]@);
                }
                assert(!o.group_succeeded(s as int)) by {
                    assert(o.states@[s as int]@[c as int] == TaskState::Acting);
                }
            }
            if self.group_complete(s) {
                let ghost m1 = *self;
                let ghost done1 = o.done_map();
                let ghost done2 = m1.done_map();
                proof {
                    assert(done2 =~= done1.update(s as int, true));
                    assert(m1.gating_ok()) by {
                        assert forall|t: int, d: int|
                            0 <= t < m1.n() && 0 <= d < m1.states@[t]@.len() && #[trigger] m1.states@[t]@[d]
                                != TaskState::Waiting implies m1.ready(t) by {
                            if t == s as int && d == c as int {
                                assert(o.states@[t]@[d] == TaskState::Acting);
                            } else {
                                assert(m1.states@[t]@[d] == o.states@[t]@[d]);
                            }
                            assert(o.ready(t));
                        }
                    }
                    assert(m1.uniform_ok()) by {
                        assert forall|t: int, d: int|
                            0 <= t < m1.n() && 0 <= d < m1.states@[t]@.len() implies ((
                            #[trigger] m1.states@[t]@[d] == TaskState::Waiting) <==> m1.group_waiting(
                                t,
                            )) by {
                            assert(!o.group_waiting(s as int)) by {
                                assert(o.states@[s as int]@[c as int] != TaskState::Waiting);
                            }
                            if t == s as int {
                                if c == 0 {
                                    assert(m1.states@[t]@[0] == TaskState::Succeeded);
                                } else {
                                    assert(m1.states@[t]@[0] == o.states@[t]@[0]);
                                }
                                if d != c as int {
                                    assert(m1.states@[t]@[d] == o.states@[t]@[d]);
                                } else {
                                    assert(m1.states@[t]@[d] == TaskState::Succeeded);
                                }
                            } else {
                                assert(m1.states@[t]@[d] == o.states@[t]@[d]);
                                assert(m1.states@[t]@[0] == o.states@[t]@[0]);
                            }
                        }
                    }
                    assert(m1.failed_ok()) by {
                        if m1.failed {
                            let (t, d) = choose|t: int, d: int|
                                0 <= t < o.n() && 0 <= d < o.states@[t]@.len() && #[trigger] o.states@[t]@[d]
                                    == TaskState::Failed;
                            assert(m1.states@[t]@[d] == TaskState::Failed);
                        }
                        if exists|t: int, d: int|
                            0 <= t < m1.n() && 0 <= d < m1.states@[t]@.len() && #[trigger] m1.states@[t]@[d]
                                == TaskState::Failed {
                            let (t, d) = choose|t: int, d: int|
                                0 <= t < m1.n() && 0 <= d < m1.states@[t]@.len()
                                    && #[trigger] m1.states@[t]@[d] == TaskState::Failed;
                            assert(o.states@[t]@[d] == TaskState::Failed);
                        }
                    }
                    // A successor of `s` cannot have been dispatched: its
                    // pulse count is still short of its in-degree, because
                    // `s` itself only now completed.
                    assert forall|t: int|
                        0 <= t < o.n() && row_has(o.graph.preds@[t]@, s as int) implies o.pulses@[t]
                            < o.graph.in_degree(t) && o.group_waiting(t) && t != s as int by {
                        lemma_count_done_missing(o.graph.preds@[t]@, done1, s as int);
                        assert(o.pulses@[t] == count_done(o.graph.preds@[t]@, done1));
                        assert(!o.ready(t));
                        if t == s as int {
                            assert(o.states@[t]@[c as int] != TaskState::Waiting);
                            assert(o.ready(t));
                        }
                        assert(o.states@[t]@[0] == TaskState::Waiting) by {
                            if o.states@[t]@[0] != TaskState::Waiting {
                                assert(o.ready(t));
                            }
                        }
                    }
                }
                let scount = self.graph.succs[s].len();
                let mut idx: usize = 0;
                while idx < scount
                    invariant
                        o.wf(),
                        m1.dims_ok(),
                        m1.gating_ok(),
                        m1.uniform_ok(),
                        m1.failed_ok(),
                        (s as int) < o.n(),
                        (c as int) < o.states@[s as int]@.len(),
                        o.states@[s as int]@[c as int] == TaskState::Acting,
                        done1 == o.done_map(),
                        done2 == m1.done_map(),
                        done2 =~= done1.update(s as int, true),
                        m1.graph == o.graph,
                        m1.containers == o.containers,
                        m1.failed == o.failed,
                        m1.pulses == o.pulses,
                        m1.states@.len() == o.states@.len(),
                        forall|u: int|
                            0 <= u < o.n() && u != s as int ==> #[trigger] m1.states@[u]@
                                == o.states@[u]@,
                        m1.states@[s as int]@ == o.states@[s as int]@.update(
                            c as int,
                            TaskState::Succeeded,
                        ),
                        self.graph == m1.graph,
                        self.containers == m1.containers,
                        self.states == m1.states,
                        self.failed == m1.failed,
                        idx <= scount,
                        scount == o.graph.succs@[s as int]@.len(),
                        self.pulses@.len() == o.n(),
                        forall|u: int|
                            0 <= u < o.n() ==> #[trigger] self.pulses@[u] == count_done(
                                o.graph.preds@[u]@,
                                done1,
                            ) + if row_has_prefix(o.graph.succs@[s as int]@, idx as int, u) {
                                1int
                            } else {
                                0int
                            },
                    decreases scount - idx,
                {
                    let t = self.graph.succs[s][idx];
                    let cap = self.graph.preds[t].len();
                    proof {
                        let srow = o.graph.succs@[s as int]@;
                        assert(row_wf(srow, o.n()));
                        assert(srow[idx as int] == t);
                        assert((t as int) < o.n());
                        assert(row_has(o.graph.succs@[s as int]@, t as int)) by {
                            assert(srow[idx as int] == t);
                        }
                        assert(row_has(o.graph.preds@[t as int]@, s as int));
                        assert(!row_has_prefix(srow, idx as int, t as int)) by {
                            if row_has_prefix(srow, idx as int, t as int) {
                                let k = choose|k: int|
                                    0 <= k < idx && k < srow.len() && #[trigger] srow[k] == t as int;
                                assert(srow[k] < srow[idx as int]);
                            }
                        }
                        lemma_count_done_missing(o.graph.preds@[t as int]@, done1, s as int);
                        lemma_count_done_bounds(o.graph.preds@[t as int]@, done1);
                        assert(self.pulses@[t as int] < o.graph.in_degree(t as int));
                        assert(o.graph.in_degree(t as int) == cap);
                    }
                    self.pulses[t] = self.pulses[t] + 1;
                    proof {
                        let srow = o.graph.succs@[s as int]@;
                        assert forall|u: int| 0 <= u < o.n() implies #[trigger] self.pulses@[u]
                            == count_done(o.graph.preds@[u]@, done1) + if row_has_prefix(
                            srow,
                            idx + 1,
                            u,
                        ) {
                            1int
                        } else {
                            0int
                        } by {
                            if u == t as int {
                                assert(row_has_prefix(srow, idx + 1, u)) by {
                                    assert(srow[idx as int] == u);
                                }
                            } else {
                                assert(row_has_prefix(srow, idx + 1, u) == row_has_prefix(
                                    srow,
                                    idx as int,
                                    u,
                                )) by {
                                    if row_has_prefix(srow, idx + 1, u) {
                                        let k = choose|k: int|
                                            0 <= k < idx + 1 && k < srow.len() && #[trigger] srow[k] == u;
                                        assert(k != idx);
                                        assert(row_has_prefix(srow, idx as int, u));
                                    }
                                }
                            }
                        }
                    }
                    idx = idx + 1;
                }
                proof {
                    let m2 = *self;
                    let srow = o.graph.succs@[s as int]@;
                    assert(m2.pulses_ok()) by {
                        assert forall|u: int| 0 <= u < m2.n() implies #[trigger] m2.pulses@[u]
                            == count_done(m2.graph.preds@[u]@, m2.done_map()) by {
                            assert(m2.done_map() =~= done2);
                            assert(row_has_prefix(srow, scount as int, u) == row_has(srow, u));
                            assert(row_has(srow, u) == row_has(o.graph.preds@[u]@, s as int));
                            lemma_count_done_update(
                                o.graph.preds@[u]@,
                                done1,
                                s as int,
                                o.n(),
                            );
                        }
                    }
                    assert(m2.gating_ok()) by {
                        assert forall|t: int, d: int|
                            0 <= t < m2.n() && 0 <= d < m2.states@[t]@.len() && #[trigger] m2.states@[t]@[d]
                                != TaskState::Waiting implies m2.ready(t) by {
                            if row_has(o.graph.preds@[t]@, s as int) {
                                // such a group was still waiting and now has all pulses or not
                                assert(o.group_waiting(t));
                                assert(t != s as int);
                                assert(m2.states@[t]@[d] == o.states@[t]@[d]);
                                assert(o.states@[t]@[d] == TaskState::Waiting);
                            } else {
                                assert(m2.pulses@[t] == o.pulses@[t]) by {
                                    assert(row_has_prefix(srow, scount as int, t) == row_has(srow, t));
                                }
                                if t == s as int && d == c as int {
                                    assert(o.states@[t]@[d] == TaskState::Acting);
                                } else {
                                    assert(m2.states@[t]@[d] == o.states@[t]@[d]);
                                }
                                assert(o.ready(t));
                            }
                        }
                    }
                    assert(m2.uniform_ok()) by {
                        assert forall|t: int, d: int|
                            0 <= t < m2.n() && 0 <= d < m2.states@[t]@.len() implies ((
                            #[trigger] m2.states@[t]@[d] == TaskState::Waiting) <==> m2.group_waiting(
                                t,
                            )) by {
                            assert(!o.group_waiting(s as int)) by {
                                assert(o.states@[s as int]@[c as int] != TaskState::Waiting);
                            }
                            if t == s as int {
                                if c == 0 {
                                    assert(m2.states@[t]@[0] == TaskState::Succeeded);
                                } else {
                                    assert(m2.states@[t]@[0] == o.states@[t]@[0]);
                                }
                                if d != c as int {
                                    assert(m2.states@[t]@[d] == o.states@[t]@[d]);
                                } else {
                                    assert(m2.states@[t]@[d] == TaskState::Succeeded);
                                }
                            } else {
                                assert(m2.states@[t]@[d] == o.states@[t]@[d]);
                                assert(m2.states@[t]@[0] == o.states@[t]@[0]);
                            }
                        }
                    }
                    assert(m2.failed_ok()) by {
                        if m2.failed {
                            let (t, d) = choose|t: int, d: int|
                                0 <= t < o.n() && 0 <= d < o.states@[t]@.len() && #[trigger] o.states@[t]@[d]
                                    == TaskState::Failed;
                            assert(m2.states@[t]@[d] == TaskState::Failed);
                        }
                        if exists|t: int, d: int|
                            0 <= t < m2.n() && 0 <= d < m2.states@[t]@.len() && #[trigger] m2.states@[t]@[d]
                                == TaskState::Failed {
                            let (t, d) = choose|t: int, d: int|
                                0 <= t < m2.n() && 0 <= d < m2.states@[t]@.len()
                                    && #[trigger] m2.states@[t]@[d] == TaskState::Failed;
                            assert(o.states@[t]@[d] == TaskState::Failed);
                        }
                    }
                    assert(m2.stable());
                }
                let ghost m2 = *self;
                let acts = self.dispatch_ready();
                proof {
                    let f = *self;
                    assert forall|t: int, d: int|
                        0 <= t < o.n() && 0 <= d < o.states@[t]@.len() && o.states@[t]@[d]
                            == TaskState::Waiting && f.states@[t]@[d] == TaskState::Acting implies
                        #[trigger] acts@.contains((t as usize, d as usize)) by {
                        if !m2.dispatchable(t) {
                            assert(f.states@[t]@[d] == m2.states@[t]@[d]);
                            assert(m2.states@[t]@[d] == o.states@[t]@[d]);
                        }
                    }
                }
                acts
            } else {
                proof {
                    let f = *self;
                    assert forall|u: int| 0 <= u < o.n() implies f.group_succeeded(u)
                        == o.group_succeeded(u) by {
                        if u != s as int {
                            assert(f.states@[u]@ == o.states@[u]@);
                        }
                    }
                    assert(f.done_map() =~= o.done_map());
                    assert(f.pulses_ok()) by {
                        assert forall|u: int| 0 <= u < f.n() implies #[trigger] f.pulses@[u]
                            == count_done(f.graph.preds@[u]@, f.done_map()) by {
                            assert(o.pulses@[u] == count_done(o.graph.preds@[u]@, o.done_map()));
                        }
                    }
                    assert(f.gating_ok()) by {
                        assert forall|t: int, d: int|
                            0 <= t < f.n() && 0 <= d < f.states@[t]@.len() && #[trigger] f.states@[t]@[d]
                                != TaskState::Waiting implies f.ready(t) by {
                            if t == s as int && d == c as int {
                                assert(o.states@[t]@[d] == TaskState::Acting);
                            } else {
                                assert(f.states@[t]@[d] == o.states@[t]@[d]);
                            }
                            assert(o.ready(t));
                        }
                    }
                    assert(f.uniform_ok()) by {
                        assert forall|t: int, d: int|
                            0 <= t < f.n() && 0 <= d < f.states@[t]@.len() implies ((
                            #[trigger] f.states@[t]@[d] == TaskState::Waiting) <==> f.group_waiting(t)) by {
                            assert(!o.group_waiting(s as int)) by {
                                assert(o.states@[s as int]@[c as int] != TaskState::Waiting);
                            }
                            if t == s as int {
                                if c == 0 {
                                    assert(f.states@[t]@[0] == TaskState::Succeeded);
                                } else {
                                    assert(f.states@[t]@[0] == o.states@[t]@[0]);
                                }
                                if d != c as int {
                                    assert(f.states@[t]@[d] == o.states@[t]@[d]);
                                } else {
                                    assert(f.states@[t]@[d] == TaskState::Succeeded);
                                }
                            } else {
                                assert(f.states@[t]@[d] == o.states@[t]@[d]);
                                assert(f.states@[t]@[0] == o.states@[t]@[0]);
                            }
                        }
                    }
                    assert(f.failed_ok()) by {
                        if f.failed {
                            let (t, d) = choose|t: int, d: int|
                                0 <= t < o.n() && 0 <= d < o.states@[t]@.len() && #[trigger] o.states@[t]@[d]
                                    == TaskState::Failed;
                            assert(f.states@[t]@[d] == TaskState::Failed);
                        }
                        if exists|t: int, d: int|
                            0 <= t < f.n() && 0 <= d < f.states@[t]@.len() && #[trigger] f.states@[t]@[d]
                                == TaskState::Failed {
                            let (t, d) = choose|t: int, d: int|
                                0 <= t < f.n() && 0 <= d < f.states@[t]@.len()
                                    && #[trigger] f.states@[t]@[d] == TaskState::Failed;
                            assert(o.states@[t]@[d] == TaskState::Failed);
                        }
                    }
                    assert(f.progress_ok()) by {
                        if !f.failed {
                            assert forall|u: int| 0 <= u < f.n() && #[trigger] f.ready(u) implies
                                !f.group_waiting(u) by {
                                assert(o.ready(u));
                                assert(!o.group_waiting(u));
                                if u == s as int && c == 0 {
                                    assert(f.states@[u]@[0] == TaskState::Succeeded);
                                } else {
                                    assert(f.states@[u]@[0] == o.states@[u]@[0]);
                                }
                            }
                        }
                    }
                    assert(f.wf());
                }
                Vec::new()
            }
        }
    }
}

} // verus!

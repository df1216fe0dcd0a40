//! The ordering guarantees of the orchestrator, stated as theorems over
//! any reachable machine state (any state whose invariant holds).

use vstd::prelude::*;

use crate::engine::{count_done, lemma_count_done_bounds, lemma_count_done_full, Orchestrator, TaskState};
use crate::graph::{declares, has_name, must_precede, LiveService, Operation};

verus! {

/// Dependency ordering: a task leaves `Waiting` (its action is allowed to
/// start) only once every container of every predecessor service has
/// succeeded. For a stop this puts every dependent strictly before its
/// prerequisite; for a restart, every prerequisite strictly before its
/// dependent; chains and diamonds follow edge by edge.
pub proof fn lemma_dependency_ordering(o: Orchestrator, t: int, d: int, p: int)
    requires
        o.wf(),
        0 <= t < o.n(),
        0 <= d < o.states@[t]@.len(),
        o.states@[t]@[d] != TaskState::Waiting,
        o.graph.edge(p, t),
    ensures
        0 <= p < o.n(),
        o.group_succeeded(p),
        forall|e: int| 0 <= e < o.states@[p]@.len() ==> #[trigger] o.states@[p]@[e]
            == TaskState::Succeeded,
{
    let row = o.graph.preds@[t]@;
    let k = choose|k: int| 0 <= k < row.len() && #[trigger] row[k] == p;
    assert(row[k] < o.n());
    assert(o.ready(t));
    assert(o.pulses@[t] == count_done(row, o.done_map()));
    lemma_count_done_full(row, o.done_map());
    assert(o.done_map()[row[k] as int]);
    assert(o.group_succeeded(p));
}

/// Failure containment: while any container of a predecessor service has
/// failed, no task of a service depending on it has been dispatched — the
/// dependent group stays blocked and no action is ever invoked for it.
pub proof fn lemma_failure_containment(o: Orchestrator, p: int, e: int, t: int)
    requires
        o.wf(),
        0 <= p < o.n(),
        0 <= e < o.states@[p]@.len(),
        o.states@[p]@[e] == TaskState::Failed,
        o.graph.edge(p, t),
        0 <= t < o.n(),
    ensures
        forall|d: int| 0 <= d < o.states@[t]@.len() ==> #[trigger] o.states@[t]@[d]
            == TaskState::Waiting,
{
    assert forall|d: int| 0 <= d < o.states@[t]@.len() implies #[trigger] o.states@[t]@[d]
        == TaskState::Waiting by {
        if o.states@[t]@[d] != TaskState::Waiting {
            lemma_dependency_ordering(o, t, d, p);
            assert(o.states@[p]@[e] == TaskState::Succeeded);
        }
    }
}

/// Pulse exactness: a service never holds more pulses than its in-degree,
/// and it is unblocked exactly when it holds one pulse per predecessor —
/// never after fewer.
pub proof fn lemma_pulse_exactness(o: Orchestrator, t: int)
    requires
        o.wf(),
        0 <= t < o.n(),
    ensures
        0 <= o.pulses@[t] <= o.graph.in_degree(t),
        !o.group_waiting(t) ==> o.pulses@[t] == o.graph.in_degree(t),
        o.pulses@[t] == count_done(o.graph.preds@[t]@, o.done_map()),
{
    lemma_count_done_bounds(o.graph.preds@[t]@, o.done_map());
    if !o.group_waiting(t) {
        assert(o.states@[t]@[0] != TaskState::Waiting);
        assert(o.ready(t));
    }
}

/// Replica fan-out: all containers of one service are dispatched together;
/// no ordering constraint holds among them.
pub proof fn lemma_replica_fanout(o: Orchestrator, t: int, d1: int, d2: int)
    requires
        o.wf(),
        0 <= t < o.n(),
        0 <= d1 < o.states@[t]@.len(),
        0 <= d2 < o.states@[t]@.len(),
    ensures
        (o.states@[t]@[d1] == TaskState::Waiting) <==> (o.states@[t]@[d2] == TaskState::Waiting),
{
}

/// Edge pruning: a declared prerequisite whose name matches no live
/// service contributes no ordering constraint — dropping it from the
/// declaration leaves the precedence relation of either operation
/// unchanged for every pair of live services.
pub proof fn lemma_dangling_prerequisite_pruned(
    live: Seq<LiveService>,
    live2: Seq<LiveService>,
    i: int,
    k: int,
    op: Operation,
)
    requires
        0 <= i < live.len(),
        0 <= k < live[i].prerequisites@.len(),
        live2.len() == live.len(),
        forall|j: int| 0 <= j < live.len() && j != i ==> live2[j] == live[j],
        live2[i].name == live[i].name,
        live2[i].prerequisites@ == live[i].prerequisites@.remove(k),
        forall|j: int| 0 <= j < live.len() ==> #[trigger] live[j].name@
            != live[i].prerequisites@[k]@,
    ensures
        forall|f: int, t: int|
            0 <= f < live.len() && 0 <= t < live.len()
                ==> (must_precede(op, live, f, t) <==> #[trigger] must_precede(op, live2, f, t)),
{
    assert forall|a: int, b: int|
        0 <= a < live.len() && 0 <= b < live.len() implies (declares(live, a, b)
        <==> #[trigger] declares(live2, a, b)) by {
        assert(live2[b].name@ == live[b].name@);
        if a != i {
            assert(live2[a].prerequisites@ == live[a].prerequisites@);
        } else {
            let ps = live[i].prerequisites@;
            let qs = live2[i].prerequisites@;
            assert(qs == ps.remove(k));
            if declares(live, a, b) {
                let m = choose|m: int| 0 <= m < ps.len() && #[trigger] ps[m]@ == live[b].name@;
                assert(m != k);
                if m < k {
                    assert(qs[m]@ == live2[b].name@);
                } else {
                    assert(qs[m - 1] == ps[m]);
                    assert(qs[m - 1]@ == live2[b].name@);
                }
                assert(has_name(qs, live2[b].name@));
            }
            if declares(live2, a, b) {
                let m = choose|m: int| 0 <= m < qs.len() && #[trigger] qs[m]@ == live2[b].name@;
                if m < k {
                    assert(ps[m]@ == live[b].name@);
                } else {
                    assert(qs[m] == ps[m + 1]);
                    assert(ps[m + 1]@ == live[b].name@);
                }
                assert(has_name(ps, live[b].name@));
            }
        }
    }
}

} // verus!

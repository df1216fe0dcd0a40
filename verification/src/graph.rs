//! Dependency graph for one stop or restart invocation.
//!
//! The graph is built fresh per invocation from the set of live services
//! (services selected by the command that currently have at least one
//! container) and the prerequisite relation declared in the configuration.
//! An edge is materialized only when both of its endpoints are live, and its
//! orientation depends on the requested operation: for a stop the dependent
//! service must finish before its prerequisite, for a restart the
//! prerequisite must finish before the dependent.

use vstd::prelude::*;

verus! {

/// One live service of an invocation: its name, the identifiers of its
/// running containers, and the prerequisite services its configuration
/// declares.
pub struct LiveService {
    pub name: String,
    pub containers: Vec<String>,
    pub prerequisites: Vec<String>,
}

/// The two lifecycle operations; they orient dependency edges oppositely.
#[derive(Clone, Copy, PartialEq, Eq, Structural, Debug)]
pub enum Operation {
    Stop,
    Restart,
}

/// `target` occurs among `names`.
pub open spec fn has_name(names: Seq<String>, target: Seq<char>) -> bool {
    exists|k: int| 0 <= k < names.len() && #[trigger] names[k]@ == target
}

/// Service `i` declares the name of service `j` among its prerequisites.
pub open spec fn declares(live: Seq<LiveService>, i: int, j: int) -> bool {
    has_name(live[i].prerequisites@, live[j].name@)
}

/// The ordering constraint of the operation: `from` must complete before
/// `to` may start its action.
pub open spec fn must_precede(op: Operation, live: Seq<LiveService>, from: int, to: int) -> bool {
    match op {
        Operation::Stop => declares(live, from, to),
        Operation::Restart => declares(live, to, from),
    }
}

/// `x` occurs in an adjacency row.
pub open spec fn row_has(row: Seq<usize>, x: int) -> bool {
    exists|k: int| 0 <= k < row.len() && #[trigger] row[k] == x
}

/// Every entry is a node index below `n` and the row is strictly
/// increasing, so no entry repeats.
pub open spec fn row_wf(row: Seq<usize>, n: int) -> bool {
    &&& forall|k: int| 0 <= k < row.len() ==> #[trigger] row[k] < n
    &&& forall|k1: int, k2: int| 0 <= k1 < k2 < row.len() ==> #[trigger] row[k1] < #[trigger] row[k2]
}

/// Adjacency structure over the live services of one invocation, keyed by
/// index into the live-service list. `preds[t]` are the services that must
/// complete before `t` may act; `succs[f]` are the services unblocked by
/// `f`'s completion.
pub struct Graph {
    pub preds: Vec<Vec<usize>>,
    pub succs: Vec<Vec<usize>>,
}

impl Graph {
    /// Number of nodes (live services).
    pub open spec fn node_count(self) -> int {
        self.preds@.len() as int
    }

    /// `from` must complete before `to` may act.
    pub open spec fn edge(self, from: int, to: int) -> bool {
        0 <= to < self.node_count() && row_has(self.preds@[to]@, from)
    }

    /// Number of distinct predecessors of `t`: the pulses `t` must receive
    /// before it is unblocked.
    pub open spec fn in_degree(self, t: int) -> int {
        self.preds@[t]@.len() as int
    }

    /// Both adjacency tables cover every node, their rows hold distinct
    /// in-range indices, and they list the same edges.
    pub open spec fn wf(self) -> bool {
        &&& self.succs@.len() == self.node_count()
        &&& forall|t: int| 0 <= t < self.node_count() ==> row_wf(#[trigger] self.preds@[t]@, self.node_count())
        &&& forall|t: int| 0 <= t < self.node_count() ==> row_wf(#[trigger] self.succs@[t]@, self.node_count())
        &&& forall|f: int, t: int|
            0 <= f < self.node_count() && 0 <= t < self.node_count()
                ==> (row_has(#[trigger] self.preds@[t]@, f) <==> row_has(#[trigger] self.succs@[f]@, t))
    }
}


/// Whether `target` occurs among `names`.
pub(crate) fn contains_name(names: &Vec<String>, target: &String) -> (r: bool)
    ensures
        r == has_name(names@, target@),
{
    let mut k: usize = 0;
    while k < names.len()
        invariant
            k <= names@.len(),
            forall|m: int| 0 <= m < k ==> #[trigger] names@[m]@ != target@,
        decreases names@.len() - k,
    {
        if names[k] == *target {
            return true;
        }
        k = k + 1;
    }
    false
}

/// Whether `live[i]` declares the name of `live[j]` as a prerequisite.
fn declares_exec(live: &Vec<LiveService>, i: usize, j: usize) -> (r: bool)
    requires
        i < live@.len(),
        j < live@.len(),
    ensures
        r == declares(live@, i as int, j as int),
{
    let names = &live[i].prerequisites;
    let target = &live[j].name;
    let mut k: usize = 0;
    while k < names.len()
        invariant
            i < live@.len(),
            j < live@.len(),
            k <= names@.len(),
            names@ == live@[i as int].prerequisites@,
            target@ == live@[j as int].name@,
            forall|m: int| 0 <= m < k ==> #[trigger] names@[m]@ != target@,
        decreases names@.len() - k,
    {
        if names[k] == *target {
            return true;
        }
        k = k + 1;
    }
    false
}

/// The ascending list of services that declare the name of `j` as a
/// prerequisite: the dependents of `j`.
fn dependents_row(live: &Vec<LiveService>, j: usize) -> (row: Vec<usize>)
    requires
        j < live@.len(),
    ensures
        row_wf(row@, live@.len() as int),
        forall|x: int| row_has(row@, x) <==> 0 <= x < live@.len() && declares(live@, x, j as int),
{
    let n = live.len();
    let mut row: Vec<usize> = Vec::new();
    let mut i: usize = 0;
    while i < n
        invariant
            i <= n,
            n == live@.len(),
            j < live@.len(),
            row_wf(row@, n as int),
            forall|k: int| 0 <= k < row@.len() ==> #[trigger] row@[k] < i,
            forall|x: int| row_has(row@, x) <==> 0 <= x < i && declares(live@, x, j as int),
        decreases n - i,
    {
        let ghost old_row = row@;
        if declares_exec(live, i, j) {
            row.push(i);
            proof {
                assert(row@ == old_row.push(i));
                assert(row@[old_row.len() as int] == i);
                assert forall|x: int| row_has(row@, x) implies 0 <= x < i + 1 && declares(live@, x, j as int) by {
                    let k = choose|k: int| 0 <= k < row@.len() && #[trigger] row@[k] == x;
                    if k < old_row.len() {
                        assert(old_row[k] == x);
                        assert(row_has(old_row, x));
                    } else {
                        assert(x == i);
                    }
                }
                assert forall|x: int| 0 <= x < i + 1 && declares(live@, x, j as int) implies row_has(row@, x) by {
                    if x == i {
                        assert(row@[old_row.len() as int] == x);
                    } else {
                        assert(row_has(old_row, x));
                        let k = choose|k: int| 0 <= k < old_row.len() && #[trigger] old_row[k] == x;
                        assert(row@[k] == x);
                    }
                }
            }
        }
        i = i + 1;
    }
    row
}

/// The ascending list of services whose name `i` declares as a
/// prerequisite: the live prerequisites of `i`.
fn prerequisites_row(live: &Vec<LiveService>, i: usize) -> (row: Vec<usize>)
    requires
        i < live@.len(),
    ensures
        row_wf(row@, live@.len() as int),
        forall|x: int| row_has(row@, x) <==> 0 <= x < live@.len() && declares(live@, i as int, x),
{
    let n = live.len();
    let mut row: Vec<usize> = Vec::new();
    let mut j: usize = 0;
    while j < n
        invariant
            j <= n,
            n == live@.len(),
            i < live@.len(),
            row_wf(row@, n as int),
            forall|k: int| 0 <= k < row@.len() ==> #[trigger] row@[k] < j,
            forall|x: int| row_has(row@, x) <==> 0 <= x < j && declares(live@, i as int, x),
        decreases n - j,
    {
        let ghost old_row = row@;
        if declares_exec(live, i, j) {
            row.push(j);
            proof {
                assert(row@ == old_row.push(j));
                assert(row@[old_row.len() as int] == j);
                assert forall|x: int| row_has(row@, x) implies 0 <= x < j + 1 && declares(live@, i as int, x) by {
                    let k = choose|k: int| 0 <= k < row@.len() && #[trigger] row@[k] == x;
                    if k < old_row.len() {
                        assert(old_row[k] == x);
                        assert(row_has(old_row, x));
                    } else {
                        assert(x == j);
                    }
                }
                assert forall|x: int| 0 <= x < j + 1 && declares(live@, i as int, x) implies row_has(row@, x) by {
                    if x == j {
                        assert(row@[old_row.len() as int] == x);
                    } else {
                        assert(row_has(old_row, x));
                        let k = choose|k: int| 0 <= k < old_row.len() && #[trigger] old_row[k] == x;
                        assert(row@[k] == x);
                    }
                }
            }
        }
        j = j + 1;
    }
    row
}

/// Builds the dependency graph of one invocation: an edge `from -> to`
/// (meaning `from` must complete before `to` may act) exists exactly when
/// the operation's orientation of a declared prerequisite relates the two
/// live services. A prerequisite name that matches no live service yields
/// no edge, and duplicate declarations yield a single edge.
pub fn build_graph(live: &Vec<LiveService>, op: Operation) -> (g: Graph)
    ensures
        g.wf(),
        g.node_count() == live@.len(),
        forall|f: int, t: int|
            0 <= f < live@.len() && 0 <= t < live@.len()
                ==> (g.edge(f, t) <==> must_precede(op, live@, f, t)),
{
    let n = live.len();
    let mut preds: Vec<Vec<usize>> = Vec::new();
    let mut succs: Vec<Vec<usize>> = Vec::new();
    let mut t: usize = 0;
    while t < n
        invariant
            t <= n,
            n == live@.len(),
            preds@.len() == t,
            succs@.len() == t,
            forall|u: int| 0 <= u < t ==> row_wf(#[trigger] preds@[u]@, n as int),
            forall|u: int| 0 <= u < t ==> row_wf(#[trigger] succs@[u]@, n as int),
            forall|u: int, x: int|
                0 <= u < t ==> (#[trigger] row_has(preds@[u]@, x) <==> 0 <= x < n && must_precede(op, live@, x, u)),
            forall|u: int, x: int|
                0 <= u < t ==> (#[trigger] row_has(succs@[u]@, x) <==> 0 <= x < n && must_precede(op, live@, u, x)),
        decreases n - t,
    {
        match op {
            Operation::Stop => {
                preds.push(dependents_row(live, t));
                succs.push(prerequisites_row(live, t));
            }
            Operation::Restart => {
                preds.push(prerequisites_row(live, t));
                succs.push(dependents_row(live, t));
            }
        }
        t = t + 1;
    }
    let g = Graph { preds, succs };
    assert forall|f: int, t2: int|
        0 <= f < g.node_count() && 0 <= t2 < g.node_count() implies (row_has(#[trigger] g.preds@[t2]@, f)
        <==> row_has(#[trigger] g.succs@[f]@, t2)) by {}
    g
}

/// The uniform mailbox capacity of one invocation: the greatest in-degree
/// over all nodes, and at least one. Every node's pulse count fits, so no
/// completion signal can be lost to buffer sizing.
pub fn mailbox_capacity(g: &Graph) -> (r: usize)
    ensures
        r >= 1,
        forall|t: int| 0 <= t < g.node_count() ==> #[trigger] g.in_degree(t) <= r,
        r == 1 || exists|t: int| 0 <= t < g.node_count() && #[trigger] g.in_degree(t) == r,
{
    let n = g.preds.len();
    let mut m: usize = 1;
    let mut t: usize = 0;
    while t < n
        invariant
            t <= n,
            n == g.node_count(),
            m >= 1,
            forall|u: int| 0 <= u < t ==> #[trigger] g.in_degree(u) <= m,
            m == 1 || exists|u: int| 0 <= u < t && #[trigger] g.in_degree(u) == m,
        decreases n - t,
    {
        if g.preds[t].len() > m {
            m = g.preds[t].len();
            assert(g.in_degree(t as int) == m);
        }
        t = t + 1;
    }
    m
}

/// Total number of containers across the live services: one lifecycle task
/// is launched per container, and the rendezvous barrier is sized to this
/// count.
pub open spec fn total_containers(live: Seq<LiveService>) -> int
    decreases live.len(),
{
    if live.len() == 0 {
        0
    } else {
        total_containers(live.drop_last()) + live.last().containers@.len()
    }
}

/// Counts the lifecycle tasks of one invocation; `None` when the total
/// exceeds the machine's limit.
pub fn task_count(live: &Vec<LiveService>) -> (r: Option<usize>)
    ensures
        match r {
            Some(c) => c == total_containers(live@),
            None => total_containers(live@) > usize::MAX,
        },
{
    let n = live.len();
    let mut acc: usize = 0;
    let mut i: usize = 0;
    while i < n
        invariant
            i <= n,
            n == live@.len(),
            acc == total_containers(live@.subrange(0, i as int)),
        decreases n - i,
    {
        proof {
            assert(live@.subrange(0, i + 1).drop_last() =~= live@.subrange(0, i as int));
            assert(live@.subrange(0, i + 1).last() == live@[i as int]);
        }
        match acc.checked_add(live[i].containers.len()) {
            Some(a) => {
                acc = a;
            }
            None => {
                proof {
                    lemma_total_prefix_monotonic(live@, i + 1);
                }
                return None;
            }
        }
        i = i + 1;
    }
    proof {
        assert(live@.subrange(0, n as int) =~= live@);
    }
    Some(acc)
}

/// The container total over a prefix never exceeds the total over the
/// whole list.
proof fn lemma_total_prefix_monotonic(live: Seq<LiveService>, i: int)
    requires
        0 <= i <= live.len(),
    ensures
        total_containers(live.subrange(0, i)) <= total_containers(live),
    decreases live.len() - i,
{
    if i < live.len() {
        lemma_total_prefix_monotonic(live, i + 1);
        assert(live.subrange(0, i + 1).drop_last() =~= live.subrange(0, i));
        assert(live.subrange(0, i + 1).last() == live[i]);
    } else {
        assert(live.subrange(0, i) =~= live);
    }
}

} // verus!

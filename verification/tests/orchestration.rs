//! The dependency-ordered lifecycle orchestration, scenario by scenario.

use podcomp::engine::Orchestrator;
use podcomp::graph::{build_graph, mailbox_capacity, task_count, LiveService, Operation};

fn service(name: &str, containers: &[&str], prerequisites: &[&str]) -> LiveService {
    LiveService {
        name: String::from(name),
        containers: containers.iter().map(|c| String::from(*c)).collect(),
        prerequisites: prerequisites.iter().map(|p| String::from(*p)).collect(),
    }
}

#[test]
fn noop_empty_selection() {
    let live: Vec<LiveService> = Vec::new();
    let (machine, actions) = Orchestrator::begin(&live, Operation::Stop);
    assert!(actions.is_empty());
    assert!(!machine.has_failed());
    assert!(machine.all_succeeded());
    assert_eq!(task_count(&live), Some(0));
}

#[test]
fn linear_teardown_order() {
    // b declares a as prerequisite: stopping must act on b before a.
    let live = vec![service("a", &["a1"], &[]), service("b", &["b1"], &["a"])];
    let (mut machine, actions) = Orchestrator::begin(&live, Operation::Stop);
    assert_eq!(actions, vec![(1, 0)]);
    let next = machine.on_container_result(1, 0, true);
    assert_eq!(next, vec![(0, 0)]);
    let next = machine.on_container_result(0, 0, true);
    assert!(next.is_empty());
    assert!(machine.all_succeeded());
    assert!(!machine.has_failed());
}

#[test]
fn linear_startup_order() {
    // The same configuration restarted acts on a before b.
    let live = vec![service("a", &["a1"], &[]), service("b", &["b1"], &["a"])];
    let (mut machine, actions) = Orchestrator::begin(&live, Operation::Restart);
    assert_eq!(actions, vec![(0, 0)]);
    let next = machine.on_container_result(0, 0, true);
    assert_eq!(next, vec![(1, 0)]);
    let next = machine.on_container_result(1, 0, true);
    assert!(next.is_empty());
    assert!(machine.all_succeeded());
}

#[test]
fn diamond_synchronization() {
    let live = vec![
        service("db", &["db1"], &[]),
        service("cache", &["cache1"], &[]),
        service("web", &["web1"], &["db", "cache"]),
        service("api", &["api1"], &["web"]),
    ];
    let (mut machine, actions) = Orchestrator::begin(&live, Operation::Restart);
    assert_eq!(actions, vec![(0, 0), (1, 0)]);
    // web waits for both db and cache, in either completion order.
    let next = machine.on_container_result(1, 0, true);
    assert!(next.is_empty());
    let next = machine.on_container_result(0, 0, true);
    assert_eq!(next, vec![(2, 0)]);
    let next = machine.on_container_result(2, 0, true);
    assert_eq!(next, vec![(3, 0)]);
    let next = machine.on_container_result(3, 0, true);
    assert!(next.is_empty());
    assert!(machine.all_succeeded());
}

#[test]
fn replica_fanout() {
    // All three replicas start together; the dependent waits for all three.
    let live = vec![
        service("x", &["x1", "x2", "x3"], &[]),
        service("y", &["y1"], &["x"]),
    ];
    let (mut machine, actions) = Orchestrator::begin(&live, Operation::Restart);
    assert_eq!(actions, vec![(0, 0), (0, 1), (0, 2)]);
    assert!(machine.on_container_result(0, 1, true).is_empty());
    assert!(machine.on_container_result(0, 0, true).is_empty());
    let next = machine.on_container_result(0, 2, true);
    assert_eq!(next, vec![(1, 0)]);
}

#[test]
fn failure_containment() {
    // One failing replica fails the group: no successor is ever unblocked.
    let live = vec![
        service("x", &["x1", "x2"], &[]),
        service("y", &["y1"], &["x"]),
    ];
    let (mut machine, actions) = Orchestrator::begin(&live, Operation::Restart);
    assert_eq!(actions, vec![(0, 0), (0, 1)]);
    let next = machine.on_container_result(0, 0, false);
    assert!(next.is_empty());
    assert!(machine.has_failed());
    // The sibling still runs to completion, but nothing more is dispatched.
    let next = machine.on_container_result(0, 1, true);
    assert!(next.is_empty());
    assert!(!machine.all_succeeded());
}

#[test]
fn edge_pruning() {
    // A prerequisite with no live container imposes no wait.
    let live = vec![service("a", &["a1"], &["ghost"])];
    let (mut machine, actions) = Orchestrator::begin(&live, Operation::Restart);
    assert_eq!(actions, vec![(0, 0)]);
    machine.on_container_result(0, 0, true);
    assert!(machine.all_succeeded());
}

#[test]
fn capacity_matches_fan_in() {
    let live = vec![
        service("x", &["x1"], &[]),
        service("y", &["y1"], &[]),
        service("z", &["z1"], &[]),
        service("w", &["w1"], &["x", "y", "z"]),
    ];
    let g = build_graph(&live, Operation::Restart);
    assert_eq!(mailbox_capacity(&g), 3);
    let g2 = build_graph(&live, Operation::Stop);
    // Under stop-orientation the fan-in of three becomes fan-out.
    assert_eq!(mailbox_capacity(&g2), 1);
    assert_eq!(task_count(&live), Some(4));
}

#[test]
fn duplicate_declarations_single_edge() {
    let live = vec![
        service("a", &["a1"], &[]),
        service("b", &["b1"], &["a", "a"]),
    ];
    let g = build_graph(&live, Operation::Restart);
    assert_eq!(mailbox_capacity(&g), 1);
    let (mut machine, actions) = Orchestrator::begin(&live, Operation::Restart);
    assert_eq!(actions, vec![(0, 0)]);
    let next = machine.on_container_result(0, 0, true);
    assert_eq!(next, vec![(1, 0)]);
}

#[test]
fn container_names_carried() {
    let live = vec![service("a", &["one", "two"], &[])];
    let (machine, actions) = Orchestrator::begin(&live, Operation::Stop);
    assert_eq!(actions.len(), 2);
    assert_eq!(machine.container_name(0, 0).as_str(), "one");
    assert_eq!(machine.container_name(0, 1).as_str(), "two");
}

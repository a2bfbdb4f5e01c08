use build_critical_path::backend::{BuildListenerBackend, CriticalPathError};
use build_critical_path::dispatch::BuildSignalReceiver;
use build_critical_path::graph::{compute_critical_path_potentials, GraphBuilder, NodeData};
use build_critical_path::longest::LongestPathGraphBackend;
use build_critical_path::signals::{
    ActionExecutionSignal, ActionInfo, ActionKey, BuildSignal, InputRef, NodeKey,
};

fn act(id: u64, owner: &str) -> ActionInfo {
    ActionInfo {
        key: ActionKey(id),
        owner: owner.to_string(),
        category: "build".to_string(),
        identifier: None,
    }
}

fn exec(id: u64, duration: u64, deps: &[u64]) -> BuildSignal {
    BuildSignal::ActionExecution(ActionExecutionSignal {
        action: act(id, "cell//pkg:t"),
        duration,
        inputs: deps
            .iter()
            .map(|d| InputRef::Artifact(Some(ActionKey(*d))))
            .collect(),
    })
}

#[test]
fn heavier_chain_wins() {
    // Two disjoint chains of total weight 10 and 15: the reported path is
    // the weight-15 chain, the totals cover the union of both.
    let mut r = BuildSignalReceiver::new(LongestPathGraphBackend::new());
    r.on_signal(exec(1, 4, &[])).unwrap();
    r.on_signal(exec(2, 6, &[1])).unwrap();
    r.on_signal(exec(3, 7, &[])).unwrap();
    r.on_signal(exec(4, 8, &[3])).unwrap();
    let info = r
        .on_signal(BuildSignal::BuildFinished)
        .unwrap()
        .unwrap();
    assert_eq!(info.num_nodes, 4);
    assert_eq!(info.num_edges, 2);
    let keys: Vec<_> = info.critical_path.iter().map(|e| e.action_key).collect();
    assert_eq!(keys, vec![Some(ActionKey(3)), Some(ActionKey(4))]);
    let durations: Vec<u64> = info.critical_path.iter().map(|e| e.duration).collect();
    assert_eq!(durations, vec![7, 8]);
}

#[test]
fn forward_references_resolve_at_finalization() {
    let mut r = BuildSignalReceiver::new(LongestPathGraphBackend::new());
    // The dependent arrives before its dependency; the exact backend
    // resolves references only when finalizing.
    r.on_signal(exec(2, 6, &[1])).unwrap();
    r.on_signal(exec(1, 4, &[])).unwrap();
    let info = r
        .on_signal(BuildSignal::BuildFinished)
        .unwrap()
        .unwrap();
    assert_eq!(info.num_edges, 1);
    let keys: Vec<_> = info.critical_path.iter().map(|e| e.action_key).collect();
    assert_eq!(keys, vec![Some(ActionKey(1)), Some(ActionKey(2))]);
}

#[test]
fn duplicate_identity_poisons_until_finalization() {
    let mut backend = LongestPathGraphBackend::new();
    backend.process_node(NodeKey::ActionKey(ActionKey(1)), None, 3, vec![]);
    backend.process_node(NodeKey::ActionKey(ActionKey(1)), None, 5, vec![]);
    // Writes after the duplicate are no-ops; the retained error is
    // observable without finalizing.
    backend.process_node(NodeKey::ActionKey(ActionKey(2)), None, 7, vec![]);
    assert_eq!(
        backend.poison(),
        Some(CriticalPathError::DuplicateKey(NodeKey::ActionKey(ActionKey(1))))
    );
    assert_eq!(
        backend.finalize(),
        Err(CriticalPathError::DuplicateKey(NodeKey::ActionKey(ActionKey(1))))
    );
}

#[test]
fn duplicate_identity_error_is_deterministic() {
    // Finalizing two equal poisoned states yields the same error, so a
    // repeated finalization can never report anything else.
    let build = || {
        let mut backend = LongestPathGraphBackend::new();
        backend.process_node(NodeKey::ActionKey(ActionKey(9)), None, 1, vec![]);
        backend.process_node(NodeKey::ActionKey(ActionKey(9)), None, 2, vec![]);
        backend
    };
    let first = build().finalize();
    let second = build().finalize();
    assert_eq!(
        first,
        Err(CriticalPathError::DuplicateKey(NodeKey::ActionKey(ActionKey(9))))
    );
    assert_eq!(first, second);
}

#[test]
fn dependency_cycle_is_a_finalization_error() {
    let mut r = BuildSignalReceiver::new(LongestPathGraphBackend::new());
    r.on_signal(exec(1, 4, &[2])).unwrap();
    r.on_signal(exec(2, 6, &[1])).unwrap();
    assert_eq!(
        r.on_signal(BuildSignal::BuildFinished),
        Err(CriticalPathError::DependencyCycle)
    );
}

#[test]
fn duration_overflow_is_a_reported_error() {
    let mut r = BuildSignalReceiver::new(LongestPathGraphBackend::new());
    r.on_signal(exec(1, u64::MAX, &[])).unwrap();
    r.on_signal(exec(2, 1, &[1])).unwrap();
    assert_eq!(
        r.on_signal(BuildSignal::BuildFinished),
        Err(CriticalPathError::DurationOverflow)
    );
}

#[test]
fn unresolved_references_are_no_edges() {
    let mut r = BuildSignalReceiver::new(LongestPathGraphBackend::new());
    r.on_signal(exec(1, 4, &[42])).unwrap();
    let info = r
        .on_signal(BuildSignal::BuildFinished)
        .unwrap()
        .unwrap();
    assert_eq!(info.num_nodes, 1);
    assert_eq!(info.num_edges, 0);
}

#[test]
fn empty_build_has_empty_summary() {
    let mut r = BuildSignalReceiver::new(LongestPathGraphBackend::new());
    let info = r
        .on_signal(BuildSignal::BuildFinished)
        .unwrap()
        .unwrap();
    assert_eq!(info.num_nodes, 0);
    assert_eq!(info.num_edges, 0);
    assert!(info.critical_path.is_empty());
}

#[test]
fn potentials_cover_every_vertex() {
    let mut builder = GraphBuilder::new();
    builder
        .push(
            NodeKey::ActionKey(ActionKey(1)),
            vec![],
            NodeData { action: None, duration: 3 },
        )
        .unwrap();
    builder
        .push(
            NodeKey::ActionKey(ActionKey(2)),
            vec![NodeKey::ActionKey(ActionKey(1))],
            NodeData { action: None, duration: 4 },
        )
        .unwrap();
    builder
        .push(
            NodeKey::ActionKey(ActionKey(3)),
            vec![NodeKey::ActionKey(ActionKey(1))],
            NodeData { action: None, duration: 1 },
        )
        .unwrap();
    let (graph, edges) = builder.finish();
    assert_eq!(edges, 2);
    let (path, cost, potentials) = compute_critical_path_potentials(&graph).unwrap();
    assert_eq!(cost, 7);
    assert_eq!(path, vec![0, 1]);
    // The potential of a vertex is the weight of the heaviest chain
    // through it; the savings of the side branch is 7 - 4 = 3.
    assert_eq!(potentials, vec![7, 7, 4]);
}

use build_critical_path::backend::BuildInfo;
use build_critical_path::dispatch::BuildSignalReceiver;
use build_critical_path::signals::{
    ActionExecutionSignal, ActionInfo, ActionKey, ActionRedirectionSignal, BuildSignal, InputRef,
    TransitiveSetComputationSignal, TransitiveSetProjectionKey,
};
use build_critical_path::streaming::DefaultBackend;

fn act(id: u64, owner: &str, category: &str, identifier: Option<&str>) -> ActionInfo {
    ActionInfo {
        key: ActionKey(id),
        owner: owner.to_string(),
        category: category.to_string(),
        identifier: identifier.map(|s| s.to_string()),
    }
}

fn exec(id: u64, duration: u64, deps: &[u64]) -> BuildSignal {
    BuildSignal::ActionExecution(ActionExecutionSignal {
        action: act(id, "cell//pkg:target", "cxx_compile", None),
        duration,
        inputs: deps
            .iter()
            .map(|d| InputRef::Artifact(Some(ActionKey(*d))))
            .collect(),
    })
}

fn finish(receiver: &mut BuildSignalReceiver<DefaultBackend>) -> BuildInfo {
    receiver
        .on_signal(BuildSignal::BuildFinished)
        .unwrap()
        .unwrap()
}

#[test]
fn single_action_summary() {
    let mut r = BuildSignalReceiver::new(DefaultBackend::new());
    r.on_signal(exec(1, 5, &[])).unwrap();
    let info = finish(&mut r);
    assert_eq!(info.num_nodes, 1);
    assert_eq!(info.num_edges, 0);
    assert_eq!(info.critical_path.len(), 1);
    assert_eq!(info.critical_path[0].action_name, "cell//pkg:target cxx_compile");
    assert_eq!(info.critical_path[0].duration, 5);
    assert_eq!(info.critical_path[0].action_key, Some(ActionKey(1)));
}

#[test]
fn chain_beats_heavy_sibling() {
    let mut r = BuildSignalReceiver::new(DefaultBackend::new());
    r.on_signal(exec(1, 5, &[])).unwrap();
    r.on_signal(exec(2, 6, &[1])).unwrap();
    r.on_signal(exec(3, 7, &[2])).unwrap();
    r.on_signal(exec(4, 9, &[1])).unwrap();
    let info = finish(&mut r);
    assert_eq!(info.num_nodes, 4);
    assert_eq!(info.num_edges, 3);
    let durations: Vec<u64> = info.critical_path.iter().map(|e| e.duration).collect();
    assert_eq!(durations, vec![5, 6, 7]);
    let keys: Vec<_> = info.critical_path.iter().map(|e| e.action_key).collect();
    assert_eq!(
        keys,
        vec![Some(ActionKey(1)), Some(ActionKey(2)), Some(ActionKey(3))]
    );
}

#[test]
fn redirection_is_a_zero_cost_hop() {
    let mut r = BuildSignalReceiver::new(DefaultBackend::new());
    // Work recorded under B executes; the provisional identity A resolves
    // to B; C consumed A.
    r.on_signal(exec(2, 5, &[])).unwrap();
    r.on_signal(BuildSignal::ActionRedirection(ActionRedirectionSignal {
        key: ActionKey(1),
        dest: ActionKey(2),
    }))
    .unwrap();
    r.on_signal(exec(3, 2, &[1])).unwrap();
    let info = finish(&mut r);
    // The synthetic hop counts toward the totals but never shows in the
    // reported path.
    assert_eq!(info.num_nodes, 3);
    assert_eq!(info.num_edges, 2);
    let keys: Vec<_> = info.critical_path.iter().map(|e| e.action_key).collect();
    assert_eq!(keys, vec![Some(ActionKey(2)), Some(ActionKey(3))]);
    let durations: Vec<u64> = info.critical_path.iter().map(|e| e.duration).collect();
    assert_eq!(durations, vec![5, 2]);
}

#[test]
fn projection_links_artifacts_to_consumers() {
    let mut r = BuildSignalReceiver::new(DefaultBackend::new());
    r.on_signal(exec(1, 4, &[])).unwrap();
    r.on_signal(BuildSignal::TransitiveSetComputation(
        TransitiveSetComputationSignal {
            key: TransitiveSetProjectionKey(7),
            artifacts: vec![ActionKey(1)],
            set_deps: vec![],
        },
    ))
    .unwrap();
    let consumer = BuildSignal::ActionExecution(ActionExecutionSignal {
        action: act(2, "cell//pkg:user", "link", None),
        duration: 3,
        inputs: vec![InputRef::Projection(TransitiveSetProjectionKey(7))],
    });
    r.on_signal(consumer).unwrap();
    let info = finish(&mut r);
    assert_eq!(info.num_nodes, 3);
    assert_eq!(info.num_edges, 2);
    let durations: Vec<u64> = info.critical_path.iter().map(|e| e.duration).collect();
    assert_eq!(durations, vec![4, 3]);
}

#[test]
fn sends_after_termination_are_ignored() {
    let mut r = BuildSignalReceiver::new(DefaultBackend::new());
    r.on_signal(exec(1, 5, &[])).unwrap();
    let info = finish(&mut r);
    assert_eq!(info.critical_path.len(), 1);
    // The consumer terminated exactly once: anything after is a no-op,
    // never an error and never a second summary.
    assert!(matches!(r.on_signal(exec(2, 9, &[])), Ok(None)));
    assert!(matches!(r.on_signal(BuildSignal::BuildFinished), Ok(None)));
}

#[test]
fn identifier_shows_in_brackets() {
    let mut r = BuildSignalReceiver::new(DefaultBackend::new());
    let sig = BuildSignal::ActionExecution(ActionExecutionSignal {
        action: act(1, "cell//pkg:lib", "cxx_link", Some("out.so")),
        duration: 2,
        inputs: vec![],
    });
    r.on_signal(sig).unwrap();
    let info = finish(&mut r);
    assert_eq!(info.critical_path[0].action_name, "cell//pkg:lib cxx_link[out.so]");
    assert_eq!(info.critical_path[0].category, "cxx_link");
    assert_eq!(info.critical_path[0].identifier, "out.so");
}

#[test]
fn duplicate_dependencies_count_once() {
    let mut r = BuildSignalReceiver::new(DefaultBackend::new());
    r.on_signal(exec(1, 5, &[])).unwrap();
    r.on_signal(exec(2, 1, &[1, 1, 1])).unwrap();
    let info = finish(&mut r);
    assert_eq!(info.num_edges, 1);
}

#[test]
fn source_artifacts_contribute_no_edge() {
    let mut r = BuildSignalReceiver::new(DefaultBackend::new());
    let sig = BuildSignal::ActionExecution(ActionExecutionSignal {
        action: act(1, "cell//pkg:gen", "genrule", None),
        duration: 3,
        inputs: vec![InputRef::Artifact(None), InputRef::Artifact(None)],
    });
    r.on_signal(sig).unwrap();
    let info = finish(&mut r);
    assert_eq!(info.num_edges, 0);
    assert_eq!(info.num_nodes, 1);
}

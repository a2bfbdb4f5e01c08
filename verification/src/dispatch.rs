//! The signal consumer: translates each signal into one uniform backend
//! call and finalizes the backend when the terminal signal arrives.
//!
//! The consumer terminates exactly once per build: signals handed to it
//! after the terminal one are accepted and ignored, never an error.

use vstd::prelude::*;

use crate::backend::BuildInfo;
use crate::backend::BuildListenerBackend;
use crate::backend::CriticalPathError;
use crate::backend::ProcessCall;
use crate::signals::ActionExecutionSignal;
use crate::signals::ActionRedirectionSignal;
use crate::signals::BuildSignal;
use crate::signals::InputRef;
use crate::signals::NodeKey;
use crate::signals::TransitiveSetComputationSignal;
use crate::signals::TransitiveSetProjectionKey;
use crate::signals::ActionKey;

verus! {

/// The dependency keys of an executed action: the producing action of
/// each consumed artifact (source artifacts contribute none) and every
/// consumed projection, in input order.
pub open spec fn dep_keys_of_inputs(inputs: Seq<InputRef>) -> Seq<NodeKey>
    decreases inputs.len(),
{
    if inputs.len() == 0 {
        Seq::empty()
    } else {
        let p = dep_keys_of_inputs(inputs.drop_last());
        match inputs.last() {
            InputRef::Artifact(ok) => match ok {
                Option::Some(k) => p.push(NodeKey::ActionKey(k)),
                Option::None => p,
            },
            InputRef::Projection(pk) => p.push(NodeKey::TransitiveSetProjection(pk)),
        }
    }
}

/// The dependency keys of a computed projection: every produced artifact
/// and every nested projection.
pub open spec fn tset_dep_keys(
    artifacts: Seq<ActionKey>,
    set_deps: Seq<TransitiveSetProjectionKey>,
) -> Seq<NodeKey> {
    artifacts.map_values(|k: ActionKey| NodeKey::ActionKey(k)) + set_deps.map_values(
        |k: TransitiveSetProjectionKey| NodeKey::TransitiveSetProjection(k),
    )
}

/// The uniform backend call that a signal translates to, none for the
/// terminal signal.
pub open spec fn translated(signal: BuildSignal) -> Option<ProcessCall> {
    match signal {
        BuildSignal::ActionExecution(e) => Some(
            ProcessCall {
                key: NodeKey::ActionKey(e.action.key),
                value: Some(e.action),
                duration: e.duration,
                deps: dep_keys_of_inputs(e.inputs@),
            },
        ),
        BuildSignal::TransitiveSetComputation(t) => Some(
            ProcessCall {
                key: NodeKey::TransitiveSetProjection(t.key),
                value: None,
                duration: 0,
                deps: tset_dep_keys(t.artifacts@, t.set_deps@),
            },
        ),
        BuildSignal::ActionRedirection(r) => Some(
            ProcessCall {
                key: NodeKey::ActionKey(r.key),
                value: None,
                duration: 0,
                deps: seq![NodeKey::ActionKey(r.dest)],
            },
        ),
        BuildSignal::BuildFinished => None,
    }
}

/// The consumer of build signals: holds the backend until the terminal
/// signal arrives, then finalizes it exactly once.
pub struct BuildSignalReceiver<T: BuildListenerBackend> {
    backend: Option<T>,
    finished: bool,
}

impl<T: BuildListenerBackend> BuildSignalReceiver<T> {
    /// The terminal signal has been consumed.
    pub closed spec fn finished(&self) -> bool {
        self.finished
    }

    pub closed spec fn backend_spec(&self) -> Option<T> {
        self.backend
    }

    /// The calls handed to the backend so far, newest last.
    pub open spec fn calls(&self) -> Seq<ProcessCall> {
        self.backend_spec()->Some_0.calls()
    }

    pub closed spec fn inv(&self) -> bool {
        &&& self.backend is Some <==> !self.finished
        &&& self.backend matches Some(b) ==> b.inv()
    }

    pub fn new(backend: T) -> (r: BuildSignalReceiver<T>)
        requires
            backend.inv(),
        ensures
            r.inv(),
            !r.finished(),
            r.backend_spec() == Some(backend),
    {
        BuildSignalReceiver { backend: Some(backend), finished: false }
    }

    /// Record one executed action: its dependency keys are the producing
    /// actions of its artifact inputs plus its projection inputs.
    pub fn process_action(&mut self, execution: ActionExecutionSignal)
        requires
            old(self).inv(),
            !old(self).finished(),
        ensures
            final(self).inv(),
            !final(self).finished(),
            final(self).calls() == old(self).calls().push(
                translated(BuildSignal::ActionExecution(execution))->Some_0,
            ),
    {
        let ActionExecutionSignal { action, duration, inputs } = execution;
        let n = inputs.len();
        let mut dep_keys: Vec<NodeKey> = Vec::new();
        let mut i: usize = 0;
        while i < n
            invariant
                n == inputs@.len(),
                0 <= i <= n,
                dep_keys@ == dep_keys_of_inputs(inputs@.take(i as int)),
            decreases n - i,
        {
            proof {
                assert(inputs@.take(i + 1).drop_last() =~= inputs@.take(i as int));
                assert(inputs@.take(i + 1).last() == inputs@[i as int]);
            }
            match inputs[i] {
                InputRef::Artifact(producer) => match producer {
                    Some(k) => {
                        dep_keys.push(NodeKey::ActionKey(k));
                    },
                    None => {},
                },
                InputRef::Projection(pk) => {
                    dep_keys.push(NodeKey::TransitiveSetProjection(pk));
                },
            }
            i = i + 1;
        }
        proof {
            assert(inputs@.take(n as int) =~= inputs@);
        }
        let key = NodeKey::ActionKey(action.key);
        match &mut self.backend {
            Some(b) => {
                b.process_node(key, Some(action), duration, dep_keys);
            },
            None => {},
        }
    }

    /// Record a redirection: a synthetic zero-duration node at the
    /// superseded identity, depending on its replacement, so that chains
    /// keep no broken link.
    pub fn process_action_redirection(&mut self, redirection: ActionRedirectionSignal)
        requires
            old(self).inv(),
            !old(self).finished(),
        ensures
            final(self).inv(),
            !final(self).finished(),
            final(self).calls() == old(self).calls().push(
                translated(BuildSignal::ActionRedirection(redirection))->Some_0,
            ),
    {
        let mut dep_keys: Vec<NodeKey> = Vec::new();
        dep_keys.push(NodeKey::ActionKey(redirection.dest));
        proof {
            assert(dep_keys@ =~= seq![NodeKey::ActionKey(redirection.dest)]);
        }
        match &mut self.backend {
            Some(b) => {
                b.process_node(
                    NodeKey::ActionKey(redirection.key),
                    None,
                    0,
                    dep_keys,
                );
            },
            None => {},
        }
    }

    /// Record a computed projection: a synthetic zero-duration node
    /// depending on every produced artifact and nested projection.
    pub fn process_transitive_set_computation(&mut self, set: TransitiveSetComputationSignal)
        requires
            old(self).inv(),
            !old(self).finished(),
        ensures
            final(self).inv(),
            !final(self).finished(),
            final(self).calls() == old(self).calls().push(
                translated(BuildSignal::TransitiveSetComputation(set))->Some_0,
            ),
    {
        let TransitiveSetComputationSignal { key, artifacts, set_deps } = set;
        let na = artifacts.len();
        let ns = set_deps.len();
        let mut dep_keys: Vec<NodeKey> = Vec::new();
        let mut i: usize = 0;
        while i < na
            invariant
                na == artifacts@.len(),
                0 <= i <= na,
                dep_keys@.len() == i,
                forall|j: int|
                    0 <= j < i ==> #[trigger] dep_keys@[j] == NodeKey::ActionKey(artifacts@[j]),
            decreases na - i,
        {
            dep_keys.push(NodeKey::ActionKey(artifacts[i]));
            i = i + 1;
        }
        let mut j: usize = 0;
        while j < ns
            invariant
                na == artifacts@.len(),
                ns == set_deps@.len(),
                0 <= j <= ns,
                dep_keys@.len() == na + j,
                forall|t: int|
                    0 <= t < na ==> #[trigger] dep_keys@[t] == NodeKey::ActionKey(artifacts@[t]),
                forall|t: int|
                    na <= t < na + j ==> #[trigger] dep_keys@[t]
                        == NodeKey::TransitiveSetProjection(set_deps@[t - na]),
            decreases ns - j,
        {
            dep_keys.push(NodeKey::TransitiveSetProjection(set_deps[j]));
            j = j + 1;
        }
        proof {
            let ma = artifacts@.map_values(|k: ActionKey| NodeKey::ActionKey(k));
            let ms = set_deps@.map_values(
                |k: TransitiveSetProjectionKey| NodeKey::TransitiveSetProjection(k),
            );
            assert(forall|t: int| 0 <= t < na ==> #[trigger] ma[t] == NodeKey::ActionKey(
                artifacts@[t],
            ));
            assert(forall|t: int|
                0 <= t < ns ==> #[trigger] ms[t] == NodeKey::TransitiveSetProjection(
                    set_deps@[t],
                ));
            assert(dep_keys@ =~= ma + ms);
        }
        match &mut self.backend {
            Some(b) => {
                b.process_node(NodeKey::TransitiveSetProjection(key), None, 0, dep_keys);
            },
            None => {},
        }
    }

    /// Consume one signal. Translates execution facts into backend calls;
    /// on the terminal signal, finalizes the backend exactly once and
    /// yields what its finalization promised — the summary it pins, or its
    /// error. Signals after termination are no-ops.
    pub fn on_signal(&mut self, signal: BuildSignal) -> (r: Result<
        Option<BuildInfo>,
        CriticalPathError,
    >)
        requires
            old(self).inv(),
        ensures
            final(self).inv(),
            old(self).finished() ==> *final(self) == *old(self) && r == Ok::<
                Option<BuildInfo>,
                CriticalPathError,
            >(None),
            !old(self).finished() && translated(signal) is Some ==> !final(self).finished()
                && final(self).calls() == old(self).calls().push(translated(signal)->Some_0) && r
                == Ok::<Option<BuildInfo>, CriticalPathError>(None),
            !old(self).finished() && translated(signal) is None ==> final(self).finished()
                && match r {
                Result::Ok(oi) => oi matches Some(info) && old(self).backend_spec()->Some_0.finish_ok(
                    info,
                ),
                Result::Err(e) => old(self).backend_spec()->Some_0.finish_err(e),
            },
    {
        if self.finished {
            return Ok(None);
        }
        match signal {
            BuildSignal::ActionExecution(execution) => {
                self.process_action(execution);
                Ok(None)
            },
            BuildSignal::TransitiveSetComputation(set) => {
                self.process_transitive_set_computation(set);
                Ok(None)
            },
            BuildSignal::ActionRedirection(redirection) => {
                self.process_action_redirection(redirection);
                Ok(None)
            },
            BuildSignal::BuildFinished => {
                self.finished = true;
                match self.backend.take() {
                    Some(b) => match b.finish() {
                        Ok(info) => Ok(Some(info)),
                        Err(e) => Err(e),
                    },
                    None => Ok(None),
                }
            },
        }
    }
}

} // verus!

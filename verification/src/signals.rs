//! Identities of graph vertices and the signals that execution contexts emit.

use vstd::prelude::*;

verus! {

/// Identity of one executed unit of work (an action).
#[derive(Clone, Copy, PartialEq, Eq, Structural, Hash, Debug)]
pub struct ActionKey(pub u64);

/// Identity of a computed transitive-set projection (a synthetic
/// aggregation over a set of artifacts).
#[derive(Clone, Copy, PartialEq, Eq, Structural, Hash, Debug)]
pub struct TransitiveSetProjectionKey(pub u64);

/// Identity of a vertex in the execution dependency graph: either an
/// executed action or a projection. Pure identity, no graph ownership.
#[derive(Clone, Copy, PartialEq, Eq, Structural, Hash, Debug)]
pub enum NodeKey {
    ActionKey(ActionKey),
    TransitiveSetProjection(TransitiveSetProjectionKey),
}

/// What the engine reads of an executed action: its identity and the
/// fields used to render a critical-path entry.
#[derive(Debug)]
pub struct ActionInfo {
    pub key: ActionKey,
    pub owner: String,
    pub category: String,
    pub identifier: Option<String>,
}

/// One resolved input of an executed action: a direct artifact (with the
/// identity of its producing action, if any; source artifacts have none)
/// or a projection.
#[derive(Clone, Copy, PartialEq, Eq, Structural, Debug)]
pub enum InputRef {
    Artifact(Option<ActionKey>),
    Projection(TransitiveSetProjectionKey),
}

/// An action finished executing.
#[derive(Debug)]
pub struct ActionExecutionSignal {
    pub action: ActionInfo,
    pub duration: u64,
    pub inputs: Vec<InputRef>,
}

/// A transitive-set projection was computed over a set of artifacts and
/// nested projections.
#[derive(Debug)]
pub struct TransitiveSetComputationSignal {
    pub key: TransitiveSetProjectionKey,
    pub artifacts: Vec<ActionKey>,
    pub set_deps: Vec<TransitiveSetProjectionKey>,
}

/// A provisional action identity was superseded by another: work recorded
/// under `key` actually resolved to `dest`. Tracked so that predecessor
/// chains keep no broken link.
#[derive(Clone, Copy, PartialEq, Eq, Structural, Debug)]
pub struct ActionRedirectionSignal {
    pub key: ActionKey,
    pub dest: ActionKey,
}

/// A fact emitted by an execution context, or the terminal marker.
#[derive(Debug)]
pub enum BuildSignal {
    ActionExecution(ActionExecutionSignal),
    TransitiveSetComputation(TransitiveSetComputationSignal),
    ActionRedirection(ActionRedirectionSignal),
    BuildFinished,
}

impl From<ActionExecutionSignal> for BuildSignal {
    fn from(s: ActionExecutionSignal) -> (r: BuildSignal) {
        BuildSignal::ActionExecution(s)
    }
}

impl vstd::std_specs::convert::FromSpecImpl<ActionExecutionSignal> for BuildSignal {
    open spec fn obeys_from_spec() -> bool {
        true
    }

    open spec fn from_spec(s: ActionExecutionSignal) -> BuildSignal {
        BuildSignal::ActionExecution(s)
    }
}

impl From<TransitiveSetComputationSignal> for BuildSignal {
    fn from(s: TransitiveSetComputationSignal) -> (r: BuildSignal) {
        BuildSignal::TransitiveSetComputation(s)
    }
}

impl vstd::std_specs::convert::FromSpecImpl<TransitiveSetComputationSignal> for BuildSignal {
    open spec fn obeys_from_spec() -> bool {
        true
    }

    open spec fn from_spec(s: TransitiveSetComputationSignal) -> BuildSignal {
        BuildSignal::TransitiveSetComputation(s)
    }
}

impl From<ActionRedirectionSignal> for BuildSignal {
    fn from(s: ActionRedirectionSignal) -> (r: BuildSignal) {
        BuildSignal::ActionRedirection(s)
    }
}

impl vstd::std_specs::convert::FromSpecImpl<ActionRedirectionSignal> for BuildSignal {
    open spec fn obeys_from_spec() -> bool {
        true
    }

    open spec fn from_spec(s: ActionRedirectionSignal) -> BuildSignal {
        BuildSignal::ActionRedirection(s)
    }
}

} // verus!

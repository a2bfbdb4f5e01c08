//! The backend interface shared by the two critical-path strategies, and
//! the summary types they produce.

use vstd::prelude::*;
use vstd::string::StringExecFns;

use crate::signals::ActionInfo;
use crate::signals::ActionKey;
use crate::signals::NodeKey;

verus! {

/// One entry of the reported critical path.
#[derive(Debug, PartialEq)]
pub struct CriticalPathEntry {
    /// Rendered display name: owner, category and optional identifier.
    pub action_name: String,
    pub action_key: Option<ActionKey>,
    pub duration: u64,
    pub category: String,
    /// Identifier of the action, or empty when it has none.
    pub identifier: String,
}

/// The summary produced once per build when the terminal signal arrives.
#[derive(Debug, PartialEq)]
pub struct BuildInfo {
    pub critical_path: Vec<CriticalPathEntry>,
    pub num_nodes: u64,
    pub num_edges: u64,
}

/// A structural error met while building or finalizing the explicit graph.
#[derive(Clone, Copy, PartialEq, Eq, Structural, Debug)]
pub enum CriticalPathError {
    /// The same identity was inserted twice.
    DuplicateKey(NodeKey),
    /// The dependency references close a cycle, so no longest path exists.
    DependencyCycle,
    /// A chain's total duration does not fit the reported integer unit.
    DurationOverflow,
}

/// One recorded `process_node` call, as the backends log it in ghost state.
pub struct ProcessCall {
    pub key: NodeKey,
    pub value: Option<ActionInfo>,
    pub duration: u64,
    pub deps: Seq<NodeKey>,
}

/// A consumer of execution facts: receives one `process_node` call per
/// signal and, on finalization, yields the build summary.
pub trait BuildListenerBackend: Sized {
    /// The calls received so far, newest last.
    spec fn calls(&self) -> Seq<ProcessCall>;

    /// The backend's own invariant.
    spec fn inv(&self) -> bool;

    /// What this backend promises of a summary it yields.
    spec fn finish_ok(self, info: BuildInfo) -> bool;

    /// What this backend promises of an error it yields instead.
    spec fn finish_err(self, e: CriticalPathError) -> bool;

    /// Record one executed unit of work: its identity, optional metadata
    /// (absent for synthetic nodes), duration, and dependency keys.
    fn process_node(
        &mut self,
        key: NodeKey,
        value: Option<ActionInfo>,
        duration: u64,
        dep_keys: Vec<NodeKey>,
    )
        requires
            old(self).inv(),
        ensures
            final(self).inv(),
            final(self).calls() == old(self).calls().push(
                ProcessCall { key, value, duration, deps: dep_keys@ },
            ),
    ;

    /// Finalize into a summary. Deferred structural errors surface here;
    /// what comes back is pinned by the backend's own promises.
    fn finish(self) -> (r: Result<BuildInfo, CriticalPathError>)
        requires
            self.inv(),
        ensures
            match r {
                Result::Ok(info) => self.finish_ok(info),
                Result::Err(e) => self.finish_err(e),
            },
    ;
}

/// The display name of an action: owner and category separated by one
/// space, followed by the identifier in brackets when there is one.
pub open spec fn display_name_spec(
    owner: Seq<char>,
    category: Seq<char>,
    identifier: Option<Seq<char>>,
) -> Seq<char> {
    owner + " "@ + category + match identifier {
        Option::Some(id) => "["@ + id + "]"@,
        Option::None => Seq::<char>::empty(),
    }
}

/// View of an optional identifier as an optional character sequence.
pub open spec fn identifier_view(identifier: Option<String>) -> Option<Seq<char>> {
    match identifier {
        Option::Some(id) => Some(id@),
        Option::None => None,
    }
}

/// `e` is the reported entry for an action of duration `dur`.
pub open spec fn entry_matches(e: CriticalPathEntry, a: ActionInfo, dur: u64) -> bool {
    &&& e.action_name@ == display_name_spec(a.owner@, a.category@, identifier_view(a.identifier))
    &&& e.action_key == Some(a.key)
    &&& e.duration == dur
    &&& e.category@ == a.category@
    &&& e.identifier@ == match a.identifier {
        Option::Some(id) => id@,
        Option::None => Seq::<char>::empty(),
    }
}

/// Render the reported entry for one action on the critical path.
pub fn render_entry(a: &ActionInfo, dur: u64) -> (e: CriticalPathEntry)
    ensures
        entry_matches(e, *a, dur),
{
    let mut name = String::from_str(a.owner.as_str());
    name.append(" ");
    name.append(a.category.as_str());
    let identifier = match &a.identifier {
        Some(id) => {
            name.append("[");
            name.append(id.as_str());
            name.append("]");
            String::from_str(id.as_str())
        },
        None => String::from_str(""),
    };
    proof {
        reveal_strlit("");
        assert(""@ =~= Seq::<char>::empty());
        assert(name@ =~= display_name_spec(
            a.owner@,
            a.category@,
            identifier_view(a.identifier),
        ));
    }
    CriticalPathEntry {
        action_name: name,
        action_key: Some(a.key),
        duration: dur,
        category: String::from_str(a.category.as_str()),
        identifier,
    }
}

} // verus!

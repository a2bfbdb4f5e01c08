//! The exact backend: builds the explicit dependency graph and reports the
//! true longest chain together with node and edge totals.
//!
//! Construction is fail-once: the first structural error (a duplicate
//! identity) poisons the backend, later writes become no-ops, and the
//! retained error surfaces at finalization — deterministically, so
//! finalizing equal states yields equal results.

use vstd::prelude::*;

use crate::backend::entry_matches;
use crate::backend::render_entry;
use crate::backend::BuildInfo;
use crate::backend::BuildListenerBackend;
use crate::backend::CriticalPathEntry;
use crate::backend::CriticalPathError;
use crate::backend::ProcessCall;
use crate::graph::adj_path;
use crate::graph::compute_critical_path_potentials;
use crate::graph::deps_dag;
use crate::graph::deps_ranked;
use crate::graph::durations_of;
use crate::graph::graph_path;
use crate::graph::has_edge;
use crate::graph::is_dag;
use crate::graph::path_weight;
use crate::graph::ranked;
use crate::graph::sat64;
use crate::graph::total_resolved;
use crate::graph::vertices_count;
use crate::graph::Graph;
use crate::graph::GraphBuilder;
use crate::graph::NodeData;
use crate::signals::ActionInfo;
use crate::signals::NodeKey;

verus! {

/// The `(action, duration)` pairs that a chain of vertices reports:
/// vertices without metadata (synthetic nodes) are dropped, durations are
/// the vertices' own.
pub open spec fn rendered_chain(datas: Seq<NodeData>, p: Seq<usize>) -> Seq<(ActionInfo, u64)>
    decreases p.len(),
{
    if p.len() == 0 {
        Seq::empty()
    } else {
        let pre = rendered_chain(datas, p.drop_last());
        match datas[p.last() as int].action {
            Option::Some(a) => pre.push((a, datas[p.last() as int].duration)),
            Option::None => pre,
        }
    }
}

/// An implementation of critical path that uses a longest-paths graph in
/// order to produce potential savings in addition to the critical path.
pub struct LongestPathGraphBackend {
    builder: Result<GraphBuilder, CriticalPathError>,
    log: Ghost<Seq<ProcessCall>>,
}

impl LongestPathGraphBackend {
    /// A structural error was met; every later write is a no-op.
    pub closed spec fn poisoned(&self) -> bool {
        self.builder is Err
    }

    /// The first structural error met.
    pub closed spec fn poison_error(&self) -> CriticalPathError {
        self.builder->Err_0
    }

    pub closed spec fn keys_spec(&self) -> Seq<NodeKey> {
        self.builder->Ok_0.keys_spec()
    }

    pub closed spec fn datas_spec(&self) -> Seq<NodeData> {
        self.builder->Ok_0.datas_spec()
    }

    pub closed spec fn deps_spec(&self) -> Seq<Vec<NodeKey>> {
        self.builder->Ok_0.deps_spec()
    }

    pub closed spec fn wf(&self) -> bool {
        !self.poisoned() ==> self.builder->Ok_0.wf()
    }

    /// Some chain of the recorded dependency graph outweighs the 64-bit
    /// duration unit.
    pub open spec fn some_chain_overweighs(&self) -> bool {
        exists|q: Seq<usize>|
            #[trigger] graph_path(self.keys_spec(), self.deps_spec(), q) && path_weight(
                durations_of(self.datas_spec()),
                q,
            ) > u64::MAX
    }

    pub fn new() -> (r: LongestPathGraphBackend)
        ensures
            r.wf(),
            !r.poisoned(),
            r.keys_spec() == Seq::<NodeKey>::empty(),
            r.datas_spec() == Seq::<NodeData>::empty(),
            r.deps_spec() == Seq::<Vec<NodeKey>>::empty(),
            r.calls() == Seq::<ProcessCall>::empty(),
    {
        LongestPathGraphBackend { builder: Ok(GraphBuilder::new()), log: Ghost(Seq::empty()) }
    }

    /// The retained structural error, observable without finalizing.
    pub fn poison(&self) -> (r: Option<CriticalPathError>)
        ensures
            match r {
                Option::Some(e) => self.poisoned() && e == self.poison_error(),
                Option::None => !self.poisoned(),
            },
    {
        match &self.builder {
            Ok(_) => None,
            Err(e) => Some(*e),
        }
    }

    /// Record one vertex with its dependency references. A duplicate
    /// identity poisons the backend; writes after poisoning change
    /// nothing.
    fn push_vertex(&mut self, key: NodeKey, value: Option<ActionInfo>, duration: u64, dep_keys: Vec<NodeKey>)
        requires
            old(self).wf(),
        ensures
            final(self).wf(),
            final(self).calls() == old(self).calls(),
            old(self).poisoned() ==> final(self).poisoned() && final(self).poison_error() == old(
                self,
            ).poison_error(),
            !old(self).poisoned() && old(self).keys_spec().contains(key) ==> final(self).poisoned()
                && final(self).poison_error() == CriticalPathError::DuplicateKey(key),
            !old(self).poisoned() && !old(self).keys_spec().contains(key) ==> !final(self).poisoned()
                && final(self).keys_spec() == old(self).keys_spec().push(key)
                && final(self).datas_spec() == old(self).datas_spec().push(
                NodeData { action: value, duration },
            ) && final(self).deps_spec() == old(self).deps_spec().push(dep_keys),
    {
        let builder = match &mut self.builder {
            Ok(b) => b,
            Err(_) => {
                return ;
            },
        };
        let res = builder.push(key, dep_keys, NodeData { action: value, duration });
        match res {
            Ok(()) => {},
            Err(e) => {
                self.builder = Err(e);
            },
        }
    }

    /// Finalize the builder into a graph and report the longest chain.
    ///
    /// Success is owed: on an unpoisoned state whose dependency references
    /// close no cycle and whose every chain fits the 64-bit unit, a summary
    /// comes back, pinned by [`Self::finish_ok`]; otherwise the error is
    /// pinned by [`Self::finish_err`] — the retained structural error, the
    /// cycle exactly when no ranking exists, and the overflow exactly when
    /// some chain outweighs the unit. Equal states yield equal results.
    #[verifier::rlimit(100)]
    #[verifier::spinoff_prover]
    pub fn finalize(self) -> (r: Result<BuildInfo, CriticalPathError>)
        requires
            self.wf(),
        ensures
            self.poisoned() ==> r == Err::<BuildInfo, CriticalPathError>(self.poison_error()),
            match r {
                Result::Ok(info) => self.finish_ok(info),
                Result::Err(e) => self.finish_err(e),
            },
            !self.poisoned() ==> (r == Err::<BuildInfo, CriticalPathError>(
                CriticalPathError::DurationOverflow,
            ) <==> deps_dag(self.keys_spec(), self.deps_spec()) && self.some_chain_overweighs()),
            !self.poisoned() && deps_dag(self.keys_spec(), self.deps_spec())
                && !self.some_chain_overweighs() ==> r is Ok,
    {
        let ghost keys = self.keys_spec();
        let ghost deps = self.deps_spec();
        let ghost datas = self.datas_spec();
        let ghost durs = durations_of(datas);
        let builder = match self.builder {
            Ok(b) => b,
            Err(e) => {
                return Err(e);
            },
        };
        proof {
            assert(builder.keys_spec() == keys);
            assert(builder.datas_spec() == datas);
            assert(builder.deps_spec() == deps);
        }
        let (g, num_edges) = builder.finish();
        let num_nodes = vertices_count(&g);
        proof {
            lemma_path_equivalence(&g, keys, deps, datas);
        }
        match compute_critical_path_potentials(&g) {
            Err(e) => {
                proof {
                    lemma_dag_equivalence(&g, keys, deps);
                    if e == CriticalPathError::DurationOverflow {
                        let hp = choose|p: Seq<usize>|
                            #[trigger] adj_path(g.succs_spec(), p) && path_weight(g.durs(), p)
                                > u64::MAX;
                        assert(graph_path(keys, deps, hp) && path_weight(durs, hp) > u64::MAX);
                    }
                }
                Err(e)
            },
            Ok((pathv, _cost, _potentials)) => {
                proof {
                    lemma_dag_equivalence(&g, keys, deps);
                }
                let m = pathv.len();
                let mut entries: Vec<CriticalPathEntry> = Vec::new();
                let mut j: usize = 0;
                while j < m
                    invariant
                        g.wf(),
                        datas == g.datas_spec(),
                        m == pathv@.len(),
                        0 <= j <= m,
                        forall|t: int| 0 <= t < m ==> (#[trigger] pathv@[t] as int) < g.n(),
                        ({
                            let rep = rendered_chain(datas, pathv@.take(j as int));
                            entries@.len() == rep.len() && forall|t: int|
                                0 <= t < rep.len() ==> entry_matches(
                                    #[trigger] entries@[t],
                                    rep[t].0,
                                    rep[t].1,
                                )
                        }),
                    decreases m - j,
                {
                    proof {
                        assert(pathv@.take(j + 1).drop_last() =~= pathv@.take(j as int));
                        assert(pathv@.take(j + 1).last() == pathv@[j as int]);
                    }
                    let idx = pathv[j];
                    let data = g.data_at(idx);
                    match &data.action {
                        Some(a) => {
                            entries.push(render_entry(a, data.duration));
                        },
                        None => {},
                    }
                    j = j + 1;
                }
                proof {
                    assert(pathv@.take(m as int) =~= pathv@);
                    if keys.len() > 0 {
                        assert(graph_path(keys, deps, pathv@));
                    }
                    assert forall|q: Seq<usize>| #[trigger] graph_path(keys, deps, q)
                        implies path_weight(durs, q) <= path_weight(durs, pathv@) by {
                        assert(adj_path(g.succs_spec(), q));
                    }
                    assert(({
                        let rep = rendered_chain(datas, pathv@);
                        &&& (keys.len() == 0 ==> pathv@.len() == 0)
                        &&& (keys.len() > 0 ==> graph_path(keys, deps, pathv@))
                        &&& forall|q: Seq<usize>|
                            #[trigger] graph_path(keys, deps, q) ==> path_weight(
                                durations_of(datas),
                                q,
                            ) <= path_weight(durations_of(datas), pathv@)
                        &&& entries@.len() == rep.len()
                        &&& forall|j: int|
                            0 <= j < rep.len() ==> entry_matches(
                                #[trigger] entries@[j],
                                rep[j].0,
                                rep[j].1,
                            )
                    }));
                }
                Ok(BuildInfo { critical_path: entries, num_nodes, num_edges })
            },
        }
    }
}

/// Chains of the finalized graph are exactly chains of the recorded
/// dependency references.
proof fn lemma_path_equivalence(
    g: &Graph,
    keys: Seq<NodeKey>,
    deps: Seq<Vec<NodeKey>>,
    datas: Seq<NodeData>,
)
    requires
        g.wf(),
        g.keys_spec() == keys,
        g.datas_spec() == datas,
        forall|a: int, b: int|
            0 <= a < g.n() && 0 <= b < g.n() ==> (#[trigger] g.edge(a, b) <==> has_edge(
                keys,
                deps,
                a,
                b,
            )),
    ensures
        forall|p: Seq<usize>|
            #![trigger adj_path(g.succs_spec(), p)]
            #![trigger graph_path(keys, deps, p)]
            adj_path(g.succs_spec(), p) <==> graph_path(keys, deps, p),
        g.durs() == durations_of(datas),
{
    assert forall|p: Seq<usize>|
        #![trigger adj_path(g.succs_spec(), p)]
        #![trigger graph_path(keys, deps, p)]
        adj_path(g.succs_spec(), p) <==> graph_path(keys, deps, p) by {
        if adj_path(g.succs_spec(), p) {
            lemma_adj_to_graph(g, keys, deps, p);
        }
        if graph_path(keys, deps, p) {
            lemma_graph_to_adj(g, keys, deps, p);
        }
    }
}

/// One direction of the chain equivalence.
proof fn lemma_adj_to_graph(g: &Graph, keys: Seq<NodeKey>, deps: Seq<Vec<NodeKey>>, p: Seq<usize>)
    requires
        g.wf(),
        g.keys_spec() == keys,
        forall|a: int, b: int|
            0 <= a < g.n() && 0 <= b < g.n() ==> (#[trigger] g.edge(a, b) <==> has_edge(
                keys,
                deps,
                a,
                b,
            )),
        adj_path(g.succs_spec(), p),
    ensures
        graph_path(keys, deps, p),
{
    assert forall|k: int| 0 <= k < p.len() implies (#[trigger] p[k] as int) < keys.len() by {
        assert((p[k] as int) < g.succs_spec().len());
    }
    assert forall|j: int| 0 <= j < p.len() - 1 implies has_edge(
        keys,
        deps,
        #[trigger] p[j] as int,
        p[j + 1] as int,
    ) by {
        assert(g.succs_spec()[p[j] as int]@.contains(p[j + 1]));
        assert(((p[j + 1] as int) as usize) == p[j + 1]);
        assert(g.edge(p[j] as int, p[j + 1] as int));
    }
}

/// The other direction of the chain equivalence.
proof fn lemma_graph_to_adj(g: &Graph, keys: Seq<NodeKey>, deps: Seq<Vec<NodeKey>>, p: Seq<usize>)
    requires
        g.wf(),
        g.keys_spec() == keys,
        forall|a: int, b: int|
            0 <= a < g.n() && 0 <= b < g.n() ==> (#[trigger] g.edge(a, b) <==> has_edge(
                keys,
                deps,
                a,
                b,
            )),
        graph_path(keys, deps, p),
    ensures
        adj_path(g.succs_spec(), p),
{
    assert forall|k: int| 0 <= k < p.len() implies (#[trigger] p[k] as int)
        < g.succs_spec().len() by {
        assert((p[k] as int) < keys.len());
    }
    assert forall|j: int| 0 <= j < p.len() - 1 implies g.succs_spec()[
        #[trigger] p[j] as int
    ]@.contains(p[j + 1]) by {
        assert(has_edge(keys, deps, p[j] as int, p[j + 1] as int));
        assert((p[j] as int) < g.n());
        assert((p[j + 1] as int) < g.n());
        assert(g.edge(p[j] as int, p[j + 1] as int));
        assert(((p[j + 1] as int) as usize) == p[j + 1]);
    }
}

/// The finalized graph closes a cycle exactly when the recorded
/// dependency references do.
proof fn lemma_dag_equivalence(g: &Graph, keys: Seq<NodeKey>, deps: Seq<Vec<NodeKey>>)
    requires
        g.wf(),
        g.keys_spec() == keys,
        forall|a: int, b: int|
            0 <= a < g.n() && 0 <= b < g.n() ==> (#[trigger] g.edge(a, b) <==> has_edge(
                keys,
                deps,
                a,
                b,
            )),
    ensures
        is_dag(*g) <==> deps_dag(keys, deps),
{
    if is_dag(*g) {
        let rank = choose|rank: Seq<int>| #[trigger] ranked(*g, rank);
        assert(deps_ranked(keys, deps, rank)) by {
            assert forall|a: int, b: int|
                0 <= a < keys.len() && 0 <= b < keys.len() && #[trigger] has_edge(keys, deps, a, b)
                implies rank[a] < rank[b] by {
                assert(g.edge(a, b));
            }
        }
    }
    if deps_dag(keys, deps) {
        let rank = choose|rank: Seq<int>| #[trigger] deps_ranked(keys, deps, rank);
        assert(ranked(*g, rank)) by {
            assert forall|a: int, b: int|
                0 <= a < g.n() && 0 <= b < g.n() && #[trigger] g.edge(a, b) implies rank[a]
                < rank[b] by {
                assert(has_edge(keys, deps, a, b));
            }
        }
    }
}

impl BuildListenerBackend for LongestPathGraphBackend {
    closed spec fn calls(&self) -> Seq<ProcessCall> {
        self.log@
    }

    closed spec fn inv(&self) -> bool {
        self.wf()
    }

    /// A yielded summary: the backend was never poisoned, the recorded
    /// references close no cycle, no chain outweighs the 64-bit unit, the
    /// totals count the inserted vertices and resolved references, and
    /// the entries render a chain that no other chain outweighs.
    open spec fn finish_ok(self, info: BuildInfo) -> bool {
        &&& !self.poisoned()
        &&& deps_dag(self.keys_spec(), self.deps_spec())
        &&& !self.some_chain_overweighs()
        &&& info.num_nodes == self.keys_spec().len()
        &&& info.num_edges == sat64(total_resolved(self.keys_spec(), self.deps_spec()))
        &&& exists|p: Seq<usize>|
            #![trigger rendered_chain(self.datas_spec(), p)]
            {
                let rep = rendered_chain(self.datas_spec(), p);
                &&& (self.keys_spec().len() == 0 ==> p.len() == 0)
                &&& (self.keys_spec().len() > 0 ==> graph_path(
                    self.keys_spec(),
                    self.deps_spec(),
                    p,
                ))
                &&& forall|q: Seq<usize>|
                    #[trigger] graph_path(self.keys_spec(), self.deps_spec(), q) ==> path_weight(
                        durations_of(self.datas_spec()),
                        q,
                    ) <= path_weight(durations_of(self.datas_spec()), p)
                &&& info.critical_path@.len() == rep.len()
                &&& forall|j: int|
                    0 <= j < rep.len() ==> entry_matches(
                        #[trigger] info.critical_path@[j],
                        rep[j].0,
                        rep[j].1,
                    )
            }
    }

    /// A yielded error: the retained structural error when poisoned, and
    /// otherwise a cycle exactly when the references admit no ranking, or
    /// an overflow only when some chain outweighs the 64-bit unit — never
    /// a duplicate-key error on an unpoisoned state.
    open spec fn finish_err(self, e: CriticalPathError) -> bool {
        if self.poisoned() {
            e == self.poison_error()
        } else {
            &&& (e == CriticalPathError::DependencyCycle || e
                == CriticalPathError::DurationOverflow)
            &&& (e == CriticalPathError::DependencyCycle <==> !deps_dag(
                self.keys_spec(),
                self.deps_spec(),
            ))
            &&& (e == CriticalPathError::DurationOverflow ==> self.some_chain_overweighs())
        }
    }

    /// Record one vertex. A duplicate identity poisons the backend with
    /// that key's error; writes after poisoning keep the state, so the
    /// first structural error is the one finalization reports.
    fn process_node(
        &mut self,
        key: NodeKey,
        value: Option<ActionInfo>,
        duration: u64,
        dep_keys: Vec<NodeKey>,
    )
        ensures
            old(self).poisoned() ==> final(self).poisoned() && final(self).poison_error() == old(
                self,
            ).poison_error(),
            !old(self).poisoned() && old(self).keys_spec().contains(key) ==> final(self).poisoned()
                && final(self).poison_error() == CriticalPathError::DuplicateKey(key),
            !old(self).poisoned() && !old(self).keys_spec().contains(key)
                ==> !final(self).poisoned()
                && final(self).keys_spec() == old(self).keys_spec().push(key)
                && final(self).datas_spec() == old(self).datas_spec().push(
                NodeData { action: value, duration },
            ) && final(self).deps_spec() == old(self).deps_spec().push(dep_keys),
    {
        let ghost deps_view = dep_keys@;
        self.push_vertex(key, value, duration, dep_keys);
        proof {
            self.log@ = self.log@.push(ProcessCall { key, value, duration, deps: deps_view });
        }
    }

    fn finish(self) -> (r: Result<BuildInfo, CriticalPathError>) {
        self.finalize()
    }
}

} // verus!

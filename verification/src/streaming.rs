//! The streaming backend: greedy, approximate, O(V+E), low memory.
//!
//! Each `process_node` call picks the best predecessor among the
//! dependencies recorded so far and stores a cumulative duration; no global
//! reconciliation happens afterwards. Correct chains therefore rely on
//! dependency signals arriving before their dependents' — a guarantee of
//! the execution model, not enforced here.

use vstd::prelude::*;

use crate::backend::entry_matches;
use crate::backend::render_entry;
use crate::backend::BuildInfo;
use crate::backend::BuildListenerBackend;
use crate::backend::CriticalPathEntry;
use crate::backend::CriticalPathError;
use crate::backend::ProcessCall;
use crate::extract::extract_critical_path;
use crate::extract::extracted;
use crate::extract::key_index;
use crate::extract::lookup;
use crate::extract::CriticalPathMap;
use crate::extract::CriticalPathNode;
use crate::signals::ActionInfo;
use crate::signals::NodeKey;

verus! {

/// Addition clamped at the largest representable duration.
pub open spec fn sat_add(a: u64, b: u64) -> u64 {
    if a + b > u64::MAX {
        u64::MAX
    } else {
        (a + b) as u64
    }
}

/// The distinct keys of `s`, in order of first occurrence.
pub open spec fn dedup_keys(s: Seq<NodeKey>) -> Seq<NodeKey>
    decreases s.len(),
{
    if s.len() == 0 {
        Seq::empty()
    } else {
        let p = dedup_keys(s.drop_last());
        if p.contains(s.last()) {
            p
        } else {
            p.push(s.last())
        }
    }
}

/// The chosen predecessor among `deps`: of the keys recorded in `s`, the
/// one of maximal cumulative duration, ties resolved in favour of the
/// last-seen. Yields its key and cumulative duration.
pub open spec fn best_pred(
    s: Seq<(NodeKey, CriticalPathNode<ActionInfo>)>,
    deps: Seq<NodeKey>,
) -> Option<(NodeKey, u64)>
    decreases deps.len(),
{
    if deps.len() == 0 {
        None
    } else {
        let p = best_pred(s, deps.drop_last());
        match lookup(s, deps.last()) {
            Option::None => p,
            Option::Some(nd) => match p {
                Option::None => Some((deps.last(), nd.duration)),
                Option::Some(b) => if nd.duration >= b.1 {
                    Some((deps.last(), nd.duration))
                } else {
                    p
                },
            },
        }
    }
}

/// The record that one `process_node` call stores: cumulative duration of
/// the chosen predecessor (none found: zero) plus the node's own duration,
/// clamped at the representable maximum.
pub open spec fn new_record(
    s: Seq<(NodeKey, CriticalPathNode<ActionInfo>)>,
    value: Option<ActionInfo>,
    duration: u64,
    deps: Seq<NodeKey>,
) -> CriticalPathNode<ActionInfo> {
    match best_pred(s, dedup_keys(deps)) {
        Option::None => CriticalPathNode { duration, value, prev: None },
        Option::Some(b) => CriticalPathNode {
            duration: sat_add(b.1, duration),
            value,
            prev: Some(b.0),
        },
    }
}

/// The `(action, duration)` pairs of an extracted path that are actually
/// reported: entries without metadata (synthetic nodes) and entries whose
/// per-node duration is zero are dropped.
pub open spec fn reported(t: Seq<(NodeKey, Option<ActionInfo>, u64)>) -> Seq<(ActionInfo, u64)>
    decreases t.len(),
{
    if t.len() == 0 {
        Seq::empty()
    } else {
        let p = reported(t.drop_last());
        match t.last().1 {
            Option::Some(a) => if t.last().2 != 0 {
                p.push((a, t.last().2))
            } else {
                p
            },
            Option::None => p,
        }
    }
}

/// Synthetic and zero-duration entries never appear in a reported path:
/// every reported entry carries metadata, and a nonzero per-node
/// duration. (They still count toward the node and edge totals, which
/// the filtering leaves untouched.)
pub proof fn lemma_reported_entries(t: Seq<(NodeKey, Option<ActionInfo>, u64)>)
    ensures
        forall|j: int| 0 <= j < reported(t).len() ==> (#[trigger] reported(t)[j]).1 != 0,
    decreases t.len(),
{
    if t.len() > 0 {
        lemma_reported_entries(t.drop_last());
        let pre = reported(t.drop_last());
        assert forall|j: int| 0 <= j < reported(t).len() implies (#[trigger] reported(t)[j]).1
            != 0 by {
            match t.last().1 {
                Option::Some(a) => {
                    if t.last().2 != 0 {
                        assert(reported(t) == pre.push((a, t.last().2)));
                        if j < pre.len() {
                            assert(reported(t)[j] == pre[j]);
                        }
                    } else {
                        assert(reported(t) == pre);
                    }
                },
                Option::None => {
                    assert(reported(t) == pre);
                },
            }
        }
    }
}

/// The greedy streaming backend: a predecessor store plus node and edge
/// counters.
pub struct DefaultBackend {
    predecessors: CriticalPathMap<ActionInfo>,
    num_nodes: u64,
    num_edges: u64,
    log: Ghost<Seq<ProcessCall>>,
}

impl DefaultBackend {
    pub closed spec fn entries(&self) -> Seq<(NodeKey, CriticalPathNode<ActionInfo>)> {
        self.predecessors@
    }

    pub closed spec fn num_nodes_spec(&self) -> u64 {
        self.num_nodes
    }

    pub closed spec fn num_edges_spec(&self) -> u64 {
        self.num_edges
    }

    pub fn new() -> (r: DefaultBackend)
        ensures
            r.inv(),
            r.entries() == Seq::<(NodeKey, CriticalPathNode<ActionInfo>)>::empty(),
            r.num_nodes_spec() == 0,
            r.num_edges_spec() == 0,
            r.calls() == Seq::<ProcessCall>::empty(),
    {
        DefaultBackend {
            predecessors: CriticalPathMap::new(),
            num_nodes: 0,
            num_edges: 0,
            log: Ghost(Seq::empty()),
        }
    }
}

/// `dep_keys`'s distinct keys, in order of first occurrence.
fn dedup_dep_keys(dep_keys: &Vec<NodeKey>) -> (r: Vec<NodeKey>)
    ensures
        r@ == dedup_keys(dep_keys@),
{
    let n = dep_keys.len();
    let mut r: Vec<NodeKey> = Vec::new();
    let mut i: usize = 0;
    while i < n
        invariant
            n == dep_keys@.len(),
            0 <= i <= n,
            r@ == dedup_keys(dep_keys@.take(i as int)),
        decreases n - i,
    {
        let k = dep_keys[i];
        let mut seen = false;
        let m = r.len();
        let mut j: usize = 0;
        while j < m
            invariant
                m == r@.len(),
                0 <= j <= m,
                seen == exists|jj: int| 0 <= jj < j && r@[jj] == k,
            decreases m - j,
        {
            if r[j] == k {
                seen = true;
            }
            j = j + 1;
        }
        proof {
            assert(seen == r@.contains(k));
            assert(dep_keys@.take(i + 1).drop_last() =~= dep_keys@.take(i as int));
            assert(dep_keys@.take(i + 1).last() == dep_keys@[i as int]);
        }
        if !seen {
            r.push(k);
        }
        i = i + 1;
    }
    proof {
        assert(dep_keys@.take(n as int) =~= dep_keys@);
    }
    r
}

impl BuildListenerBackend for DefaultBackend {
    closed spec fn calls(&self) -> Seq<ProcessCall> {
        self.log@
    }

    closed spec fn inv(&self) -> bool {
        self.predecessors.wf()
    }

    /// A yielded summary carries the totals and exactly the filtered,
    /// rendered extraction of the predecessor store.
    open spec fn finish_ok(self, info: BuildInfo) -> bool {
        let rep = reported(extracted(self.entries()));
        &&& info.num_nodes == self.num_nodes_spec()
        &&& info.num_edges == self.num_edges_spec()
        &&& info.critical_path@.len() == rep.len()
        &&& forall|j: int|
            0 <= j < rep.len() ==> entry_matches(
                #[trigger] info.critical_path@[j],
                rep[j].0,
                rep[j].1,
            )
    }

    /// The streaming backend never fails to finalize.
    open spec fn finish_err(self, e: CriticalPathError) -> bool {
        false
    }

    /// Count one edge per distinct dependency key (recorded or not), pick
    /// the best recorded predecessor, and store the new cumulative record
    /// for `key`, overwriting any previous one.
    fn process_node(
        &mut self,
        key: NodeKey,
        value: Option<ActionInfo>,
        duration: u64,
        dep_keys: Vec<NodeKey>,
    )
        ensures
            final(self).inv(),
            final(self).calls() == old(self).calls().push(
                ProcessCall { key, value, duration, deps: dep_keys@ },
            ),
            final(self).entries() == ({
                let nd = new_record(old(self).entries(), value, duration, dep_keys@);
                if key_index(old(self).entries(), key) == -1 {
                    old(self).entries().push((key, nd))
                } else {
                    old(self).entries().update(key_index(old(self).entries(), key), (key, nd))
                }
            }),
            final(self).num_nodes_spec() == sat_add(old(self).num_nodes_spec(), 1),
            final(self).num_edges_spec() == sat_add(
                old(self).num_edges_spec(),
                dedup_keys(dep_keys@).len() as u64,
            ),
    {
        let ghost s = self.predecessors@;
        let deps = dedup_dep_keys(&dep_keys);
        let n = deps.len();

        let mut best: Option<(NodeKey, u64)> = None;
        let mut i: usize = 0;
        while i < n
            invariant
                n == deps@.len(),
                s == self.predecessors@,
                best == best_pred(s, deps@.take(i as int)),
                0 <= i <= n,
            decreases n - i,
        {
            let k = deps[i];
            proof {
                assert(deps@.take(i + 1).drop_last() =~= deps@.take(i as int));
                assert(deps@.take(i + 1).last() == deps@[i as int]);
            }
            match self.predecessors.get(&k) {
                Some(nd) => {
                    let d = nd.duration;
                    match best {
                        Some(b) => {
                            if d >= b.1 {
                                best = Some((k, d));
                            }
                        },
                        None => {
                            best = Some((k, d));
                        },
                    }
                },
                None => {},
            }
            i = i + 1;
        }
        proof {
            assert(deps@.take(n as int) =~= deps@);
        }

        let node = match best {
            Some(b) => CriticalPathNode { duration: b.1.saturating_add(duration), value, prev: Some(b.0) },
            None => CriticalPathNode { duration, value, prev: None },
        };

        self.num_nodes = self.num_nodes.saturating_add(1);
        self.num_edges = self.num_edges.saturating_add(n as u64);
        self.predecessors.insert(key, node);
        proof {
            self.log@ = self.log@.push(ProcessCall { key, value, duration, deps: dep_keys@ });
        }
    }

    /// Extract the critical path from the predecessor store, drop synthetic
    /// and zero-duration entries, and render the survivors. This backend
    /// owes a summary: it never returns an error.
    fn finish(self) -> (r: Result<BuildInfo, CriticalPathError>)
        ensures
            r matches Ok(info) && self.finish_ok(info),
    {
        let ghost t = extracted(self.entries());
        let path = extract_critical_path(&self.predecessors);
        let n = path.len();
        let mut entries: Vec<CriticalPathEntry> = Vec::new();
        let mut i: usize = 0;
        while i < n
            invariant
                n == path@.len(),
                n == t.len(),
                forall|j: int|
                    0 <= j < t.len() ==> (#[trigger] path@[j]).0 == t[j].0 && *path@[j].1 == t[j].1
                        && path@[j].2 == t[j].2,
                0 <= i <= n,
                ({
                    let rep = reported(t.take(i as int));
                    entries@.len() == rep.len() && forall|j: int|
                        0 <= j < rep.len() ==> entry_matches(
                            #[trigger] entries@[j],
                            rep[j].0,
                            rep[j].1,
                        )
                }),
            decreases n - i,
        {
            proof {
                assert(t.take(i + 1).drop_last() =~= t.take(i as int));
                assert(t.take(i + 1).last() == t[i as int]);
            }
            let (_k, val, dur) = path[i];
            match val {
                Some(a) => {
                    if dur != 0 {
                        entries.push(render_entry(a, dur));
                    }
                },
                None => {},
            }
            i = i + 1;
        }
        proof {
            assert(t.take(n as int) =~= t);
        }
        Ok(BuildInfo { critical_path: entries, num_nodes: self.num_nodes, num_edges: self.num_edges })
    }
}

} // verus!

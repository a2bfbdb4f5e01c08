//! The explicit dependency graph behind the exact backend: a fallible
//! builder, finalization into an adjacency representation, and the
//! longest-path computation with per-vertex potentials.
//!
//! Edges run from a dependency to its dependent, so a chain of dependent
//! work is a path along successor lists. Dependency references whose key
//! was never inserted resolve to no edge, mirroring the tolerance of the
//! streaming backend.

use vstd::prelude::*;

use crate::backend::CriticalPathError;
use crate::signals::ActionInfo;
use crate::signals::NodeKey;

verus! {

broadcast use vstd::seq_lib::lemma_seq_contains_after_push;

/// Payload of one vertex: optional metadata and the vertex's own duration.
#[derive(Debug)]
pub struct NodeData {
    pub action: Option<ActionInfo>,
    pub duration: u64,
}

/// Index of the first occurrence of `k` in `s`, or `-1`.
pub open spec fn find_key(s: Seq<NodeKey>, k: NodeKey) -> int
    decreases s.len(),
{
    if s.len() == 0 {
        -1
    } else if s[0] == k {
        0
    } else {
        let r = find_key(s.drop_first(), k);
        if r == -1 {
            -1
        } else {
            r + 1
        }
    }
}

/// `find_key` returns `-1` exactly when the key is absent, and otherwise
/// the first position holding it.
pub proof fn lemma_find_key(s: Seq<NodeKey>, k: NodeKey)
    ensures
        find_key(s, k) == -1 ==> forall|j: int| 0 <= j < s.len() ==> s[j] != k,
        find_key(s, k) != -1 ==> 0 <= find_key(s, k) < s.len() && s[find_key(s, k)] == k
            && forall|j: int| 0 <= j < find_key(s, k) ==> s[j] != k,
    decreases s.len(),
{
    if s.len() == 0 {
    } else if s[0] == k {
    } else {
        lemma_find_key(s.drop_first(), k);
        assert(forall|j: int| 1 <= j < s.len() ==> s[j] == s.drop_first()[j - 1]);
    }
}

/// There is an edge from vertex `a` to vertex `b` when `b`'s dependency
/// references name `a`'s key.
pub open spec fn has_edge(keys: Seq<NodeKey>, deps: Seq<Vec<NodeKey>>, a: int, b: int) -> bool {
    deps[b]@.contains(keys[a])
}

/// `p` is a chain of dependent vertices: nonempty, within bounds, and each
/// step follows an edge.
pub open spec fn graph_path(keys: Seq<NodeKey>, deps: Seq<Vec<NodeKey>>, p: Seq<usize>) -> bool {
    &&& p.len() >= 1
    &&& forall|j: int| 0 <= j < p.len() ==> (#[trigger] p[j] as int) < keys.len()
    &&& forall|j: int|
        0 <= j < p.len() - 1 ==> has_edge(keys, deps, #[trigger] p[j] as int, p[j + 1] as int)
}

/// Total duration of the vertices of `p`.
pub open spec fn path_weight(durs: Seq<u64>, p: Seq<usize>) -> int
    decreases p.len(),
{
    if p.len() == 0 {
        0
    } else {
        durs[p[0] as int] + path_weight(durs, p.drop_first())
    }
}

/// The durations of a vertex payload sequence.
pub open spec fn durations_of(datas: Seq<NodeData>) -> Seq<u64> {
    datas.map_values(|d: NodeData| d.duration)
}

/// Fallible builder of the explicit graph: vertices carry their payload
/// and raw dependency keys; resolution happens at finalization.
#[derive(Debug)]
pub struct GraphBuilder {
    keys: Vec<NodeKey>,
    datas: Vec<NodeData>,
    deps: Vec<Vec<NodeKey>>,
}

impl GraphBuilder {
    pub closed spec fn keys_spec(&self) -> Seq<NodeKey> {
        self.keys@
    }

    pub closed spec fn datas_spec(&self) -> Seq<NodeData> {
        self.datas@
    }

    pub closed spec fn deps_spec(&self) -> Seq<Vec<NodeKey>> {
        self.deps@
    }

    /// Keys are pairwise distinct and the three columns line up.
    pub closed spec fn wf(&self) -> bool {
        &&& self.keys@.len() == self.datas@.len()
        &&& self.keys@.len() == self.deps@.len()
        &&& forall|i: int, j: int|
            0 <= i < j < self.keys@.len() ==> #[trigger] self.keys@[i] != #[trigger] self.keys@[j]
    }

    pub fn new() -> (r: GraphBuilder)
        ensures
            r.wf(),
            r.keys_spec() == Seq::<NodeKey>::empty(),
            r.datas_spec() == Seq::<NodeData>::empty(),
            r.deps_spec() == Seq::<Vec<NodeKey>>::empty(),
    {
        GraphBuilder { keys: Vec::new(), datas: Vec::new(), deps: Vec::new() }
    }

    /// Append a vertex under a fresh key with its dependency references;
    /// inserting an already present key is the structural error that
    /// poisons the exact backend.
    pub fn push(&mut self, key: NodeKey, dep_keys: Vec<NodeKey>, data: NodeData) -> (r: Result<
        (),
        CriticalPathError,
    >)
        requires
            old(self).wf(),
        ensures
            final(self).wf(),
            old(self).keys_spec().contains(key) ==> r == Err::<(), CriticalPathError>(
                CriticalPathError::DuplicateKey(key),
            ) && *final(self) == *old(self),
            !old(self).keys_spec().contains(key) ==> r == Ok::<(), CriticalPathError>(())
                && final(self).keys_spec() == old(self).keys_spec().push(key)
                && final(self).datas_spec() == old(self).datas_spec().push(data)
                && final(self).deps_spec() == old(self).deps_spec().push(dep_keys),
    {
        proof {
            lemma_find_key(self.keys@, key);
            if self.keys@.contains(key) {
                let w = choose|j: int| 0 <= j < self.keys@.len() && self.keys@[j] == key;
                assert(self.keys@[w] == key);
            }
        }
        match find_key_vec(&self.keys, &key) {
            Some(_) => Err(CriticalPathError::DuplicateKey(key)),
            None => {
                self.keys.push(key);
                self.datas.push(data);
                self.deps.push(dep_keys);
                Ok(())
            },
        }
    }
}

/// Count of references in `ds` that resolve to a key of `keys`.
pub open spec fn row_resolved(keys: Seq<NodeKey>, ds: Seq<NodeKey>) -> int
    decreases ds.len(),
{
    if ds.len() == 0 {
        0
    } else {
        row_resolved(keys, ds.drop_last()) + if keys.contains(ds.last()) {
            1int
        } else {
            0int
        }
    }
}

/// Count of resolved dependency references over all rows: the edge count
/// of the finalized graph.
pub open spec fn total_resolved(keys: Seq<NodeKey>, deps: Seq<Vec<NodeKey>>) -> int
    decreases deps.len(),
{
    if deps.len() == 0 {
        0
    } else {
        total_resolved(keys, deps.drop_last()) + row_resolved(keys, deps.last()@)
    }
}

/// An integer clamped into the reported 64-bit edge counter.
pub open spec fn sat64(x: int) -> u64 {
    if x > u64::MAX {
        u64::MAX
    } else {
        x as u64
    }
}

pub proof fn lemma_row_resolved_nonneg(keys: Seq<NodeKey>, ds: Seq<NodeKey>)
    ensures
        row_resolved(keys, ds) >= 0,
    decreases ds.len(),
{
    if ds.len() > 0 {
        lemma_row_resolved_nonneg(keys, ds.drop_last());
    }
}

pub proof fn lemma_total_resolved_nonneg(keys: Seq<NodeKey>, deps: Seq<Vec<NodeKey>>)
    ensures
        total_resolved(keys, deps) >= 0,
    decreases deps.len(),
{
    if deps.len() > 0 {
        lemma_total_resolved_nonneg(keys, deps.drop_last());
        lemma_row_resolved_nonneg(keys, deps.last()@);
    }
}

/// The adjacency built after fully processing rows `0..b` and, within row
/// `b`, the first `j` references: is `(a, y)` an edge found so far?
pub open spec fn adj_partial(
    keys: Seq<NodeKey>,
    deps: Seq<Vec<NodeKey>>,
    b: int,
    j: int,
    a: int,
    y: int,
) -> bool {
    if y < b {
        has_edge(keys, deps, a, y)
    } else if y == b {
        deps[b]@.take(j).contains(keys[a])
    } else {
        false
    }
}

/// Position of the first occurrence of `k` in `v`, if any.
fn find_key_vec(v: &Vec<NodeKey>, k: &NodeKey) -> (r: Option<usize>)
    ensures
        match r {
            Option::Some(i) => i == find_key(v@, *k),
            Option::None => find_key(v@, *k) == -1,
        },
{
    let n = v.len();
    let mut i: usize = 0;
    while i < n
        invariant
            n == v@.len(),
            0 <= i <= n,
            forall|j: int| 0 <= j < i ==> v@[j] != *k,
        decreases n - i,
    {
        proof {
            lemma_find_key(v@, *k);
        }
        if v[i] == *k {
            return Some(i);
        }
        i = i + 1;
    }
    proof {
        lemma_find_key(v@, *k);
    }
    None
}

/// The finalized graph: vertices in insertion order with resolved
/// successor and predecessor lists.
#[derive(Debug)]
pub struct Graph {
    keys: Vec<NodeKey>,
    datas: Vec<NodeData>,
    succs: Vec<Vec<usize>>,
    preds: Vec<Vec<usize>>,
}

impl Graph {
    pub closed spec fn keys_spec(&self) -> Seq<NodeKey> {
        self.keys@
    }

    pub closed spec fn datas_spec(&self) -> Seq<NodeData> {
        self.datas@
    }

    pub closed spec fn succs_spec(&self) -> Seq<Vec<usize>> {
        self.succs@
    }

    pub closed spec fn preds_spec(&self) -> Seq<Vec<usize>> {
        self.preds@
    }

    pub open spec fn n(&self) -> int {
        self.keys_spec().len() as int
    }

    /// Durations of the vertices, in insertion order.
    pub open spec fn durs(&self) -> Seq<u64> {
        durations_of(self.datas_spec())
    }

    /// Adjacency lists line up with the vertices, stay within bounds, and
    /// the two directions list the same edges.
    pub open spec fn wf(&self) -> bool {
        &&& self.datas_spec().len() == self.keys_spec().len()
        &&& self.succs_spec().len() == self.keys_spec().len()
        &&& self.preds_spec().len() == self.keys_spec().len()
        &&& forall|a: int, j: int|
            0 <= a < self.succs_spec().len() && 0 <= j < self.succs_spec()[a]@.len()
                ==> (#[trigger] self.succs_spec()[a]@[j] as int) < self.keys_spec().len()
        &&& forall|a: int, j: int|
            0 <= a < self.preds_spec().len() && 0 <= j < self.preds_spec()[a]@.len()
                ==> (#[trigger] self.preds_spec()[a]@[j] as int) < self.keys_spec().len()
        &&& forall|a: int, b: int|
            #![trigger self.succs_spec()[a]@.contains(b as usize)]
            #![trigger self.preds_spec()[b]@.contains(a as usize)]
            0 <= a < self.keys_spec().len() && 0 <= b < self.keys_spec().len() ==> (
            self.succs_spec()[a]@.contains(b as usize) <==> self.preds_spec()[b]@.contains(
                a as usize,
            ))
    }

    /// The edge relation of the finalized graph.
    pub open spec fn edge(&self, a: int, b: int) -> bool {
        self.succs_spec()[a]@.contains(b as usize)
    }
}

impl GraphBuilder {
    /// Resolve every dependency reference against the inserted keys and
    /// build the adjacency lists; references to keys never inserted
    /// resolve to no edge. Also reports the resolved edge count, clamped
    /// into 64 bits.
    pub fn finish(self) -> (r: (Graph, u64))
        requires
            self.wf(),
        ensures
            r.0.wf(),
            r.0.keys_spec() == self.keys_spec(),
            r.0.datas_spec() == self.datas_spec(),
            forall|a: int, b: int|
                0 <= a < r.0.n() && 0 <= b < r.0.n() ==> (#[trigger] r.0.edge(a, b) <==> has_edge(
                    self.keys_spec(),
                    self.deps_spec(),
                    a,
                    b,
                )),
            r.1 == sat64(total_resolved(self.keys_spec(), self.deps_spec())),
    {
        let ghost keys = self.keys@;
        let ghost deps = self.deps@;
        let n = self.keys.len();

        let mut succs: Vec<Vec<usize>> = Vec::new();
        let mut preds: Vec<Vec<usize>> = Vec::new();
        let mut t: usize = 0;
        while t < n
            invariant
                0 <= t <= n,
                succs@.len() == t,
                preds@.len() == t,
                forall|i: int| 0 <= i < t ==> (#[trigger] succs@[i])@.len() == 0,
                forall|i: int| 0 <= i < t ==> (#[trigger] preds@[i])@.len() == 0,
            decreases n - t,
        {
            succs.push(Vec::new());
            preds.push(Vec::new());
            t = t + 1;
        }

        let mut cnt: u64 = 0;
        let mut b: usize = 0;
        while b < n
            invariant
                self.wf(),
                keys == self.keys@,
                deps == self.deps@,
                n == keys.len(),
                0 <= b <= n,
                succs@.len() == n,
                preds@.len() == n,
                forall|a: int, j: int|
                    0 <= a < n && 0 <= j < succs@[a]@.len() ==> (#[trigger] succs@[a]@[j] as int)
                        < n,
                forall|a: int, j: int|
                    0 <= a < n && 0 <= j < preds@[a]@.len() ==> (#[trigger] preds@[a]@[j] as int)
                        < n,
                forall|a: int, y: int|
                    #![trigger succs@[a]@.contains(y as usize)]
                    0 <= a < n && 0 <= y < n ==> (succs@[a]@.contains(y as usize) <==> adj_partial(
                        keys,
                        deps,
                        b as int,
                        0,
                        a,
                        y,
                    )),
                forall|a: int, y: int|
                    #![trigger preds@[y]@.contains(a as usize)]
                    0 <= a < n && 0 <= y < n ==> (preds@[y]@.contains(a as usize) <==> adj_partial(
                        keys,
                        deps,
                        b as int,
                        0,
                        a,
                        y,
                    )),
                cnt == sat64(total_resolved(keys, deps.take(b as int))),
            decreases n - b,
        {
            let m = self.deps[b].len();
            let mut j: usize = 0;
            while j < m
                invariant
                    self.wf(),
                    keys == self.keys@,
                    deps == self.deps@,
                    n == keys.len(),
                    0 <= b < n,
                    m == deps[b as int]@.len(),
                    0 <= j <= m,
                    succs@.len() == n,
                    preds@.len() == n,
                    forall|a: int, jj: int|
                        0 <= a < n && 0 <= jj < succs@[a]@.len() ==> (#[trigger] succs@[a]@[jj]
                            as int) < n,
                    forall|a: int, jj: int|
                        0 <= a < n && 0 <= jj < preds@[a]@.len() ==> (#[trigger] preds@[a]@[jj]
                            as int) < n,
                    forall|a: int, y: int|
                        #![trigger succs@[a]@.contains(y as usize)]
                        0 <= a < n && 0 <= y < n ==> (succs@[a]@.contains(y as usize)
                            <==> adj_partial(keys, deps, b as int, j as int, a, y)),
                    forall|a: int, y: int|
                        #![trigger preds@[y]@.contains(a as usize)]
                        0 <= a < n && 0 <= y < n ==> (preds@[y]@.contains(a as usize)
                            <==> adj_partial(keys, deps, b as int, j as int, a, y)),
                    cnt == sat64(
                        total_resolved(keys, deps.take(b as int)) + row_resolved(
                            keys,
                            deps[b as int]@.take(j as int),
                        ),
                    ),
                decreases m - j,
            {
                let d = self.deps[b][j];
                proof {
                    lemma_find_key(keys, d);
                    lemma_total_resolved_nonneg(keys, deps.take(b as int));
                    lemma_row_resolved_nonneg(keys, deps[b as int]@.take(j as int));
                    assert(deps[b as int]@.take(j + 1).drop_last() =~= deps[b as int]@.take(
                        j as int,
                    ));
                    assert(deps[b as int]@.take(j + 1).last() == deps[b as int]@[j as int]);
                }
                match find_key_vec(&self.keys, &d) {
                    Some(a) => {
                        proof {
                            assert(keys.contains(d)) by {
                                assert(keys[find_key(keys, d)] == d);
                            }
                        }
                        let ghost os = succs@;
                        let ghost op = preds@;
                        preds[b].push(a);
                        succs[a].push(b);
                        cnt = cnt.saturating_add(1);
                        proof {
                            assert forall|aa: int, y: int|
                                0 <= aa < n && 0 <= y < n implies (#[trigger] succs@[aa]@.contains(
                                y as usize,
                            ) <==> adj_partial(keys, deps, b as int, j + 1, aa, y)) by {
                                if aa == a {
                                    assert(succs@[aa]@ == os[aa]@.push(b));
                                    assert(succs@[aa]@.contains(y as usize) <==> (os[aa]@.contains(
                                        y as usize,
                                    ) || (y as usize) == (b as usize)));
                                } else {
                                    assert(succs@[aa]@ == os[aa]@);
                                }
                                if keys[aa] == d {
                                    assert(aa == a) by {
                                        assert(keys[a as int] == d);
                                    }
                                }
                            }
                            assert forall|aa: int, y: int|
                                0 <= aa < n && 0 <= y < n implies (#[trigger] preds@[y]@.contains(
                                aa as usize,
                            ) <==> adj_partial(keys, deps, b as int, j + 1, aa, y)) by {
                                if y == b {
                                    assert(preds@[y]@ == op[y]@.push(a));
                                    assert(preds@[y]@.contains(aa as usize) <==> (op[y]@.contains(
                                        aa as usize,
                                    ) || (aa as usize) == (a as usize)));
                                } else {
                                    assert(preds@[y]@ == op[y]@);
                                }
                                if keys[aa] == d {
                                    assert(aa == a) by {
                                        assert(keys[a as int] == d);
                                    }
                                }
                            }
                        }
                    },
                    None => {
                        proof {
                            assert(!keys.contains(d)) by {
                                if keys.contains(d) {
                                    let w = choose|w: int|
                                        0 <= w < keys.len() && keys[w] == d;
                                    assert(keys[w] == d);
                                }
                            }
                            assert forall|aa: int, y: int|
                                0 <= aa < n && 0 <= y < n implies (#[trigger] succs@[aa]@.contains(
                                y as usize,
                            ) <==> adj_partial(keys, deps, b as int, j + 1, aa, y)) by {
                                assert(keys[aa] != d);
                            }
                            assert forall|aa: int, y: int|
                                0 <= aa < n && 0 <= y < n implies (#[trigger] preds@[y]@.contains(
                                aa as usize,
                            ) <==> adj_partial(keys, deps, b as int, j + 1, aa, y)) by {
                                assert(keys[aa] != d);
                            }
                        }
                    },
                }
                j = j + 1;
            }
            proof {
                assert(deps[b as int]@.take(m as int) =~= deps[b as int]@);
                assert(deps.take(b + 1).drop_last() =~= deps.take(b as int));
                assert(deps.take(b + 1).last() == deps[b as int]);
                assert forall|a: int, y: int|
                    0 <= a < n && 0 <= y < n implies (adj_partial(
                    keys,
                    deps,
                    b as int,
                    m as int,
                    a,
                    y,
                ) <==> adj_partial(keys, deps, b + 1, 0, a, y)) by {
                    if y == b {
                        assert(deps[b as int]@.take(m as int) =~= deps[b as int]@);
                    }
                }
            }
            b = b + 1;
        }
        proof {
            assert(deps.take(n as int) =~= deps);
        }

        let g = Graph { keys: self.keys, datas: self.datas, succs, preds };
        proof {
            assert forall|a: int, bb: int|
                0 <= a < g.n() && 0 <= bb < g.n() implies (#[trigger] g.edge(a, bb) <==> has_edge(
                keys,
                deps,
                a,
                bb,
            )) by {
                assert(g.succs_spec()[a]@.contains(bb as usize) <==> adj_partial(
                    keys,
                    deps,
                    n as int,
                    0,
                    a,
                    bb,
                ));
            }
        }
        (g, cnt)
    }
}

/// Index of the first occurrence of vertex `v` in `ord`, or `-1`.
pub open spec fn pos_of(ord: Seq<usize>, v: usize) -> int
    decreases ord.len(),
{
    if ord.len() == 0 {
        -1
    } else if ord[0] == v {
        0
    } else {
        let r = pos_of(ord.drop_first(), v);
        if r == -1 {
            -1
        } else {
            r + 1
        }
    }
}

/// `pos_of` returns `-1` exactly when the vertex is absent, and otherwise
/// its first position.
pub proof fn lemma_pos_of(ord: Seq<usize>, v: usize)
    ensures
        pos_of(ord, v) == -1 ==> forall|j: int| 0 <= j < ord.len() ==> ord[j] != v,
        pos_of(ord, v) != -1 ==> 0 <= pos_of(ord, v) < ord.len() && ord[pos_of(ord, v)] == v
            && forall|j: int| 0 <= j < pos_of(ord, v) ==> ord[j] != v,
    decreases ord.len(),
{
    if ord.len() == 0 {
    } else if ord[0] == v {
    } else {
        lemma_pos_of(ord.drop_first(), v);
        assert(forall|j: int| 1 <= j < ord.len() ==> ord[j] == ord.drop_first()[j - 1]);
    }
}

/// A ranking that sends every edge strictly upward.
pub open spec fn ranked(g: Graph, rank: Seq<int>) -> bool {
    &&& rank.len() == g.n()
    &&& forall|a: int, b: int|
        0 <= a < g.n() && 0 <= b < g.n() && #[trigger] g.edge(a, b) ==> rank[a] < rank[b]
}

/// The resolved edges admit a topological ranking, i.e. close no cycle.
pub open spec fn is_dag(g: Graph) -> bool {
    exists|rank: Seq<int>| #[trigger] ranked(g, rank)
}

/// A sequence of `n` distinct vertices below `n` holds every such vertex.
proof fn lemma_all_vertices_in(ord: Seq<usize>, n: int)
    requires
        ord.no_duplicates(),
        ord.len() == n,
        forall|i: int| 0 <= i < ord.len() ==> (#[trigger] ord[i] as int) < n,
    ensures
        forall|v: usize| (v as int) < n ==> ord.contains(v),
{
    let m = ord.map_values(|u: usize| u as int);
    assert(m.no_duplicates()) by {
        assert(forall|i: int, j: int|
            (0 <= i < m.len() && 0 <= j < m.len() && i != j) ==> m[i] != m[j]);
    }
    m.unique_seq_to_set();
    vstd::set_lib::lemma_int_range(0, n);
    assert(m.to_set().subset_of(vstd::set_lib::set_int_range(0, n))) by {
        assert forall|x: int| m.to_set().contains(x) implies vstd::set_lib::set_int_range(
            0,
            n,
        ).contains(x) by {
            let w = choose|w: int| 0 <= w < m.len() && m[w] == x;
            assert(0 <= m[w] < n);
        }
    }
    assert forall|v: usize| (v as int) < n implies ord.contains(v) by {
        if !ord.contains(v) {
            assert(!m.to_set().contains(v as int)) by {
                if m.to_set().contains(v as int) {
                    let w = choose|w: int| 0 <= w < m.len() && m[w] == v as int;
                    assert(ord[w] == v);
                }
            }
            m.to_set().lemma_subset_not_in_lt(
                vstd::set_lib::set_int_range(0, n),
                v as int,
            );
        }
    }
}

/// While fewer than `n` distinct vertices are listed, some vertex below
/// `n` is not yet processed.
proof fn lemma_some_unprocessed(processed: Seq<bool>, ord: Seq<usize>, n: int)
    requires
        n <= usize::MAX,
        processed.len() == n,
        ord.no_duplicates(),
        ord.len() < n,
        forall|i: int| 0 <= i < ord.len() ==> (#[trigger] ord[i] as int) < n,
        forall|v: int| 0 <= v < n && #[trigger] processed[v] ==> ord.contains(v as usize),
    ensures
        exists|v: int| 0 <= v < n && !processed[v],
{
    if forall|v: int| 0 <= v < n ==> #[trigger] processed[v] {
        let m = ord.map_values(|u: usize| u as int);
        assert(m.no_duplicates()) by {
            assert(forall|i: int, j: int|
                (0 <= i < m.len() && 0 <= j < m.len() && i != j) ==> m[i] != m[j]);
        }
        m.unique_seq_to_set();
        vstd::set_lib::lemma_int_range(0, n);
        assert(vstd::set_lib::set_int_range(0, n).subset_of(m.to_set())) by {
            assert forall|x: int| vstd::set_lib::set_int_range(0, n).contains(x)
                implies m.to_set().contains(x) by {
                assert(processed[x]);
                assert(ord.contains(x as usize));
                let w = choose|w: int| 0 <= w < ord.len() && ord[w] == x as usize;
                assert(m[w] == ord[w] as int);
                assert(((x as usize) as int) == x);
                assert(m[w] == x);
            }
        }
        vstd::set_lib::lemma_len_subset(vstd::set_lib::set_int_range(0, n), m.to_set());
        assert(false);
    }
}

/// Among the unprocessed vertices below `k` there is one of minimal rank.
#[verifier::rlimit(60)]
proof fn lemma_min_rank(processed: Seq<bool>, rank: Seq<int>, k: int)
    requires
        0 <= k <= processed.len(),
        rank.len() == processed.len(),
        exists|v: int| 0 <= v < k && !processed[v],
    ensures
        exists|m: int|
            0 <= m < k && !processed[m] && forall|u: int|
                0 <= u < k && !(#[trigger] processed[u]) ==> rank[m] <= rank[u],
    decreases k,
{
    let v0 = choose|v: int| 0 <= v < k && !processed[v];
    if v0 == k - 1 {
        if exists|v: int| 0 <= v < k - 1 && !processed[v] {
            lemma_min_rank(processed, rank, k - 1);
            let m1 = choose|m: int|
                0 <= m < k - 1 && !processed[m] && forall|u: int|
                    0 <= u < k - 1 && !(#[trigger] processed[u]) ==> rank[m] <= rank[u];
            if rank[m1] <= rank[k - 1] {
                assert(0 <= m1 < k && !processed[m1] && forall|u: int|
                    0 <= u < k && !(#[trigger] processed[u]) ==> rank[m1] <= rank[u]);
            } else {
                assert(0 <= k - 1 < k && !processed[k - 1] && forall|u: int|
                    0 <= u < k && !(#[trigger] processed[u]) ==> rank[k - 1] <= rank[u]);
            }
        } else {
            assert(0 <= k - 1 < k && !processed[k - 1] && forall|u: int|
                0 <= u < k && !(#[trigger] processed[u]) ==> rank[k - 1] <= rank[u]);
        }
    } else {
        lemma_min_rank(processed, rank, k - 1);
        let m1 = choose|m: int|
            0 <= m < k - 1 && !processed[m] && forall|u: int|
                0 <= u < k - 1 && !(#[trigger] processed[u]) ==> rank[m] <= rank[u];
        if k - 1 < processed.len() && !processed[k - 1] && rank[k - 1] < rank[m1] {
            assert(0 <= k - 1 < k && !processed[k - 1] && forall|u: int|
                0 <= u < k && !(#[trigger] processed[u]) ==> rank[k - 1] <= rank[u]);
        } else {
            assert(0 <= m1 < k && !processed[m1] && forall|u: int|
                0 <= u < k && !(#[trigger] processed[u]) ==> rank[m1] <= rank[u]);
        }
    }
}

/// If every unprocessed vertex keeps an unprocessed predecessor and some
/// vertex is unprocessed, the edges admit no topological ranking.
#[verifier::rlimit(60)]
proof fn lemma_stuck_means_cycle(g: &Graph, processed: Seq<bool>)
    requires
        g.wf(),
        g.n() <= usize::MAX,
        processed.len() == g.n(),
        exists|v: int| 0 <= v < g.n() && !processed[v],
        forall|vv: int|
            0 <= vv < g.n() && !(#[trigger] processed[vv]) ==> exists|j: int|
                0 <= j < g.preds_spec()[vv]@.len() && !processed[
                    #[trigger] g.preds_spec()[vv]@[j] as int
                ],
    ensures
        !is_dag(*g),
{
    let n = g.n();
    if is_dag(*g) {
        let rank = choose|rank: Seq<int>| ranked(*g, rank);
        lemma_min_rank(processed, rank, n);
        let m = choose|m: int|
            0 <= m < n && !processed[m] && forall|u: int|
                0 <= u < n && !(#[trigger] processed[u]) ==> rank[m] <= rank[u];
        assert(!processed[m]);
        let j = choose|j: int|
            0 <= j < g.preds_spec()[m]@.len() && !processed[g.preds_spec()[m]@[j] as int];
        let u = g.preds_spec()[m]@[j];
        assert(!processed[u as int]);
        assert(g.preds_spec()[m]@.contains(u)) by {
            assert(g.preds_spec()[m]@[j] == u);
        }
        assert(0 <= m <= usize::MAX);
        let mu = m as usize;
        assert(g.edge(mu as int, m) ==> g.edge(u as int, m));
        assert(g.edge(u as int, m)) by {
            assert(g.succs_spec()[u as int]@.contains(mu) <==> g.preds_spec()[mu as int]@.contains(
                u,
            ));
            assert(mu as int == m);
        }
        assert(rank[u as int] < rank[m]);
        assert(rank[m] <= rank[u as int]);
        assert(false);
    }
}

/// Are all predecessors of `v` already processed?
fn all_preds_processed(g: &Graph, processed: &Vec<bool>, v: usize) -> (r: bool)
    requires
        g.wf(),
        processed@.len() == g.n(),
        (v as int) < g.n(),
    ensures
        r <==> forall|j: int|
            0 <= j < g.preds_spec()[v as int]@.len() ==> processed@[
                #[trigger] g.preds_spec()[v as int]@[j] as int
            ],
{
    let m = g.preds[v].len();
    let mut j: usize = 0;
    while j < m
        invariant
            g.wf(),
            processed@.len() == g.n(),
            (v as int) < g.n(),
            m == g.preds_spec()[v as int]@.len(),
            0 <= j <= m,
            forall|jj: int|
                0 <= jj < j ==> processed@[#[trigger] g.preds_spec()[v as int]@[jj] as int],
        decreases m - j,
    {
        let u = g.preds[v][j];
        if !processed[u] {
            return false;
        }
        j = j + 1;
    }
    true
}

/// Compute an insertion-order-independent topological order of the
/// resolved graph, or report that the dependency references close a cycle.
#[verifier::rlimit(60)]
#[verifier::spinoff_prover]
pub fn toposort(g: &Graph) -> (r: Result<Vec<usize>, CriticalPathError>)
    requires
        g.wf(),
    ensures
        match r {
            Result::Ok(ord) => {
                &&& ord@.len() == g.n()
                &&& ord@.no_duplicates()
                &&& forall|i: int| 0 <= i < ord@.len() ==> (#[trigger] ord@[i] as int) < g.n()
                &&& forall|v: usize|
                    (v as int) < g.n() ==> 0 <= #[trigger] pos_of(ord@, v) < ord@.len()
                        && ord@[pos_of(ord@, v)] == v
                &&& forall|a: usize, b: usize|
                    (a as int) < g.n() && (b as int) < g.n() && #[trigger] g.edge(
                        a as int,
                        b as int,
                    ) ==> pos_of(ord@, a) < pos_of(ord@, b)
                &&& is_dag(*g)
            },
            Result::Err(e) => e == CriticalPathError::DependencyCycle && !is_dag(*g),
        },
{
    let ghost gn = g.n();
    let n = g.keys.len();
    let mut processed: Vec<bool> = Vec::new();
    let mut t: usize = 0;
    while t < n
        invariant
            0 <= t <= n,
            processed@.len() == t,
            forall|i: int| 0 <= i < t ==> !(#[trigger] processed@[i]),
        decreases n - t,
    {
        processed.push(false);
        t = t + 1;
    }

    let mut ord: Vec<usize> = Vec::new();
    while ord.len() < n
        invariant
            g.wf(),
            n == g.n(),
            processed@.len() == n,
            ord@.len() <= n,
            ord@.no_duplicates(),
            forall|i: int|
                0 <= i < ord@.len() ==> (#[trigger] ord@[i] as int) < n && processed@[ord@[i] as int],
            forall|v: int| 0 <= v < n && #[trigger] processed@[v] ==> ord@.contains(v as usize),
            forall|i: int, j: int|
                0 <= i < ord@.len() && 0 <= j < g.preds_spec()[ord@[i] as int]@.len()
                    ==> #[trigger] ord@.take(i).contains(g.preds_spec()[ord@[i] as int]@[j]),
        decreases n - ord.len(),
    {
        let mut v: usize = 0;
        let mut found: Option<usize> = None;
        while v < n && found.is_none()
            invariant
                g.wf(),
                n == g.n(),
                processed@.len() == n,
                0 <= v <= n,
                match found {
                    Option::Some(c) => (c as int) < n && !processed@[c as int] && forall|j: int|
                        0 <= j < g.preds_spec()[c as int]@.len() ==> processed@[
                            #[trigger] g.preds_spec()[c as int]@[j] as int
                        ],
                    Option::None => forall|vv: int|
                        0 <= vv < v && !(#[trigger] processed@[vv]) ==> exists|j: int|
                            0 <= j < g.preds_spec()[vv]@.len() && !processed@[
                                #[trigger] g.preds_spec()[vv]@[j] as int
                            ],
                },
            decreases n - v,
        {
            if !processed[v] {
                if all_preds_processed(g, &processed, v) {
                    found = Some(v);
                }
            }
            v = v + 1;
        }
        match found {
            Some(c) => {
                let ghost oord = ord@;
                let ghost oproc = processed@;
                processed[c] = true;
                ord.push(c);
                proof {
                    assert(!oord.contains(c)) by {
                        if oord.contains(c) {
                            let w = choose|w: int| 0 <= w < oord.len() && oord[w] == c;
                            assert(oproc[oord[w] as int]);
                        }
                    }
                    assert(ord@.no_duplicates()) by {
                        assert(forall|i: int|
                            0 <= i < oord.len() ==> ord@[i] == oord[i] && oord[i] != c);
                    }
                    assert forall|vv: int| 0 <= vv < n && #[trigger] processed@[vv]
                        implies ord@.contains(vv as usize) by {
                        if vv == c as int {
                            assert(ord@[ord@.len() - 1] == c);
                        } else {
                            assert(oproc[vv]);
                            let w = choose|w: int| 0 <= w < oord.len() && oord[w] == vv as usize;
                            assert(ord@[w] == vv as usize);
                        }
                    }
                    assert forall|i: int, j: int|
                        0 <= i < ord@.len() && 0 <= j < g.preds_spec()[ord@[i] as int]@.len()
                        implies #[trigger] ord@.take(i).contains(
                        g.preds_spec()[ord@[i] as int]@[j],
                    ) by {
                        if i < ord@.len() - 1 {
                            assert(ord@[i] == oord[i]);
                            assert(oord.take(i).contains(g.preds_spec()[oord[i] as int]@[j]));
                            assert(ord@.take(i) =~= oord.take(i));
                        } else {
                            assert(ord@[i] == c);
                            let u = g.preds_spec()[c as int]@[j];
                            assert(oproc[u as int]);
                            assert(((u as int) as usize) == u);
                            assert(oord.contains(u));
                            let w = choose|w: int| 0 <= w < oord.len() && oord[w] == u;
                            assert(ord@.take(i) =~= oord);
                        }
                    }
                }
            },
            None => {
                proof {
                    assert(v == n);
                    lemma_some_unprocessed(processed@, ord@, n as int);
                    lemma_stuck_means_cycle(g, processed@);
                }
                return Err(CriticalPathError::DependencyCycle);
            },
        }
    }
    proof {
        lemma_all_vertices_in(ord@, n as int);
        assert forall|v: usize| (v as int) < gn implies 0 <= #[trigger] pos_of(ord@, v)
            < ord@.len() && ord@[pos_of(ord@, v)] == v by {
            lemma_pos_of(ord@, v);
            assert(ord@.contains(v));
            if pos_of(ord@, v) == -1 {
                let w = choose|w: int| 0 <= w < ord@.len() && ord@[w] == v;
                assert(ord@[w] == v);
                assert(ord@[w] != v);
            }
        }
        assert forall|a: usize, b: usize|
            (a as int) < gn && (b as int) < gn && #[trigger] g.edge(a as int, b as int)
            implies pos_of(ord@, a) < pos_of(ord@, b) by {
            lemma_pos_of(ord@, a);
            lemma_pos_of(ord@, b);
            let pb = pos_of(ord@, b);
            assert(ord@[pb] == b);
            assert(g.preds_spec()[b as int]@.contains(a)) by {
                assert(g.succs_spec()[a as int]@.contains(b));
            }
            let j = choose|j: int|
                0 <= j < g.preds_spec()[b as int]@.len() && g.preds_spec()[b as int]@[j] == a;
            assert(ord@.take(pb).contains(g.preds_spec()[ord@[pb] as int]@[j]));
            let w = choose|w: int| 0 <= w < pb && ord@.take(pb)[w] == a;
            assert(ord@[w] == a);
        }
        let rank = Seq::new(gn as nat, |v: int| pos_of(ord@, v as usize));
        assert(ranked(*g, rank)) by {
            assert forall|a: int, b: int|
                0 <= a < gn && 0 <= b < gn && #[trigger] g.edge(a, b) implies rank[a] < rank[b] by {
                assert(g.edge((a as usize) as int, (b as usize) as int));
            }
        }
    }
    Ok(ord)
}

/// `p` is a chain along the adjacency lists `adj`: nonempty, within
/// bounds, each step following a listed edge.
pub open spec fn adj_path(adj: Seq<Vec<usize>>, p: Seq<usize>) -> bool {
    &&& p.len() >= 1
    &&& forall|j: int| 0 <= j < p.len() ==> (#[trigger] p[j] as int) < adj.len()
    &&& forall|j: int| 0 <= j < p.len() - 1 ==> adj[#[trigger] p[j] as int]@.contains(p[j + 1])
}

/// The processing-order obligations of the potential computation: every
/// vertex occurs exactly once in `proc`, and each vertex's listed
/// neighbours occur strictly earlier.
pub open spec fn proc_ok(adj: Seq<Vec<usize>>, proc: Seq<usize>) -> bool {
    &&& proc.len() == adj.len()
    &&& proc.no_duplicates()
    &&& forall|i: int| 0 <= i < proc.len() ==> (#[trigger] proc[i] as int) < adj.len()
    &&& forall|v: usize|
        (v as int) < adj.len() ==> 0 <= #[trigger] pos_of(proc, v) < proc.len() && proc[pos_of(
            proc,
            v,
        )] == v
    &&& forall|a: int, j: int|
        0 <= a < adj.len() && 0 <= j < adj[a]@.len() ==> pos_of(proc, #[trigger] adj[a]@[j])
            < pos_of(proc, (a as usize))
}

/// Adjacency lists are within bounds.
pub open spec fn adj_wf(adj: Seq<Vec<usize>>) -> bool {
    forall|a: int, j: int|
        0 <= a < adj.len() && 0 <= j < adj[a]@.len() ==> (#[trigger] adj[a]@[j] as int) < adj.len()
}

/// Some chain along `adj` starts at `v` and weighs exactly `val`.
pub open spec fn achieves(adj: Seq<Vec<usize>>, durs: Seq<u64>, v: usize, val: u64) -> bool {
    exists|p: Seq<usize>| #[trigger] adj_path(adj, p) && p[0] == v && path_weight(durs, p) == val
}

/// Compute, for every vertex, the maximal total duration of a chain
/// starting there and following `adj`, processing vertices in the order
/// `proc` so that each vertex's neighbours are already done. Fails exactly
/// when some such chain outweighs the 64-bit unit.
#[verifier::rlimit(100)]
#[verifier::spinoff_prover]
fn potentials_along(adj: &Vec<Vec<usize>>, proc: &Vec<usize>, datas: &Vec<NodeData>) -> (r: Result<
    Vec<u64>,
    CriticalPathError,
>)
    requires
        adj@.len() == datas@.len(),
        adj_wf(adj@),
        proc_ok(adj@, proc@),
    ensures
        match r {
            Result::Ok(pot) => {
                &&& pot@.len() == adj@.len()
                &&& forall|v: int| 0 <= v < adj@.len() ==> #[trigger] pot@[v] >= durations_of(
                    datas@,
                )[v]
                &&& forall|p: Seq<usize>|
                    #[trigger] adj_path(adj@, p) ==> path_weight(durations_of(datas@), p) <= pot@[
                        p[0] as int
                    ]
                &&& forall|v: usize|
                    (v as int) < adj@.len() ==> #[trigger] achieves(
                        adj@,
                        durations_of(datas@),
                        v,
                        pot@[v as int],
                    )
            },
            Result::Err(e) => e == CriticalPathError::DurationOverflow && exists|p: Seq<usize>|
                #[trigger] adj_path(adj@, p) && path_weight(durations_of(datas@), p) > u64::MAX,
        },
{
    let ghost durs = durations_of(datas@);
    let n = adj.len();
    let mut pot: Vec<u64> = Vec::new();
    let mut t: usize = 0;
    while t < n
        invariant
            0 <= t <= n,
            pot@.len() == t,
        decreases n - t,
    {
        pot.push(0);
        t = t + 1;
    }

    let mut i: usize = 0;
    while i < n
        invariant
            n == adj@.len(),
            n == datas@.len(),
            durs == durations_of(datas@),
            adj_wf(adj@),
            proc_ok(adj@, proc@),
            pot@.len() == n,
            0 <= i <= n,
            forall|tt: int, p: Seq<usize>|
                #![trigger proc@[tt], adj_path(adj@, p)]
                0 <= tt < i && adj_path(adj@, p) && p[0] == proc@[tt] ==> path_weight(durs, p)
                    <= pot@[proc@[tt] as int],
            forall|tt: int|
                0 <= tt < i ==> #[trigger] achieves(adj@, durs, proc@[tt], pot@[proc@[tt] as int]),
            forall|tt: int|
                0 <= tt < i ==> pot@[#[trigger] proc@[tt] as int] >= durs[proc@[tt] as int],
        decreases n - i,
    {
        let v = proc[i];
        proof {
            assert((v as int) < n);
            assert(pos_of(proc@, v) == i) by {
                lemma_pos_of(proc@, v);
                let pv = pos_of(proc@, v);
                assert(proc@[pv] == v);
                assert(proc@[i as int] == v);
                if pv != i {
                    assert(false);
                }
            }
        }
        let m = adj[v].len();
        let mut best: u64 = 0;
        let ghost mut bw: Option<usize> = None;
        let mut j: usize = 0;
        while j < m
            invariant
                n == adj@.len(),
                n == datas@.len(),
                durs == durations_of(datas@),
                adj_wf(adj@),
                proc_ok(adj@, proc@),
                pot@.len() == n,
                0 <= i < n,
                v == proc@[i as int],
                pos_of(proc@, v) == i,
                m == adj@[v as int]@.len(),
                0 <= j <= m,
                forall|tt: int, p: Seq<usize>|
                    #![trigger proc@[tt], adj_path(adj@, p)]
                    0 <= tt < i && adj_path(adj@, p) && p[0] == proc@[tt] ==> path_weight(durs, p)
                        <= pot@[proc@[tt] as int],
                forall|tt: int|
                    0 <= tt < i ==> #[trigger] achieves(adj@, durs, proc@[tt], pot@[proc@[tt] as int]),
                forall|tt: int|
                    0 <= tt < i ==> pot@[#[trigger] proc@[tt] as int] >= durs[proc@[tt] as int],
                forall|jj: int|
                    0 <= jj < j ==> pot@[#[trigger] adj@[v as int]@[jj] as int] <= best,
                match bw {
                    Option::Some(w) => adj@[v as int]@.contains(w) && (w as int) < n && pot@[
                        w as int
                    ] == best && pos_of(proc@, w) < i,
                    Option::None => best == 0 && j == 0,
                },
            decreases m - j,
        {
            let w = adj[v][j];
            proof {
                assert(adj@[v as int]@.contains(w)) by {
                    assert(adj@[v as int]@[j as int] == w);
                }
                assert(pos_of(proc@, w) < i);
                assert(pos_of(proc@, w) >= 0);
                assert(proc@[pos_of(proc@, w)] == w);
            }
            let pw = pot[w];
            proof {
                let tw = pos_of(proc@, w);
                assert(pot@[proc@[tw] as int] >= durs[proc@[tw] as int]);
            }
            if pw >= best {
                best = pw;
                proof {
                    bw = Some(w);
                }
            }
            j = j + 1;
        }

        let d = datas[v].duration;
        match d.checked_add(best) {
            None => {
                proof {
                    assert(d + best > u64::MAX);
                    assert(best > 0);
                    let w = bw->Some_0;
                    let tw = pos_of(proc@, w);
                    assert(proc@[tw] == w);
                    assert(achieves(adj@, durs, w, pot@[w as int]));
                    let pstar = choose|p: Seq<usize>|
                        adj_path(adj@, p) && p[0] == w && path_weight(durs, p) == pot@[w as int];
                    let heavy = seq![v] + pstar;
                    assert(heavy.drop_first() =~= pstar);
                    assert(adj_path(adj@, heavy)) by {
                        assert(heavy[0] == v);
                        assert(heavy.len() == 1 + pstar.len());
                        assert(forall|k: int|
                            1 <= k < heavy.len() ==> heavy[k] == pstar[k - 1]);
                        assert(adj@[v as int]@.contains(heavy[1]));
                    }
                    assert(path_weight(durs, heavy) == durs[v as int] + path_weight(durs, pstar));
                    assert(path_weight(durs, heavy) > u64::MAX);
                }
                return Err(CriticalPathError::DurationOverflow);
            },
            Some(s) => {
                let ghost opot = pot@;
                pot[v] = s;
                proof {
                    assert(pot@ == opot.update(v as int, s));
                    assert forall|tt: int, p: Seq<usize>|
                        0 <= tt < i + 1 && #[trigger] adj_path(adj@, p) && p[0] == #[trigger] proc@[tt]
                        implies path_weight(durs, p) <= pot@[proc@[tt] as int] by {
                        if tt < i {
                            assert(proc@[tt] != v) by {
                                if proc@[tt] == v {
                                    assert(pos_of(proc@, v) == i);
                                }
                            }
                            assert(pot@[proc@[tt] as int] == opot[proc@[tt] as int]);
                        } else {
                            assert(proc@[tt] == v);
                            if p.len() == 1 {
                                assert(path_weight(durs, p) == durs[v as int] + path_weight(
                                    durs,
                                    p.drop_first(),
                                ));
                                assert(p.drop_first().len() == 0);
                            } else {
                                let w1 = p[1];
                                assert(adj@[v as int]@.contains(w1)) by {
                                    assert(adj@[p[0] as int]@.contains(p[1]));
                                }
                                let jj = choose|jj: int|
                                    0 <= jj < adj@[v as int]@.len() && adj@[v as int]@[jj] == w1;
                                assert(opot[w1 as int] <= best);
                                let rest = p.drop_first();
                                assert(adj_path(adj@, rest)) by {
                                    assert(rest.len() >= 1);
                                    assert(forall|k: int|
                                        0 <= k < rest.len() ==> rest[k] == p[k + 1]);
                                }
                                assert(rest[0] == w1);
                                let tw = pos_of(proc@, w1);
                                assert(tw < i);
                                assert(proc@[tw] == w1);
                                assert(path_weight(durs, rest) <= opot[w1 as int]);
                                assert(pot@[w1 as int] == opot[w1 as int]) by {
                                    assert(w1 != v) by {
                                        if w1 == v {
                                            assert(pos_of(proc@, v) == i);
                                        }
                                    }
                                }
                                assert(path_weight(durs, p) == durs[v as int] + path_weight(
                                    durs,
                                    rest,
                                ));
                            }
                        }
                    }
                    assert forall|tt: int| 0 <= tt < i + 1 implies #[trigger] achieves(
                        adj@,
                        durs,
                        proc@[tt],
                        pot@[proc@[tt] as int],
                    ) by {
                        if tt < i {
                            assert(proc@[tt] != v) by {
                                if proc@[tt] == v {
                                    assert(pos_of(proc@, v) == i);
                                }
                            }
                            assert(achieves(adj@, durs, proc@[tt], opot[proc@[tt] as int]));
                            assert(pot@[proc@[tt] as int] == opot[proc@[tt] as int]);
                        } else {
                            match bw {
                                Option::Some(w) => {
                                    let tw = pos_of(proc@, w);
                                    assert(proc@[tw] == w);
                                    assert(achieves(adj@, durs, w, opot[w as int]));
                                    let pstar = choose|p: Seq<usize>|
                                        adj_path(adj@, p) && p[0] == w && path_weight(durs, p)
                                            == opot[w as int];
                                    let cand = seq![v] + pstar;
                                    assert(cand.drop_first() =~= pstar);
                                    assert(adj_path(adj@, cand)) by {
                                        assert(cand[0] == v);
                                        assert(forall|k: int|
                                            1 <= k < cand.len() ==> cand[k] == pstar[k - 1]);
                                        assert(adj@[v as int]@.contains(cand[1]));
                                    }
                                    assert(path_weight(durs, cand) == durs[v as int] + path_weight(
                                        durs,
                                        pstar,
                                    ));
                                    assert(w != v) by {
                                        if w == v {
                                            assert(pos_of(proc@, v) == i);
                                        }
                                    }
                                    assert(path_weight(durs, cand) == pot@[v as int]);
                                    assert(cand[0] == proc@[tt]);
                                },
                                Option::None => {
                                    let cand = seq![v];
                                    assert(adj_path(adj@, cand)) by {
                                        assert(cand[0] == v);
                                    }
                                    assert(cand.drop_first().len() == 0);
                                    assert(path_weight(durs, cand.drop_first()) == 0);
                                    assert(path_weight(durs, cand) == durs[cand[0] as int]
                                        + path_weight(durs, cand.drop_first()));
                                    assert(path_weight(durs, cand) == durs[v as int]);
                                    assert(pot@[v as int] == d);
                                },
                            }
                        }
                    }
                    assert forall|tt: int| 0 <= tt < i + 1 implies pot@[
                        #[trigger] proc@[tt] as int
                    ] >= durs[proc@[tt] as int] by {
                        if tt < i {
                            assert(proc@[tt] != v) by {
                                if proc@[tt] == v {
                                    assert(pos_of(proc@, v) == i);
                                }
                            }
                        }
                    }
                }
            },
        }
        i = i + 1;
    }
    proof {
        assert forall|p: Seq<usize>| #[trigger] adj_path(adj@, p) implies path_weight(durs, p)
            <= pot@[p[0] as int] by {
            let v0 = p[0];
            let tv = pos_of(proc@, v0);
            assert(proc@[tv] == v0);
        }
        assert forall|v: usize| (v as int) < adj@.len() implies #[trigger] achieves(
            adj@,
            durs,
            v,
            pot@[v as int],
        ) by {
            let tv = pos_of(proc@, v);
            assert(proc@[tv] == v);
            assert(achieves(adj@, durs, proc@[tv], pot@[proc@[tv] as int]));
        }
        assert forall|v: int| 0 <= v < adj@.len() implies #[trigger] pot@[v] >= durs[v] by {
            let tv = pos_of(proc@, v as usize);
            assert(proc@[tv] == v as usize);
        }
    }
    Ok(pot)
}

/// Appending a vertex adds its duration to a chain's weight.
pub proof fn lemma_weight_push(durs: Seq<u64>, s: Seq<usize>, x: usize)
    ensures
        path_weight(durs, s.push(x)) == path_weight(durs, s) + durs[x as int],
    decreases s.len(),
{
    if s.len() == 0 {
        assert(s.push(x).drop_first() =~= Seq::<usize>::empty());
        assert(s.push(x)[0] == x);
        assert(path_weight(durs, s) == 0);
        assert(path_weight(durs, Seq::<usize>::empty()) == 0);
        assert(path_weight(durs, s.push(x)) == durs[x as int] + path_weight(
            durs,
            s.push(x).drop_first(),
        ));
    } else {
        assert(s.push(x).drop_first() =~= s.drop_first().push(x));
        assert(s.push(x)[0] == s[0]);
        lemma_weight_push(durs, s.drop_first(), x);
        assert(path_weight(durs, s) == durs[s[0] as int] + path_weight(durs, s.drop_first()));
        assert(path_weight(durs, s.push(x)) == durs[s[0] as int] + path_weight(
            durs,
            s.drop_first().push(x),
        ));
    }
}

/// A chain's weight splits off its last vertex.
pub proof fn lemma_weight_last(durs: Seq<u64>, s: Seq<usize>)
    requires
        s.len() >= 1,
    ensures
        path_weight(durs, s) == path_weight(durs, s.drop_last()) + durs[s.last() as int],
{
    assert(s.drop_last().push(s.last()) =~= s);
    lemma_weight_push(durs, s.drop_last(), s.last());
}

/// Weight is direction-independent.
pub proof fn lemma_weight_reverse(durs: Seq<u64>, s: Seq<usize>)
    ensures
        path_weight(durs, s.reverse()) == path_weight(durs, s),
    decreases s.len(),
{
    if s.len() > 0 {
        assert(s.reverse()[0] == s.last());
        assert(s.reverse().drop_first() =~= s.drop_last().reverse());
        lemma_weight_reverse(durs, s.drop_last());
        lemma_weight_last(durs, s);
    }
}

/// Weight distributes over concatenation.
pub proof fn lemma_weight_concat(durs: Seq<u64>, a: Seq<usize>, b: Seq<usize>)
    ensures
        path_weight(durs, a + b) == path_weight(durs, a) + path_weight(durs, b),
    decreases a.len(),
{
    if a.len() == 0 {
        assert(a + b =~= b);
    } else {
        assert((a + b).drop_first() =~= a.drop_first() + b);
        assert((a + b)[0] == a[0]);
        lemma_weight_concat(durs, a.drop_first(), b);
    }
}

/// A chain along one adjacency, reversed, is a chain along the transposed
/// adjacency.
pub proof fn lemma_reverse_path(fwd: Seq<Vec<usize>>, bwd: Seq<Vec<usize>>, p: Seq<usize>)
    requires
        fwd.len() == bwd.len(),
        forall|a: int, b: int|
            #![trigger fwd[a]@.contains(b as usize)]
            #![trigger bwd[b]@.contains(a as usize)]
            0 <= a < fwd.len() && 0 <= b < fwd.len() ==> (fwd[a]@.contains(b as usize) <==> bwd[
                b
            ]@.contains(a as usize)),
        adj_path(fwd, p),
    ensures
        adj_path(bwd, p.reverse()),
{
    let r = p.reverse();
    assert(r.len() == p.len());
    assert forall|j: int| 0 <= j < r.len() implies (#[trigger] r[j] as int) < bwd.len() by {
        assert(r[j] == p[p.len() - 1 - j]);
    }
    assert forall|j: int| 0 <= j < r.len() - 1 implies bwd[#[trigger] r[j] as int]@.contains(
        r[j + 1],
    ) by {
        let k = p.len() - 2 - j;
        assert(r[j] == p[k + 1]);
        assert(r[j + 1] == p[k]);
        assert(fwd[p[k] as int]@.contains(p[k + 1]));
        assert(fwd[p[k] as int]@.contains((r[j] as int) as usize) <==> bwd[r[j] as int]@.contains(
            ((p[k] as int) as usize),
        ));
    }
}

/// Some chain along `adj` passes through `v` and weighs exactly `val`.
pub open spec fn passes_through(adj: Seq<Vec<usize>>, durs: Seq<u64>, v: usize, val: u64) -> bool {
    exists|p: Seq<usize>|
        #[trigger] adj_path(adj, p) && p.contains(v) && path_weight(durs, p) == val
}

/// Every chain along `adj` through `v` weighs at most `val`.
pub open spec fn bounds_through(adj: Seq<Vec<usize>>, durs: Seq<u64>, v: usize, val: u64) -> bool {
    forall|p: Seq<usize>|
        #[trigger] adj_path(adj, p) && p.contains(v) ==> path_weight(durs, p) <= val
}

/// In a duplicate-free sequence, reversal mirrors positions.
proof fn lemma_pos_reverse(s: Seq<usize>, x: usize)
    requires
        s.no_duplicates(),
        s.contains(x),
    ensures
        0 <= pos_of(s, x) < s.len(),
        pos_of(s.reverse(), x) == s.len() - 1 - pos_of(s, x),
{
    lemma_pos_of(s, x);
    let r = s.reverse();
    lemma_pos_of(r, x);
    if pos_of(s, x) == -1 {
        let w = choose|w: int| 0 <= w < s.len() && s[w] == x;
        assert(s[w] != x);
    }
    let p = pos_of(s, x);
    assert(s[p] == x);
    assert(r[s.len() - 1 - p] == x);
    if pos_of(r, x) == -1 {
        assert(r[s.len() - 1 - p] != x);
    }
    let q = pos_of(r, x);
    assert(r[q] == x);
    assert(s[s.len() - 1 - q] == x);
    if s.len() - 1 - q != p {
        assert(false);
    }
}

/// Reverse the vertex order.
fn reverse_vec(v: &Vec<usize>) -> (r: Vec<usize>)
    ensures
        r@ == v@.reverse(),
{
    let n = v.len();
    let mut r: Vec<usize> = Vec::new();
    let mut i: usize = 0;
    while i < n
        invariant
            n == v@.len(),
            0 <= i <= n,
            r@.len() == i,
            forall|j: int| 0 <= j < i ==> #[trigger] r@[j] == v@[n - 1 - j],
        decreases n - i,
    {
        r.push(v[n - 1 - i]);
        i = i + 1;
    }
    proof {
        assert(r@ =~= v@.reverse());
    }
    r
}

/// The vertex of maximal potential, earliest first.
fn argmax_pot(pot: &Vec<u64>) -> (r: usize)
    requires
        pot@.len() >= 1,
    ensures
        (r as int) < pot@.len(),
        forall|v: int| 0 <= v < pot@.len() ==> pot@[v] <= pot@[r as int],
{
    let n = pot.len();
    let mut r: usize = 0;
    let mut best: u64 = pot[0];
    let mut i: usize = 1;
    while i < n
        invariant
            n == pot@.len(),
            1 <= i <= n,
            (r as int) < n,
            best == pot@[r as int],
            forall|v: int| 0 <= v < i ==> pot@[v] <= best,
        decreases n - i,
    {
        if pot[i] > best {
            r = i;
            best = pot[i];
        }
        i = i + 1;
    }
    r
}

/// Starting at `start`, repeatedly follow the neighbour of highest
/// potential until a vertex with no neighbours; the chain collected this
/// way weighs exactly the potential of `start`.
#[verifier::rlimit(100)]
#[verifier::spinoff_prover]
fn follow_best(
    adj: &Vec<Vec<usize>>,
    pot: &Vec<u64>,
    datas: &Vec<NodeData>,
    proc: &Vec<usize>,
    start: usize,
) -> (r: Vec<usize>)
    requires
        adj@.len() == datas@.len(),
        adj_wf(adj@),
        proc_ok(adj@, proc@),
        pot@.len() == adj@.len(),
        (start as int) < adj@.len(),
        forall|v: int|
            0 <= v < adj@.len() ==> #[trigger] pot@[v] >= durations_of(datas@)[v],
        forall|p: Seq<usize>|
            #[trigger] adj_path(adj@, p) ==> path_weight(durations_of(datas@), p) <= pot@[
                p[0] as int
            ],
        forall|v: usize|
            (v as int) < adj@.len() ==> #[trigger] achieves(
                adj@,
                durations_of(datas@),
                v,
                pot@[v as int],
            ),
    ensures
        adj_path(adj@, r@),
        r@[0] == start,
        path_weight(durations_of(datas@), r@) == pot@[start as int],
        adj@[r@.last() as int]@.len() == 0,
{
    let ghost durs = durations_of(datas@);
    let mut path: Vec<usize> = Vec::new();
    path.push(start);
    let mut cur: usize = start;
    proof {
        assert(path@ =~= seq![start]);
        assert(path@.drop_first().len() == 0);
        assert(path_weight(durs, path@.drop_first()) == 0);
        assert(path_weight(durs, path@) == durs[start as int]);
    }
    loop
        invariant
            adj@.len() == datas@.len(),
            adj_wf(adj@),
            proc_ok(adj@, proc@),
            pot@.len() == adj@.len(),
            durs == durations_of(datas@),
            forall|v: int| 0 <= v < adj@.len() ==> #[trigger] pot@[v] >= durs[v],
            forall|p: Seq<usize>|
                #[trigger] adj_path(adj@, p) ==> path_weight(durs, p) <= pot@[p[0] as int],
            forall|v: usize|
                (v as int) < adj@.len() ==> #[trigger] achieves(adj@, durs, v, pot@[v as int]),
            (cur as int) < adj@.len(),
            path@.len() >= 1,
            adj_path(adj@, path@),
            path@[0] == start,
            path@.last() == cur,
            path_weight(durs, path@) == pot@[start as int] - pot@[cur as int] + durs[cur as int],
        ensures
            adj_path(adj@, path@),
            path@[0] == start,
            path@.last() == cur,
            (cur as int) < adj@.len(),
            adj@[cur as int]@.len() == 0,
            path_weight(durs, path@) == pot@[start as int] - pot@[cur as int] + durs[cur as int],
        decreases pos_of(proc@, cur),
    {
        let m = adj[cur].len();
        if m == 0 {
            break ;
        }
        let mut w: usize = adj[cur][0];
        let mut bestp: u64 = pot[w];
        proof {
            assert(adj@[cur as int]@.contains(w)) by {
                assert(adj@[cur as int]@[0] == w);
            }
        }
        let mut j: usize = 1;
        while j < m
            invariant
                adj@.len() == datas@.len(),
                adj_wf(adj@),
                pot@.len() == adj@.len(),
                (cur as int) < adj@.len(),
                m == adj@[cur as int]@.len(),
                1 <= j <= m,
                adj@[cur as int]@.contains(w),
                (w as int) < adj@.len(),
                bestp == pot@[w as int],
                forall|jj: int|
                    0 <= jj < j ==> pot@[#[trigger] adj@[cur as int]@[jj] as int] <= bestp,
            decreases m - j,
        {
            let w2 = adj[cur][j];
            proof {
                assert(adj@[cur as int]@.contains(w2)) by {
                    assert(adj@[cur as int]@[j as int] == w2);
                }
            }
            if pot[w2] > bestp {
                w = w2;
                bestp = pot[w2];
            }
            j = j + 1;
        }
        proof {
            // The potential satisfies its recurrence at `cur`.
            assert(achieves(adj@, durs, w, pot@[w as int]));
            let pw = choose|p: Seq<usize>|
                adj_path(adj@, p) && p[0] == w && path_weight(durs, p) == pot@[w as int];
            let cand = seq![cur] + pw;
            assert(cand.drop_first() =~= pw);
            assert(adj_path(adj@, cand)) by {
                assert(cand[0] == cur);
                assert(forall|k: int| 1 <= k < cand.len() ==> cand[k] == pw[k - 1]);
                assert(adj@[cur as int]@.contains(cand[1]));
            }
            assert(path_weight(durs, cand) == durs[cur as int] + pot@[w as int]);
            assert(path_weight(durs, cand) <= pot@[cur as int]);

            assert(achieves(adj@, durs, cur, pot@[cur as int]));
            let pc = choose|p: Seq<usize>|
                adj_path(adj@, p) && p[0] == cur && path_weight(durs, p) == pot@[cur as int];
            if pc.len() == 1 {
                assert(pc.drop_first().len() == 0);
                assert(path_weight(durs, pc.drop_first()) == 0);
                assert(path_weight(durs, pc) == durs[cur as int]);
            } else {
                let w1 = pc[1];
                assert(adj@[cur as int]@.contains(w1)) by {
                    assert(adj@[pc[0] as int]@.contains(pc[1]));
                }
                let jj = choose|jj: int|
                    0 <= jj < adj@[cur as int]@.len() && adj@[cur as int]@[jj] == w1;
                assert(pot@[w1 as int] <= bestp);
                let rest = pc.drop_first();
                assert(adj_path(adj@, rest)) by {
                    assert(rest.len() >= 1);
                    assert(forall|k: int| 0 <= k < rest.len() ==> rest[k] == pc[k + 1]);
                }
                assert(rest[0] == w1);
                assert(path_weight(durs, rest) <= pot@[w1 as int]);
                assert(path_weight(durs, pc) == durs[cur as int] + path_weight(durs, rest));
            }
            assert(pot@[cur as int] == durs[cur as int] + pot@[w as int]);

            let jw = choose|jj: int|
                0 <= jj < adj@[cur as int]@.len() && adj@[cur as int]@[jj] == w;
            assert(pos_of(proc@, adj@[cur as int]@[jw]) < pos_of(proc@, cur));
            assert(pos_of(proc@, w) >= 0) by {
                assert(proc@[pos_of(proc@, w)] == w);
            }
            lemma_weight_push(durs, path@, w);
        }
        let ghost opath = path@;
        path.push(w);
        cur = w;
        proof {
            assert(adj_path(adj@, path@)) by {
                assert(forall|k: int| 0 <= k < opath.len() ==> path@[k] == opath[k]);
                assert(path@.last() == w);
                assert(adj@[opath.last() as int]@.contains(w));
                assert forall|k: int| 0 <= k < path@.len() - 1 implies adj@[
                    #[trigger] path@[k] as int
                ]@.contains(path@[k + 1]) by {
                    if k < opath.len() - 1 {
                        assert(opath[k] == path@[k]);
                        assert(adj@[opath[k] as int]@.contains(opath[k + 1]));
                    } else {
                        assert(path@[k] == opath.last());
                    }
                }
            }
        }
    }
    proof {
        // A vertex with no neighbours has potential equal to its duration.
        assert(achieves(adj@, durs, cur, pot@[cur as int]));
        let pc = choose|p: Seq<usize>|
            adj_path(adj@, p) && p[0] == cur && path_weight(durs, p) == pot@[cur as int];
        if pc.len() > 1 {
            assert(adj@[pc[0] as int]@.contains(pc[1]));
            let jj = choose|jj: int|
                0 <= jj < adj@[cur as int]@.len() && adj@[cur as int]@[jj] == pc[1];
            assert(false);
        }
        assert(pc.drop_first().len() == 0);
        assert(path_weight(durs, pc.drop_first()) == 0);
        assert(pot@[cur as int] == durs[cur as int]);
    }
    path
}

/// The longest chain through `v` weighs exactly the forward potential
/// plus the backward potential minus the vertex's own duration, and no
/// chain outweighs the overall cost.
proof fn lemma_through(
    g: &Graph,
    durs: Seq<u64>,
    fwdpot: Seq<u64>,
    bwdpot: Seq<u64>,
    cost: u64,
    v: usize,
)
    requires
        g.wf(),
        durs == g.durs(),
        fwdpot.len() == g.n(),
        bwdpot.len() == g.n(),
        (v as int) < g.n(),
        fwdpot[v as int] >= durs[v as int],
        forall|p: Seq<usize>|
            #[trigger] adj_path(g.preds_spec(), p) ==> path_weight(durs, p) <= fwdpot[p[0] as int],
        achieves(g.preds_spec(), durs, v, fwdpot[v as int]),
        forall|p: Seq<usize>|
            #[trigger] adj_path(g.succs_spec(), p) ==> path_weight(durs, p) <= bwdpot[p[0] as int],
        achieves(g.succs_spec(), durs, v, bwdpot[v as int]),
        forall|x: int| 0 <= x < g.n() ==> #[trigger] bwdpot[x] <= cost,
    ensures
        0 <= fwdpot[v as int] + bwdpot[v as int] - durs[v as int] <= cost,
        passes_through(
            g.succs_spec(),
            durs,
            v,
            (fwdpot[v as int] + bwdpot[v as int] - durs[v as int]) as u64,
        ),
        bounds_through(
            g.succs_spec(),
            durs,
            v,
            (fwdpot[v as int] + bwdpot[v as int] - durs[v as int]) as u64,
        ),
{
    lemma_adjacency_mirror(g);
    lemma_through_achieved(g, durs, fwdpot, bwdpot, cost, v);
    lemma_through_bound(g, durs, fwdpot, bwdpot, v);
}

/// The two adjacency directions list the same edges, seen from either
/// side.
proof fn lemma_adjacency_mirror(g: &Graph)
    requires
        g.wf(),
    ensures
        forall|a: int, b: int|
            #![trigger g.preds_spec()[a]@.contains(b as usize)]
            #![trigger g.succs_spec()[b]@.contains(a as usize)]
            0 <= a < g.n() && 0 <= b < g.n() ==> (g.preds_spec()[a]@.contains(b as usize)
                <==> g.succs_spec()[b]@.contains(a as usize)),
{
    let succs = g.succs_spec();
    let preds = g.preds_spec();
    assert forall|a: int, b: int|
        #![trigger preds[a]@.contains(b as usize)]
        #![trigger succs[b]@.contains(a as usize)]
        0 <= a < g.n() && 0 <= b < g.n() implies (preds[a]@.contains(b as usize) <==> succs[
        b
    ]@.contains(a as usize)) by {
        assert(succs[b]@.contains(a as usize) <==> preds[a]@.contains(b as usize));
    }
}

/// Some chain through `v` weighs exactly the joined potentials, so the
/// value fits under the overall cost.
#[verifier::rlimit(100)]
#[verifier::spinoff_prover]
proof fn lemma_through_achieved(
    g: &Graph,
    durs: Seq<u64>,
    fwdpot: Seq<u64>,
    bwdpot: Seq<u64>,
    cost: u64,
    v: usize,
)
    requires
        g.wf(),
        durs == g.durs(),
        fwdpot.len() == g.n(),
        bwdpot.len() == g.n(),
        (v as int) < g.n(),
        fwdpot[v as int] >= durs[v as int],
        achieves(g.preds_spec(), durs, v, fwdpot[v as int]),
        forall|p: Seq<usize>|
            #[trigger] adj_path(g.succs_spec(), p) ==> path_weight(durs, p) <= bwdpot[p[0] as int],
        achieves(g.succs_spec(), durs, v, bwdpot[v as int]),
        forall|x: int| 0 <= x < g.n() ==> #[trigger] bwdpot[x] <= cost,
    ensures
        0 <= fwdpot[v as int] + bwdpot[v as int] - durs[v as int] <= cost,
        passes_through(
            g.succs_spec(),
            durs,
            v,
            (fwdpot[v as int] + bwdpot[v as int] - durs[v as int]) as u64,
        ),
{
    let succs = g.succs_spec();
    let preds = g.preds_spec();
    let tval = fwdpot[v as int] + bwdpot[v as int] - durs[v as int];
    lemma_adjacency_mirror(g);

    // A heaviest chain through `v`: the reversed forward chain joined to
    // the backward chain.
    let pf = choose|p: Seq<usize>|
        #[trigger] adj_path(preds, p) && p[0] == v && path_weight(durs, p) == fwdpot[v as int];
    let pb = choose|p: Seq<usize>|
        #[trigger] adj_path(succs, p) && p[0] == v && path_weight(durs, p) == bwdpot[v as int];
    lemma_reverse_path(preds, succs, pf);
    lemma_weight_reverse(durs, pf);
    let pfr = pf.reverse();
    assert(pfr.last() == pf[0]);
    assert(pfr.last() == v);
    let q = pfr + pb.drop_first();
    lemma_weight_concat(durs, pfr, pb.drop_first());
    assert(path_weight(durs, pb) == durs[v as int] + path_weight(durs, pb.drop_first()));
    assert(path_weight(durs, q) == tval);
    assert(adj_path(succs, q)) by {
        assert(q.len() >= 1);
        assert(forall|k: int| 0 <= k < pfr.len() ==> q[k] == pfr[k]);
        assert(forall|k: int|
            pfr.len() <= k < q.len() ==> q[k] == pb[k - pfr.len() + 1]);
        assert forall|k: int| 0 <= k < q.len() implies (#[trigger] q[k] as int) < succs.len() by {}
        assert forall|k: int| 0 <= k < q.len() - 1 implies succs[#[trigger] q[k] as int]@.contains(
            q[k + 1],
        ) by {
            if k < pfr.len() - 1 {
                assert(succs[pfr[k] as int]@.contains(pfr[k + 1]));
            } else if k == pfr.len() - 1 {
                assert(q[k] == v);
                assert(succs[pb[0] as int]@.contains(pb[1]));
            } else {
                let k2 = k - pfr.len() + 1;
                assert(succs[pb[k2] as int]@.contains(pb[k2 + 1]));
            }
        }
    }
    assert(q.contains(v)) by {
        assert(q[pfr.len() - 1] == v);
    }
    assert(path_weight(durs, q) <= bwdpot[q[0] as int]);
    assert(tval <= cost);
    assert(tval >= 0) by {
        assert(fwdpot[v as int] >= durs[v as int]);
        assert(bwdpot[v as int] >= 0);
    }
    assert(passes_through(succs, durs, v, tval as u64));
}

/// No chain through `v` outweighs the joined potentials: split it at `v`
/// and bound both halves.
#[verifier::rlimit(100)]
#[verifier::spinoff_prover]
proof fn lemma_through_bound(
    g: &Graph,
    durs: Seq<u64>,
    fwdpot: Seq<u64>,
    bwdpot: Seq<u64>,
    v: usize,
)
    requires
        g.wf(),
        durs == g.durs(),
        fwdpot.len() == g.n(),
        bwdpot.len() == g.n(),
        (v as int) < g.n(),
        fwdpot[v as int] >= durs[v as int],
        fwdpot[v as int] + bwdpot[v as int] - durs[v as int] <= u64::MAX,
        forall|p: Seq<usize>|
            #[trigger] adj_path(g.preds_spec(), p) ==> path_weight(durs, p) <= fwdpot[p[0] as int],
        forall|p: Seq<usize>|
            #[trigger] adj_path(g.succs_spec(), p) ==> path_weight(durs, p) <= bwdpot[p[0] as int],
    ensures
        bounds_through(
            g.succs_spec(),
            durs,
            v,
            (fwdpot[v as int] + bwdpot[v as int] - durs[v as int]) as u64,
        ),
{
    let succs = g.succs_spec();
    let preds = g.preds_spec();
    let tval = fwdpot[v as int] + bwdpot[v as int] - durs[v as int];
    lemma_adjacency_mirror(g);
    assert forall|p: Seq<usize>| #[trigger] adj_path(succs, p) && p.contains(v) implies path_weight(
        durs,
        p,
    ) <= tval as u64 by {
        let k = choose|k: int| 0 <= k < p.len() && p[k] == v;
        let q1 = p.subrange(0, k + 1);
        let q2 = p.subrange(k, p.len() as int);
        assert(adj_path(succs, q1)) by {
            assert(forall|t: int| 0 <= t < q1.len() ==> q1[t] == p[t]);
        }
        assert(adj_path(succs, q2)) by {
            assert(forall|t: int| 0 <= t < q2.len() ==> q2[t] == p[t + k]);
        }
        assert(p =~= q1 + q2.drop_first());
        lemma_weight_concat(durs, q1, q2.drop_first());
        assert(q2[0] == v);
        assert(path_weight(durs, q2) == durs[v as int] + path_weight(durs, q2.drop_first()));
        assert(path_weight(durs, q2) <= bwdpot[v as int]);
        lemma_reverse_path(succs, preds, q1);
        lemma_weight_reverse(durs, q1);
        let q1r = q1.reverse();
        assert(q1r[0] == q1.last());
        assert(q1.last() == v);
        assert(path_weight(durs, q1r) <= fwdpot[v as int]);
    }
}

/// Compute the critical path of the finalized graph: the chain of maximal
/// total duration, its cost, and for every vertex the weight of the
/// heaviest chain passing through it (its potential). Fails on a cycle,
/// or when some chain's total duration exceeds the 64-bit unit.
#[verifier::rlimit(100)]
#[verifier::spinoff_prover]
pub fn compute_critical_path_potentials(g: &Graph) -> (r: Result<
    (Vec<usize>, u64, Vec<u64>),
    CriticalPathError,
>)
    requires
        g.wf(),
    ensures
        match r {
            Result::Ok(out) => {
                &&& is_dag(*g)
                &&& out.2@.len() == g.n()
                &&& g.n() == 0 ==> out.0@.len() == 0 && out.1 == 0
                &&& g.n() > 0 ==> adj_path(g.succs_spec(), out.0@) && path_weight(g.durs(), out.0@)
                    == out.1 && g.succs_spec()[out.0@.last() as int]@.len() == 0
                &&& forall|p: Seq<usize>|
                    #[trigger] adj_path(g.succs_spec(), p) ==> path_weight(g.durs(), p) <= out.1
                &&& forall|v: usize|
                    (v as int) < g.n() ==> #[trigger] passes_through(
                        g.succs_spec(),
                        g.durs(),
                        v,
                        out.2@[v as int],
                    ) && bounds_through(g.succs_spec(), g.durs(), v, out.2@[v as int])
            },
            Result::Err(e) => {
                &&& e == CriticalPathError::DependencyCycle || e
                    == CriticalPathError::DurationOverflow
                &&& e == CriticalPathError::DependencyCycle <==> !is_dag(*g)
                &&& e == CriticalPathError::DurationOverflow ==> exists|p: Seq<usize>|
                    #[trigger] adj_path(g.succs_spec(), p) && path_weight(g.durs(), p) > u64::MAX
            },
        },
{
    let ghost durs = g.durs();
    let n = g.keys.len();
    let ord = match toposort(g) {
        Ok(o) => o,
        Err(e) => {
            return Err(e);
        },
    };
    if n == 0 {
        proof {
            assert forall|p: Seq<usize>| #[trigger] adj_path(g.succs_spec(), p) implies path_weight(
                durs,
                p,
            ) <= 0 by {
                assert(p.len() >= 1);
                assert((p[0] as int) < 0);
            }
        }
        return Ok((Vec::new(), 0, Vec::new()));
    }
    let rev = reverse_vec(&ord);
    proof {
        assert(rev@.len() == n);
        assert(forall|i: int| 0 <= i < n ==> #[trigger] rev@[i] == ord@[n - 1 - i]);
        assert(rev@.no_duplicates()) by {
            assert(forall|i: int, j: int|
                (0 <= i < rev@.len() && 0 <= j < rev@.len() && i != j) ==> rev@[i] != rev@[j]);
        }
        assert forall|v: usize| (v as int) < n implies #[trigger] ord@.contains(v) by {
            assert(ord@[pos_of(ord@, v)] == v);
        }
        assert(proc_ok(g.succs_spec(), rev@)) by {
            assert forall|v: usize| (v as int) < n implies 0 <= #[trigger] pos_of(rev@, v)
                < rev@.len() && rev@[pos_of(rev@, v)] == v by {
                lemma_pos_reverse(ord@, v);
                assert(rev@[pos_of(rev@, v)] == ord@[n - 1 - pos_of(rev@, v)]);
            }
            assert forall|a: int, j: int|
                0 <= a < n && 0 <= j < g.succs_spec()[a]@.len() implies pos_of(
                rev@,
                #[trigger] g.succs_spec()[a]@[j],
            ) < pos_of(rev@, (a as usize)) by {
                let w = g.succs_spec()[a]@[j];
                assert(g.succs_spec()[a]@.contains(w));
                assert(g.edge(((a as usize) as int), w as int)) by {
                    assert(((a as usize) as int) == a);
                    assert(((w as int) as usize) == w);
                }
                assert(pos_of(ord@, (a as usize)) < pos_of(ord@, w));
                lemma_pos_reverse(ord@, (a as usize));
                lemma_pos_reverse(ord@, w);
            }
        }
        assert(proc_ok(g.preds_spec(), ord@)) by {
            assert forall|a: int, j: int|
                0 <= a < n && 0 <= j < g.preds_spec()[a]@.len() implies pos_of(
                ord@,
                #[trigger] g.preds_spec()[a]@[j],
            ) < pos_of(ord@, (a as usize)) by {
                let u = g.preds_spec()[a]@[j];
                assert(g.preds_spec()[a]@.contains(u));
                assert(g.succs_spec()[u as int]@.contains((a as usize)) <==> g.preds_spec()[
                    ((a as usize) as int)
                ]@.contains(((u as int) as usize)));
                assert(g.edge(u as int, a));
                assert(g.edge((u as int), ((a as usize) as int)));
            }
        }
    }
    let bwd = match potentials_along(&g.succs, &rev, &g.datas) {
        Ok(p) => p,
        Err(e) => {
            return Err(e);
        },
    };
    let fwd = match potentials_along(&g.preds, &ord, &g.datas) {
        Ok(p) => p,
        Err(e) => {
            proof {
                let hp = choose|p: Seq<usize>|
                    #[trigger] adj_path(g.preds_spec(), p) && path_weight(durs, p) > u64::MAX;
                assert forall|a: int, b: int|
                    #![trigger g.preds_spec()[a]@.contains(b as usize)]
                    #![trigger g.succs_spec()[b]@.contains(a as usize)]
                    0 <= a < n && 0 <= b < n implies (g.preds_spec()[a]@.contains(b as usize)
                    <==> g.succs_spec()[b]@.contains(a as usize)) by {
                    assert(g.succs_spec()[b]@.contains(a as usize) <==> g.preds_spec()[
                        a
                    ]@.contains(b as usize));
                }
                lemma_reverse_path(g.preds_spec(), g.succs_spec(), hp);
                lemma_weight_reverse(durs, hp);
                assert(adj_path(g.succs_spec(), hp.reverse()) && path_weight(durs, hp.reverse())
                    > u64::MAX);
            }
            return Err(e);
        },
    };
    let start = argmax_pot(&bwd);
    let cost = bwd[start];
    let path = follow_best(&g.succs, &bwd, &g.datas, &rev, start);
    proof {
        assert forall|p: Seq<usize>| #[trigger] adj_path(g.succs_spec(), p) implies path_weight(
            durs,
            p,
        ) <= cost by {
            assert(path_weight(durs, p) <= bwd@[p[0] as int]);
        }
    }

    let mut through: Vec<u64> = Vec::new();
    let mut v: usize = 0;
    while v < n
        invariant
            g.wf(),
            n == g.n(),
            durs == g.durs(),
            fwd@.len() == n,
            bwd@.len() == n,
            (start as int) < n,
            cost == bwd@[start as int],
            forall|x: int| 0 <= x < n ==> #[trigger] bwd@[x] <= cost,
            forall|x: int| 0 <= x < n ==> #[trigger] fwd@[x] >= durs[x],
            forall|p: Seq<usize>|
                #[trigger] adj_path(g.preds_spec(), p) ==> path_weight(durs, p) <= fwd@[
                    p[0] as int
                ],
            forall|p: Seq<usize>|
                #[trigger] adj_path(g.succs_spec(), p) ==> path_weight(durs, p) <= bwd@[
                    p[0] as int
                ],
            forall|x: usize|
                (x as int) < n ==> #[trigger] achieves(g.preds_spec(), durs, x, fwd@[x as int]),
            forall|x: usize|
                (x as int) < n ==> #[trigger] achieves(g.succs_spec(), durs, x, bwd@[x as int]),
            0 <= v <= n,
            through@.len() == v,
            forall|x: usize|
                (x as int) < v ==> #[trigger] passes_through(
                    g.succs_spec(),
                    durs,
                    x,
                    through@[x as int],
                ) && bounds_through(g.succs_spec(), durs, x, through@[x as int]),
        decreases n - v,
    {
        proof {
            lemma_through(g, durs, fwd@, bwd@, cost, v);
        }
        let d = duration_at(&g.datas, v);
        let tv = (fwd[v] - d) + bwd[v];
        through.push(tv);
        v = v + 1;
    }
    Ok((path, cost, through))
}

/// The duration of the vertex at position `i`.
fn duration_at(datas: &Vec<NodeData>, i: usize) -> (r: u64)
    requires
        (i as int) < datas@.len(),
    ensures
        r == durations_of(datas@)[i as int],
{
    datas[i].duration
}

/// A ranking of the inserted vertices that sends every resolved
/// dependency reference strictly upward.
pub open spec fn deps_ranked(keys: Seq<NodeKey>, deps: Seq<Vec<NodeKey>>, rank: Seq<int>) -> bool {
    &&& rank.len() == keys.len()
    &&& forall|a: int, b: int|
        0 <= a < keys.len() && 0 <= b < keys.len() && #[trigger] has_edge(keys, deps, a, b)
            ==> rank[a] < rank[b]
}

/// The inserted vertices and dependency references close no cycle.
pub open spec fn deps_dag(keys: Seq<NodeKey>, deps: Seq<Vec<NodeKey>>) -> bool {
    exists|rank: Seq<int>| #[trigger] deps_ranked(keys, deps, rank)
}

impl Graph {
    /// Payload of the vertex at position `i`.
    pub fn data_at(&self, i: usize) -> (r: &NodeData)
        requires
            (i as int) < self.n(),
            self.wf(),
        ensures
            *r == self.datas_spec()[i as int],
    {
        &self.datas[i]
    }
}

/// Number of vertices of the finalized graph.
pub fn vertices_count(g: &Graph) -> (r: u64)
    requires
        g.wf(),
    ensures
        r == g.n(),
{
    g.keys.len() as u64
}

} // verus!

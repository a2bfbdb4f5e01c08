//! The streaming backend's predecessor store and the critical-path
//! extraction helper.
//!
//! A [`CriticalPathMap`] associates each seen [`NodeKey`] with its latest
//! [`CriticalPathNode`] record. Entries keep their first-insertion position;
//! re-inserting a key overwrites the record in place. The extraction helper
//! walks predecessor links backwards from the node of maximal cumulative
//! duration and converts cumulative durations back to per-node ones.

use vstd::prelude::*;

use crate::signals::NodeKey;

verus! {

/// Per-node record of the streaming backend: the cumulative duration of the
/// best chain ending here, the node's attached value (absent for synthetic
/// nodes), and the chosen predecessor.
#[derive(Debug)]
pub struct CriticalPathNode<V> {
    /// The aggregated duration of the chain ending at this node.
    pub duration: u64,
    /// The value of this node. If `None`, the node is dropped when the path
    /// is displayed.
    pub value: Option<V>,
    pub prev: Option<NodeKey>,
}

/// Association from node keys to their records, backed by a vector of
/// entries with pairwise distinct keys.
#[derive(Debug)]
pub struct CriticalPathMap<V> {
    entries: Vec<(NodeKey, CriticalPathNode<V>)>,
}

/// Index of the first entry holding `k`, or `-1` when no entry does.
pub open spec fn key_index<V>(s: Seq<(NodeKey, CriticalPathNode<V>)>, k: NodeKey) -> int
    decreases s.len(),
{
    if s.len() == 0 {
        -1
    } else if s[0].0 == k {
        0
    } else {
        let r = key_index(s.drop_first(), k);
        if r == -1 {
            -1
        } else {
            r + 1
        }
    }
}

/// The record stored for `k`, if any.
pub open spec fn lookup<V>(s: Seq<(NodeKey, CriticalPathNode<V>)>, k: NodeKey) -> Option<
    CriticalPathNode<V>,
> {
    if key_index(s, k) == -1 {
        None
    } else {
        Some(s[key_index(s, k)].1)
    }
}

/// `key_index` returns `-1` exactly when the key is absent, and otherwise
/// the first position holding the key.
pub proof fn lemma_key_index<V>(s: Seq<(NodeKey, CriticalPathNode<V>)>, k: NodeKey)
    ensures
        key_index(s, k) == -1 ==> forall|j: int| 0 <= j < s.len() ==> s[j].0 != k,
        key_index(s, k) != -1 ==> 0 <= key_index(s, k) < s.len() && s[key_index(s, k)].0 == k
            && forall|j: int| 0 <= j < key_index(s, k) ==> s[j].0 != k,
    decreases s.len(),
{
    if s.len() == 0 {
    } else if s[0].0 == k {
    } else {
        lemma_key_index(s.drop_first(), k);
        assert(forall|j: int| 1 <= j < s.len() ==> s[j] == s.drop_first()[j - 1]);
    }
}

/// Index of the terminal entry: the last entry whose cumulative duration is
/// maximal, or `-1` for an empty store.
pub open spec fn terminal_index<V>(s: Seq<(NodeKey, CriticalPathNode<V>)>) -> int
    decreases s.len(),
{
    if s.len() == 0 {
        -1
    } else {
        let p = terminal_index(s.drop_last());
        if p == -1 || s.last().1.duration >= s[p].1.duration {
            s.len() - 1
        } else {
            p
        }
    }
}

/// The key at the terminal entry, if any.
pub open spec fn terminal_key<V>(s: Seq<(NodeKey, CriticalPathNode<V>)>) -> Option<NodeKey> {
    if terminal_index(s) == -1 {
        None
    } else {
        Some(s[terminal_index(s)].0)
    }
}

/// Subtraction clamped at zero, as used when converting cumulative
/// durations back to per-node ones.
pub open spec fn sat_sub(a: u64, b: u64) -> u64 {
    if a >= b {
        (a - b) as u64
    } else {
        0
    }
}

/// The walk backwards over predecessor links, starting at `cur`: yields
/// `(key, value, cumulative duration)` for each reachable record, terminal
/// first. `fuel` bounds the walk so that it is well defined even on a store
/// whose links loop; a store built by the streaming backend never exhausts
/// a fuel of `s.len()`.
pub open spec fn trace<V>(
    s: Seq<(NodeKey, CriticalPathNode<V>)>,
    cur: Option<NodeKey>,
    fuel: nat,
) -> Seq<(NodeKey, Option<V>, u64)>
    decreases fuel,
{
    match cur {
        Option::None => Seq::empty(),
        Option::Some(k) => match lookup(s, k) {
            Option::None => Seq::empty(),
            Option::Some(nd) => if fuel == 0 {
                Seq::empty()
            } else {
                seq![(k, nd.value, nd.duration)] + trace(s, nd.prev, (fuel - 1) as nat)
            },
        },
    }
}

/// The full extraction result over a store `s`: the backwards walk from the
/// terminal entry, reversed into chain order, with each cumulative duration
/// replaced by the difference to its predecessor's (the first entry keeps
/// its full cumulative value).
pub open spec fn extracted<V>(s: Seq<(NodeKey, CriticalPathNode<V>)>) -> Seq<
    (NodeKey, Option<V>, u64),
> {
    let t = trace(s, terminal_key(s), s.len()).reverse();
    Seq::new(
        t.len(),
        |j: int|
            if j == 0 {
                t[0]
            } else {
                (t[j].0, t[j].1, sat_sub(t[j].2, t[j - 1].2))
            },
    )
}

impl<V> CriticalPathMap<V> {
    /// Keys are pairwise distinct.
    pub closed spec fn wf(&self) -> bool {
        forall|i: int, j: int|
            0 <= i < j < self@.len() ==> (#[trigger] self@[i]).0 != (#[trigger] self@[j]).0
    }

    pub fn new() -> (r: CriticalPathMap<V>)
        ensures
            r.wf(),
            r@ == Seq::<(NodeKey, CriticalPathNode<V>)>::empty(),
    {
        CriticalPathMap { entries: Vec::new() }
    }

    pub fn len(&self) -> (r: usize)
        ensures
            r == self@.len(),
    {
        self.entries.len()
    }

    /// Position of `k`'s entry, if present.
    fn find_idx(&self, k: &NodeKey) -> (r: Option<usize>)
        ensures
            match r {
                Option::Some(i) => i == key_index(self@, *k),
                Option::None => key_index(self@, *k) == -1,
            },
    {
        proof {
            lemma_key_index(self@, *k);
        }
        let n = self.entries.len();
        let mut i: usize = 0;
        while i < n
            invariant
                n == self@.len(),
                0 <= i <= n,
                forall|j: int| 0 <= j < i ==> (#[trigger] self@[j]).0 != *k,
                key_index(self@, *k) == -1 || key_index(self@, *k) >= i,
            decreases n - i,
        {
            proof {
                lemma_key_index(self@, *k);
            }
            if self.entries[i].0 == *k {
                return Some(i);
            }
            i = i + 1;
        }
        None
    }

    /// The record stored for `k`, if any.
    pub fn get(&self, k: &NodeKey) -> (r: Option<&CriticalPathNode<V>>)
        ensures
            match r {
                Option::Some(nd) => lookup(self@, *k) == Some(*nd),
                Option::None => lookup(self@, *k) is None,
            },
    {
        proof {
            lemma_key_index(self@, *k);
        }
        match self.find_idx(k) {
            Some(i) => Some(&self.entries[i].1),
            None => None,
        }
    }

    /// Store `nd` under `k`. An existing record for `k` is overwritten in
    /// place; a new key is appended.
    pub fn insert(&mut self, k: NodeKey, nd: CriticalPathNode<V>)
        requires
            old(self).wf(),
        ensures
            final(self).wf(),
            final(self)@ == if key_index(old(self)@, k) == -1 {
                old(self)@.push((k, nd))
            } else {
                old(self)@.update(key_index(old(self)@, k), (k, nd))
            },
            lookup(final(self)@, k) == Some(nd),
    {
        proof {
            lemma_key_index(self@, k);
        }
        match self.find_idx(&k) {
            Some(i) => {
                self.entries[i] = (k, nd);
                proof {
                    lemma_key_index(self@, k);
                    assert(self@[key_index(self@, k)].1 == nd);
                }
            },
            None => {
                self.entries.push((k, nd));
                proof {
                    lemma_key_index(self@, k);
                    let ki = key_index(self@, k);
                    assert(self@[self@.len() - 1].0 == k);
                    assert(ki != -1);
                    assert(0 <= ki < self@.len());
                    assert(self@[ki].0 == k);
                    if ki < self@.len() - 1 {
                        assert(old(self)@[ki] == self@[ki]);
                        assert(false);
                    }
                }
            },
        }
    }
}

/// Walk the predecessor links of the terminal (maximum cumulative duration)
/// entry back to a rootless record, reverse the walk into chain order, and
/// convert cumulative durations to per-node durations by subtracting each
/// entry's predecessor cumulative value. An empty store yields an empty
/// path.
pub fn extract_critical_path<V>(map: &CriticalPathMap<V>) -> (r: Vec<(NodeKey, &Option<V>, u64)>)
    ensures
        ({
            let t = extracted(map@);
            r@.len() == t.len() && forall|j: int|
                0 <= j < t.len() ==> (#[trigger] r@[j]).0 == t[j].0 && *r@[j].1 == t[j].1
                    && r@[j].2 == t[j].2
        }),
{
    let ghost s = map@;
    let n = map.entries.len();

    // Terminal selection: last entry of maximal cumulative duration.
    let mut best: Option<usize> = None;
    let mut i: usize = 0;
    while i < n
        invariant
            n == s.len(),
            s == map@,
            0 <= i <= n,
            match best {
                Option::Some(b) => b == terminal_index(s.take(i as int)) && b < i,
                Option::None => terminal_index(s.take(i as int)) == -1 && i == 0,
            },
        decreases n - i,
    {
        proof {
            assert(s.take(i + 1).drop_last() =~= s.take(i as int));
            assert(s.take(i + 1).last() == s[i as int]);
        }
        match best {
            Some(b) => {
                if self_entry_duration(map, i) >= self_entry_duration(map, b) {
                    best = Some(i);
                }
            },
            None => {
                best = Some(i);
            },
        }
        i = i + 1;
    }
    proof {
        assert(s.take(n as int) =~= s);
    }

    let mut cur: Option<NodeKey> = match best {
        Some(b) => Some(map.entries[b].0),
        None => None,
    };
    assert(cur == terminal_key(s));

    // Backwards walk from the terminal entry.
    let mut rev: Vec<(NodeKey, &Option<V>, u64)> = Vec::new();
    let ghost start = cur;
    let ghost mut done: Seq<(NodeKey, Option<V>, u64)> = Seq::empty();
    let mut fuel: usize = n;
    loop
        invariant
            s == map@,
            n == s.len(),
            fuel <= n,
            done.len() == rev@.len(),
            forall|j: int|
                0 <= j < done.len() ==> (#[trigger] rev@[j]).0 == done[j].0 && *rev@[j].1
                    == done[j].1 && rev@[j].2 == done[j].2,
            trace(s, start, n as nat) == done + trace(s, cur, fuel as nat),
        ensures
            s == map@,
            n == s.len(),
            done.len() == rev@.len(),
            forall|j: int|
                0 <= j < done.len() ==> (#[trigger] rev@[j]).0 == done[j].0 && *rev@[j].1
                    == done[j].1 && rev@[j].2 == done[j].2,
            done == trace(s, start, n as nat),
        decreases fuel + (if cur is Some { 1int } else { 0int }),
    {
        match cur {
            None => {
                proof {
                    assert(done + trace(s, cur, fuel as nat) =~= done);
                }
                break ;
            },
            Some(k) => {
                match map.find_idx(&k) {
                    None => {
                        proof {
                            assert(done + trace(s, cur, fuel as nat) =~= done);
                        }
                        break ;
                    },
                    Some(idx) => {
                        if fuel == 0 {
                            proof {
                                assert(done + trace(s, cur, fuel as nat) =~= done);
                            }
                            break ;
                        }
                        proof {
                            lemma_key_index(s, k);
                        }
                        let nd = &map.entries[idx].1;
                        rev.push((k, &nd.value, nd.duration));
                        proof {
                            let step = trace(s, cur, fuel as nat);
                            assert(step == seq![(k, nd.value, nd.duration)] + trace(
                                s,
                                nd.prev,
                                (fuel - 1) as nat,
                            ));
                            assert(done + step =~= done.push((k, nd.value, nd.duration)) + trace(
                                s,
                                nd.prev,
                                (fuel - 1) as nat,
                            ));
                            done = done.push((k, nd.value, nd.duration));
                        }
                        cur = nd.prev;
                        fuel = fuel - 1;
                    },
                }
            },
        }
    }

    // Reverse into chain order, converting cumulative durations to
    // differences of adjacent entries.
    let ghost t = trace(s, start, n as nat).reverse();
    let m = rev.len();
    let mut out: Vec<(NodeKey, &Option<V>, u64)> = Vec::new();
    let mut j: usize = 0;
    while j < m
        invariant
            m == rev@.len(),
            m == done.len(),
            t.len() == m,
            t == done.reverse(),
            forall|jj: int|
                0 <= jj < done.len() ==> (#[trigger] rev@[jj]).0 == done[jj].0 && *rev@[jj].1
                    == done[jj].1 && rev@[jj].2 == done[jj].2,
            0 <= j <= m,
            out@.len() == j,
            forall|jj: int|
                0 <= jj < j ==> (#[trigger] out@[jj]).0 == t[jj].0 && *out@[jj].1 == t[jj].1
                    && out@[jj].2 == (if jj == 0 {
                    t[0].2
                } else {
                    sat_sub(t[jj].2, t[jj - 1].2)
                }),
        decreases m - j,
    {
        let i2 = m - 1 - j;
        let (k, vref, d) = rev[i2];
        proof {
            assert(t[j as int] == done[m - 1 - j]);
        }
        if j == 0 {
            out.push((k, vref, d));
        } else {
            let dprev = rev[i2 + 1].2;
            proof {
                assert(t[j - 1] == done[m - j]);
            }
            let dd = if d >= dprev {
                d - dprev
            } else {
                0
            };
            out.push((k, vref, dd));
        }
        j = j + 1;
    }
    proof {
        let e = extracted(s);
        assert(e.len() == t.len());
        assert(forall|jj: int| 0 <= jj < t.len() ==> e[jj] == (#[trigger] t[jj].0, t[jj].1, (
        if jj == 0 {
            t[0].2
        } else {
            sat_sub(t[jj].2, t[jj - 1].2)
        })));
    }
    out
}

/// An empty predecessor store extracts to an empty path.
pub proof fn lemma_extract_empty<V>()
    ensures
        extracted(Seq::<(NodeKey, CriticalPathNode<V>)>::empty()) == Seq::<
            (NodeKey, Option<V>, u64),
        >::empty(),
{
    let s = Seq::<(NodeKey, CriticalPathNode<V>)>::empty();
    assert(terminal_index(s) == -1);
    assert(trace(s, terminal_key(s), s.len()) == Seq::<(NodeKey, Option<V>, u64)>::empty());
    assert(extracted(s) =~= Seq::<(NodeKey, Option<V>, u64)>::empty());
}

/// A store holding one record for one node extracts to a single entry
/// carrying that node's value and full cumulative duration.
pub proof fn lemma_extract_single<V>(k: NodeKey, nd: CriticalPathNode<V>)
    ensures
        extracted(seq![(k, nd)]) == seq![(k, nd.value, nd.duration)],
{
    let s = seq![(k, nd)];
    assert(s.drop_last() =~= Seq::<(NodeKey, CriticalPathNode<V>)>::empty());
    assert(terminal_index(Seq::<(NodeKey, CriticalPathNode<V>)>::empty()) == -1);
    assert(s.last() == (k, nd));
    assert(terminal_index(s) == 0);
    assert(terminal_key(s) == Some(k));
    assert(key_index(s, k) == 0);
    assert(lookup(s, k) == Some(nd));
    let t0 = trace(s, nd.prev, 0);
    assert(t0 =~= Seq::<(NodeKey, Option<V>, u64)>::empty()) by {
        match nd.prev {
            Option::None => {},
            Option::Some(_) => {},
        }
    }
    let t = trace(s, terminal_key(s), s.len());
    assert(t =~= seq![(k, nd.value, nd.duration)]);
    assert(t.reverse() =~= t);
    assert(extracted(s) =~= seq![(k, nd.value, nd.duration)]);
}

/// Cumulative duration of the entry at position `i`.
fn self_entry_duration<V>(map: &CriticalPathMap<V>, i: usize) -> (r: u64)
    requires
        i < map@.len(),
    ensures
        r == map@[i as int].1.duration,
{
    map.entries[i].1.duration
}

impl<V> View for CriticalPathMap<V> {
    type V = Seq<(NodeKey, CriticalPathNode<V>)>;

    closed spec fn view(&self) -> Seq<(NodeKey, CriticalPathNode<V>)> {
        self.entries@
    }
}

} // verus!

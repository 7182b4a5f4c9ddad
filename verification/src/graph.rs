//! The venue graph.
//!
//! Tokens are deduplicated into a dense index space, assigned in the
//! order they are first observed while loading venues.  The graph maps
//! an ordered pair of token indices to the list of venues connecting
//! that pair; the builder inserts every venue under both directions, so
//! the reverse lookup resolves to the same venues, and parallel venues
//! on one pair append to the same list.  The graph holds venue handles —
//! slots into the snapshot's venue list — so that both directions share
//! a single venue state and a new graph generation can be swapped in
//! wholesale on refresh.

use vstd::prelude::*;
use vstd::pervasive::VecAdditionalExecFns;
use crate::keys::AccountId;
use crate::pool::Pool;

verus! {

/// Index of a token in the dense token space.
#[derive(Clone, Copy, Debug, PartialEq, Eq, Structural)]
pub struct PoolIndex(pub usize);

/// A venue handle: the venue's slot in the snapshot's venue list.
#[derive(Clone, Copy, Debug, PartialEq, Eq, Structural)]
pub struct PoolQuote(pub usize);

/// The edges leaving one token: for each neighbour token index, the
/// venues connecting the pair.
pub struct PoolEdge(pub Vec<Vec<PoolQuote>>);

/// Adjacency over token indices.
pub struct PoolGraph(pub Vec<PoolEdge>);

/// The venues listed for the directed pair `(i, j)`; token pairs the
/// graph has never seen hold no venues.
pub open spec fn edge_quotes(g: PoolGraph, i: int, j: int) -> Seq<PoolQuote> {
    if 0 <= i < g.0@.len() && 0 <= j < g.0@[i].0@.len() {
        g.0@[i].0@[j]@
    } else {
        Seq::empty()
    }
}

impl PoolGraph {
    /// An empty graph: no token has any edge.
    pub fn new() -> (r: PoolGraph)
        ensures
            forall|i: int, j: int| edge_quotes(r, i, j) == Seq::<PoolQuote>::empty(),
    {
        PoolGraph(Vec::new())
    }
}

/// Inserts one venue into the edge for the directed token pair
/// `(idx0, idx1)`: the venue list for that pair grows by the handle, and
/// every other pair keeps exactly the venues it had.  The caller inserts
/// each venue under both directions so the pair is reachable either way.
pub fn add_pool_to_graph(graph: &mut PoolGraph, idx0: PoolIndex, idx1: PoolIndex, quote: &PoolQuote)
    ensures
        edge_quotes(*final(graph), idx0.0 as int, idx1.0 as int) == edge_quotes(
            *old(graph),
            idx0.0 as int,
            idx1.0 as int,
        ).push(*quote),
        forall|i: int, j: int|
            !(i == idx0.0 as int && j == idx1.0 as int) ==> edge_quotes(*final(graph), i, j)
                =~= edge_quotes(*old(graph), i, j),
{
    let ghost g0 = *graph;
    while graph.0.len() <= idx0.0
        invariant
            g0.0@.len() <= graph.0@.len(),
            forall|i: int| 0 <= i < g0.0@.len() ==> graph.0@[i] == g0.0@[i],
            forall|i: int|
                g0.0@.len() <= i < graph.0@.len() ==> (#[trigger] graph.0@[i]).0@.len() == 0,
        decreases idx0.0 + 1 - graph.0.len(),
    {
        graph.0.push(PoolEdge(Vec::new()));
    }
    let ghost outer1 = graph.0@;
    let mut edge = PoolEdge(Vec::new());
    graph.0.set_and_swap(idx0.0, &mut edge);
    let ghost e0 = edge.0@;
    proof {
        assert(e0 == outer1[idx0.0 as int].0@);
    }
    while edge.0.len() <= idx1.0
        invariant
            e0.len() <= edge.0@.len(),
            forall|j: int| 0 <= j < e0.len() ==> edge.0@[j] == e0[j],
            forall|j: int| e0.len() <= j < edge.0@.len() ==> (#[trigger] edge.0@[j])@.len() == 0,
        decreases idx1.0 + 1 - edge.0.len(),
    {
        edge.0.push(Vec::new());
    }
    let ghost inner1 = edge.0@;
    let ghost i0 = idx0.0 as int;
    let ghost j0 = idx1.0 as int;
    let mut lst: Vec<PoolQuote> = Vec::new();
    edge.0.set_and_swap(idx1.0, &mut lst);
    proof {
        assert(lst@ == inner1[j0]@);
    }
    lst.push(*quote);
    let ghost lst_v = lst@;
    edge.0.set_and_swap(idx1.0, &mut lst);
    let ghost inner2 = edge.0@;
    proof {
        assert(inner2.len() == inner1.len());
        assert(inner2[j0]@ == lst_v);
        assert(forall|j: int| 0 <= j < inner2.len() && j != j0 ==> inner2[j] == inner1[j]);
    }
    graph.0.set_and_swap(idx0.0, &mut edge);
    proof {
        let gf = *graph;
        assert(gf.0@.len() == outer1.len());
        assert(gf.0@[i0].0@ == inner2);
        assert(forall|i: int| 0 <= i < outer1.len() && i != i0 ==> gf.0@[i] == outer1[i]);
        // the updated pair
        assert(gf.0@[i0].0@[j0]@ == inner1[j0]@.push(*quote));
        if i0 < g0.0@.len() && j0 < g0.0@[i0].0@.len() {
            assert(inner1[j0] == e0[j0]);
            assert(e0[j0] == g0.0@[i0].0@[j0]);
        } else {
            assert(inner1[j0]@.len() == 0);
            assert(edge_quotes(g0, i0, j0) =~= inner1[j0]@);
        }
        // every other pair
        assert forall|i: int, j: int| !(i == i0 && j == j0) implies edge_quotes(gf, i, j)
            =~= edge_quotes(g0, i, j) by {
            if i == i0 {
                if 0 <= j < gf.0@[i0].0@.len() {
                    assert(gf.0@[i0].0@[j] == inner1[j]);
                    if j < e0.len() {
                        assert(inner1[j] == e0[j]);
                    } else {
                        assert(inner1[j]@.len() == 0);
                    }
                }
            } else if 0 <= i < gf.0@.len() {
                assert(gf.0@[i] == outer1[i]);
                if i < g0.0@.len() {
                    assert(outer1[i] == g0.0@[i]);
                } else {
                    assert(outer1[i].0@.len() == 0);
                }
            }
        }
    }
}

/// No mint appears twice in the dense token space.
pub open spec fn no_duplicate_mints(s: Seq<AccountId>) -> bool {
    forall|i: int, j: int| 0 <= i < j < s.len() ==> s[i] != s[j]
}

/// The dense token space.  Reading `mints` by index is the forward map;
/// `index_of` is the reverse map, consulted — never recomputed — during
/// search.  A token's index is assigned the first time the token is
/// observed while loading venues and is stable from then on.
pub struct TokenRegistry {
    pub mints: Vec<AccountId>,
}

impl TokenRegistry {
    /// An empty token space.
    pub fn new() -> (r: TokenRegistry)
        ensures
            r.mints@.len() == 0,
    {
        TokenRegistry { mints: Vec::new() }
    }

    /// The index of a mint, if it has been observed.
    pub fn index_of(&self, mint: &AccountId) -> (r: Option<usize>)
        ensures
            match r {
                Some(i) => i < self.mints@.len() && self.mints@[i as int] == *mint,
                None => forall|k: int| 0 <= k < self.mints@.len() ==> self.mints@[k] != *mint,
            },
    {
        let mut i: usize = 0;
        while i < self.mints.len()
            invariant
                i <= self.mints@.len(),
                forall|k: int| 0 <= k < i ==> self.mints@[k] != *mint,
            decreases self.mints@.len() - i,
        {
            if self.mints[i] == *mint {
                return Some(i);
            }
            i += 1;
        }
        None
    }

    /// The index of a mint, assigning the next free index on first
    /// observation.  Indices already assigned never move.
    pub fn get_or_insert(&mut self, mint: AccountId) -> (idx: usize)
        ensures
            idx < final(self).mints@.len(),
            final(self).mints@[idx as int] == mint,
            (exists|k: int| 0 <= k < old(self).mints@.len() && old(self).mints@[k] == mint)
                ==> *final(self) == *old(self),
            !(exists|k: int| 0 <= k < old(self).mints@.len() && old(self).mints@[k] == mint) ==> {
                &&& final(self).mints@ == old(self).mints@.push(mint)
                &&& idx == old(self).mints@.len()
            },
            no_duplicate_mints(old(self).mints@) ==> no_duplicate_mints(final(self).mints@),
    {
        match self.index_of(&mint) {
            Some(i) => i,
            None => {
                let idx = self.mints.len();
                self.mints.push(mint);
                idx
            },
        }
    }
}

/// Every venue handle in the graph points into the snapshot's venue
/// list.
pub open spec fn graph_in_bounds(g: PoolGraph, n_pools: int) -> bool {
    forall|i: int, j: int, k: int|
        0 <= k < edge_quotes(g, i, j).len() ==> (#[trigger] edge_quotes(g, i, j)[k]).0 < n_pools
}

/// Every listed venue really connects the pair it is listed under: the
/// two tokens of the pair are the venue's two mints, one way or the
/// other, and the pair is not degenerate.
pub open spec fn graph_edges_sound(g: PoolGraph, mints: Seq<AccountId>, pools: Seq<Pool>) -> bool {
    forall|i: int, j: int, k: int|
        0 <= k < edge_quotes(g, i, j).len() ==> {
            let q = #[trigger] edge_quotes(g, i, j)[k];
            &&& 0 <= q.0 < pools.len()
            &&& 0 <= i < mints.len()
            &&& 0 <= j < mints.len()
            &&& i != j
            &&& ((mints[i] == pools[q.0 as int].mints_spec().0 && mints[j] == pools[q.0 as int].mints_spec().1)
                || (mints[i] == pools[q.0 as int].mints_spec().1 && mints[j]
                == pools[q.0 as int].mints_spec().0))
        }
}

/// Every venue with two distinct mints is reachable in the graph, in
/// both directions, under the indices its mints were assigned.
pub open spec fn graph_edges_complete(g: PoolGraph, mints: Seq<AccountId>, pools: Seq<Pool>) -> bool {
    forall|p: int|
        0 <= p < pools.len() && (#[trigger] pools[p]).mints_spec().0 != pools[p].mints_spec().1
            ==> exists|i: int, j: int|
            {
                &&& 0 <= i < mints.len()
                &&& 0 <= j < mints.len()
                &&& (mints[i] == pools[p].mints_spec().0 || mints[i] == pools[p].mints_spec().1)
                &&& (mints[j] == pools[p].mints_spec().0 || mints[j] == pools[p].mints_spec().1)
                &&& mints[i] != mints[j]
                &&& #[trigger] edge_quotes(g, i, j).contains(PoolQuote(p as usize))
                &&& edge_quotes(g, j, i).contains(PoolQuote(p as usize))
            }
}

/// Whether a mint belongs to some venue of the list.
pub open spec fn mint_from_pools(m: AccountId, pools: Seq<Pool>) -> bool {
    exists|q: int|
        0 <= q < pools.len() && (m == (#[trigger] pools[q]).mints_spec().0 || m
            == pools[q].mints_spec().1)
}

/// Builds the token space and the venue graph from a snapshot's venue
/// list: resolves (or assigns) a token index for each venue's two mints
/// and inserts the venue under both directions of its pair.  A venue
/// without two distinct mints is skipped; parallel venues on one pair
/// accumulate on the same edge.
pub fn build_graph(pools: &Vec<Pool>) -> (r: (TokenRegistry, PoolGraph))
    ensures
        no_duplicate_mints(r.0.mints@),
        forall|t: int|
            #![trigger r.0.mints@[t]]
            0 <= t < r.0.mints@.len() ==> mint_from_pools(r.0.mints@[t], pools@),
        graph_in_bounds(r.1, pools@.len() as int),
        graph_edges_sound(r.1, r.0.mints@, pools@),
        graph_edges_complete(r.1, r.0.mints@, pools@),
{
    let mut registry = TokenRegistry::new();
    let mut graph = PoolGraph::new();
    let mut p: usize = 0;
    while p < pools.len()
        invariant
            p <= pools@.len(),
            no_duplicate_mints(registry.mints@),
            forall|t: int|
                #![trigger registry.mints@[t]]
                0 <= t < registry.mints@.len() ==> mint_from_pools(registry.mints@[t], pools@),
            graph_in_bounds(graph, p as int),
            graph_edges_sound(graph, registry.mints@, pools@),
            forall|q: int|
                0 <= q < p && (#[trigger] pools@[q]).mints_spec().0 != pools@[q].mints_spec().1
                    ==> exists|i: int, j: int|
                    {
                        &&& 0 <= i < registry.mints@.len()
                        &&& 0 <= j < registry.mints@.len()
                        &&& (registry.mints@[i] == pools@[q].mints_spec().0 || registry.mints@[i]
                            == pools@[q].mints_spec().1)
                        &&& (registry.mints@[j] == pools@[q].mints_spec().0 || registry.mints@[j]
                            == pools@[q].mints_spec().1)
                        &&& registry.mints@[i] != registry.mints@[j]
                        &&& #[trigger] edge_quotes(graph, i, j).contains(PoolQuote(q as usize))
                        &&& edge_quotes(graph, j, i).contains(PoolQuote(q as usize))
                    },
        decreases pools@.len() - p,
    {
        let ghost reg_before = registry.mints@;
        let ghost graph_before = graph;
        let pool = &pools[p];
        let (m0, m1) = pool.get_mints();
        if m0 == m1 {
            p += 1;
            continue;
        }
        let ia = registry.get_or_insert(m0);
        let ib = registry.get_or_insert(m1);
        proof {
            assert(registry.mints@[ia as int] == m0);
            assert(registry.mints@[ib as int] == m1);
            assert(ia != ib);
            assert(pools@[p as int] == *pool);
            assert(mint_from_pools(m0, pools@));
            assert(mint_from_pools(m1, pools@));
            assert forall|t: int|
                #![trigger registry.mints@[t]]
                0 <= t < registry.mints@.len() implies mint_from_pools(
                registry.mints@[t],
                pools@,
            ) by {
                if t < reg_before.len() {
                    assert(registry.mints@[t] == reg_before[t]);
                } else {
                    assert(registry.mints@[t] == m0 || registry.mints@[t] == m1);
                }
            }
        }
        let ghost graph_mid0 = graph;
        add_pool_to_graph(&mut graph, PoolIndex(ia), PoolIndex(ib), &PoolQuote(p));
        let ghost graph_mid1 = graph;
        add_pool_to_graph(&mut graph, PoolIndex(ib), PoolIndex(ia), &PoolQuote(p));
        proof {
            let ms = registry.mints@;
            let ps = pools@;
            let i0 = ia as int;
            let j0 = ib as int;
            // prefix of the registry is stable, so earlier facts carry over
            assert(forall|k: int| 0 <= k < reg_before.len() ==> ms[k] == reg_before[k]);
            // how the two insertions changed each pair
            assert(edge_quotes(graph, i0, j0) =~= edge_quotes(graph_mid0, i0, j0).push(
                PoolQuote(p as usize),
            ));
            assert(edge_quotes(graph, j0, i0) =~= edge_quotes(graph_mid0, j0, i0).push(
                PoolQuote(p as usize),
            ));
            assert forall|i: int, j: int|
                !(i == i0 && j == j0) && !(i == j0 && j == i0) implies edge_quotes(graph, i, j)
                =~= edge_quotes(graph_mid0, i, j) by {}
            // soundness of the new graph
            assert forall|i: int, j: int, k: int|
                0 <= k < edge_quotes(graph, i, j).len() implies {
                let q = #[trigger] edge_quotes(graph, i, j)[k];
                &&& 0 <= q.0 < ps.len()
                &&& 0 <= i < ms.len()
                &&& 0 <= j < ms.len()
                &&& i != j
                &&& ((ms[i] == ps[q.0 as int].mints_spec().0 && ms[j] == ps[q.0 as int].mints_spec().1) || (
                ms[i] == ps[q.0 as int].mints_spec().1 && ms[j] == ps[q.0 as int].mints_spec().0))
            } by {
                if (i == i0 && j == j0) || (i == j0 && j == i0) {
                    if k < edge_quotes(graph_mid0, i, j).len() {
                        assert(edge_quotes(graph, i, j)[k] == edge_quotes(graph_mid0, i, j)[k]);
                    } else {
                        assert(edge_quotes(graph, i, j)[k] == PoolQuote(p as usize));
                    }
                } else {
                    assert(edge_quotes(graph, i, j)[k] == edge_quotes(graph_mid0, i, j)[k]);
                }
            }
            // bounds of the new graph
            assert forall|i: int, j: int, k: int|
                0 <= k < edge_quotes(graph, i, j).len() implies (#[trigger] edge_quotes(
                graph,
                i,
                j,
            )[k]).0 < p + 1 by {
                if (i == i0 && j == j0) || (i == j0 && j == i0) {
                    if k < edge_quotes(graph_mid0, i, j).len() {
                        assert(edge_quotes(graph, i, j)[k] == edge_quotes(graph_mid0, i, j)[k]);
                    } else {
                        assert(edge_quotes(graph, i, j)[k] == PoolQuote(p as usize));
                    }
                } else {
                    assert(edge_quotes(graph, i, j)[k] == edge_quotes(graph_mid0, i, j)[k]);
                }
            }
            // the venue just inserted is reachable both ways
            assert(edge_quotes(graph, i0, j0).contains(PoolQuote(p as usize))) by {
                assert(edge_quotes(graph, i0, j0)[edge_quotes(graph, i0, j0).len() - 1]
                    == PoolQuote(p as usize));
            }
            assert(edge_quotes(graph, j0, i0).contains(PoolQuote(p as usize))) by {
                assert(edge_quotes(graph, j0, i0)[edge_quotes(graph, j0, i0).len() - 1]
                    == PoolQuote(p as usize));
            }
            // venues kept from earlier rounds stay reachable
            assert forall|q: int|
                0 <= q < p + 1 && (#[trigger] ps[q]).mints_spec().0 != ps[q].mints_spec().1 implies
                exists|i: int, j: int|
                {
                    &&& 0 <= i < ms.len()
                    &&& 0 <= j < ms.len()
                    &&& (ms[i] == ps[q].mints_spec().0 || ms[i] == ps[q].mints_spec().1)
                    &&& (ms[j] == ps[q].mints_spec().0 || ms[j] == ps[q].mints_spec().1)
                    &&& ms[i] != ms[j]
                    &&& #[trigger] edge_quotes(graph, i, j).contains(PoolQuote(q as usize))
                    &&& edge_quotes(graph, j, i).contains(PoolQuote(q as usize))
                } by {
                if q == p {
                    assert(0 <= i0 < ms.len() && 0 <= j0 < ms.len());
                    assert((ms[i0] == ps[q].mints_spec().0 || ms[i0] == ps[q].mints_spec().1));
                    assert((ms[j0] == ps[q].mints_spec().0 || ms[j0] == ps[q].mints_spec().1));
                    assert(ms[i0] != ms[j0]);
                } else {
                    let (i, j) = choose|i: int, j: int|
                        {
                            &&& 0 <= i < reg_before.len()
                            &&& 0 <= j < reg_before.len()
                            &&& (reg_before[i] == ps[q].mints_spec().0 || reg_before[i]
                                == ps[q].mints_spec().1)
                            &&& (reg_before[j] == ps[q].mints_spec().0 || reg_before[j]
                                == ps[q].mints_spec().1)
                            &&& reg_before[i] != reg_before[j]
                            &&& #[trigger] edge_quotes(graph_before, i, j).contains(PoolQuote(q as usize))
                            &&& edge_quotes(graph_before, j, i).contains(PoolQuote(q as usize))
                        };
                    assert(edge_quotes(graph_mid0, i, j) == edge_quotes(graph_before, i, j));
                    assert(edge_quotes(graph_mid0, j, i) == edge_quotes(graph_before, j, i));
                    if (i == i0 && j == j0) || (i == j0 && j == i0) {
                        assert(edge_quotes(graph, i, j).contains(PoolQuote(q as usize))) by {
                            let n = choose|n: int|
                                0 <= n < edge_quotes(graph_mid0, i, j).len() && edge_quotes(
                                    graph_mid0,
                                    i,
                                    j,
                                )[n] == PoolQuote(q as usize);
                            assert(edge_quotes(graph, i, j)[n] == PoolQuote(q as usize));
                        }
                        assert(edge_quotes(graph, j, i).contains(PoolQuote(q as usize))) by {
                            let n = choose|n: int|
                                0 <= n < edge_quotes(graph_mid0, j, i).len() && edge_quotes(
                                    graph_mid0,
                                    j,
                                    i,
                                )[n] == PoolQuote(q as usize);
                            assert(edge_quotes(graph, j, i)[n] == PoolQuote(q as usize));
                        }
                    } else {
                        assert(edge_quotes(graph, i, j) =~= edge_quotes(graph_mid0, i, j));
                        assert(edge_quotes(graph, j, i) =~= edge_quotes(graph_mid0, j, i));
                    }
                }
            }
        }
        p += 1;
    }
    (registry, graph)
}

} // verus!

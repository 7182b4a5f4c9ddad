//! Cycle search.
//!
//! A depth-first, amount-threaded traversal of the venue graph from a
//! start token: at each node every neighbour token and every venue on
//! that edge is tried, the carried amount is re-quoted hop by hop, and a
//! branch that returns to the start token with more than it committed
//! closes a profitable cycle.  Closed cycles are deduplicated by their
//! fingerprint — the ordered list of venue identifiers used — against a
//! set that the caller threads through repeated searches.
//!
//! The whole search is specified as a recursive function of the
//! snapshot and its inputs; the executable traversal is proved to
//! return exactly that function's value, which makes the search a pure
//! function: same snapshot, same inputs, same opportunities.

use vstd::prelude::*;
use crate::errors::PoolError;
use crate::keys::AccountId;
use crate::pool::Pool;
use crate::graph::{PoolGraph, edge_quotes, graph_in_bounds};

verus! {

/// A closed, profitable cycle, with everything the execution layer
/// needs to reconstruct the swap sequence: the token index visited at
/// each step, the venue used for each hop, and the amount carried at
/// each step.
pub struct Opportunity {
    /// Token indices visited; the first and last entries are the start
    /// token.
    pub path_tokens: Vec<usize>,
    /// The venue identifier used for each hop, in order.  This list is
    /// the cycle's fingerprint.
    pub venue_ids: Vec<AccountId>,
    /// The amount held at each step: the notional first, the quoted
    /// output of each hop after it.
    pub amounts: Vec<u128>,
    /// The notional committed to the cycle.
    pub original_notional: u128,
    /// What the cycle returns.
    pub final_amount: u128,
    /// `final_amount - original_notional`; emitted cycles always gain.
    pub profit: u128,
}

/// The mathematical shadow of an `Opportunity`.
pub struct OpportunityModel {
    pub path_tokens: Seq<usize>,
    pub venue_ids: Seq<AccountId>,
    pub amounts: Seq<u128>,
    pub original_notional: u128,
    pub final_amount: u128,
    pub profit: u128,
}

impl Opportunity {
    /// The value-level view of this opportunity.
    pub open spec fn model_spec(self) -> OpportunityModel {
        OpportunityModel {
            path_tokens: self.path_tokens@,
            venue_ids: self.venue_ids@,
            amounts: self.amounts@,
            original_notional: self.original_notional,
            final_amount: self.final_amount,
            profit: self.profit,
        }
    }
}

/// The view of a sequence of emitted opportunities.
pub open spec fn opps_view(v: Seq<Opportunity>) -> Seq<OpportunityModel> {
    v.map_values(|o: Opportunity| o.model_spec())
}

/// Whether a fingerprint is already recorded.
pub open spec fn fp_contains(fps: Seq<Seq<AccountId>>, fp: Seq<AccountId>) -> bool {
    exists|k: int| 0 <= k < fps.len() && fps[k] == fp
}

/// The set of fingerprints of cycles already reported, threaded by the
/// caller through repeated searches within one run.  It is never
/// persisted beyond the run.
pub struct FingerprintSet {
    pub fingerprints: Vec<Vec<AccountId>>,
}

/// Compares two identifier lists.
fn account_ids_eq(a: &Vec<AccountId>, b: &Vec<AccountId>) -> (r: bool)
    ensures
        r == (a@ == b@),
{
    if a.len() != b.len() {
        return false;
    }
    let mut i: usize = 0;
    while i < a.len()
        invariant
            i <= a@.len(),
            a@.len() == b@.len(),
            forall|k: int| 0 <= k < i ==> a@[k] == b@[k],
        decreases a@.len() - i,
    {
        if a[i] != b[i] {
            return false;
        }
        i += 1;
    }
    proof {
        assert(a@ =~= b@);
    }
    true
}

impl FingerprintSet {
    /// The recorded fingerprints, as values.
    pub open spec fn view_spec(self) -> Seq<Seq<AccountId>> {
        self.fingerprints@.map_values(|f: Vec<AccountId>| f@)
    }

    /// An empty record.
    pub fn new() -> (r: FingerprintSet)
        ensures
            r.view_spec() =~= Seq::<Seq<AccountId>>::empty(),
    {
        FingerprintSet { fingerprints: Vec::new() }
    }

    /// Whether a fingerprint is already recorded.
    pub fn contains(&self, fp: &Vec<AccountId>) -> (r: bool)
        ensures
            r == fp_contains(self.view_spec(), fp@),
    {
        let mut i: usize = 0;
        while i < self.fingerprints.len()
            invariant
                i <= self.fingerprints@.len(),
                forall|k: int| 0 <= k < i ==> self.view_spec()[k] != fp@,
            decreases self.fingerprints@.len() - i,
        {
            if account_ids_eq(&self.fingerprints[i], fp) {
                proof {
                    assert(self.view_spec()[i as int] == fp@);
                }
                return true;
            }
            i += 1;
        }
        false
    }

    /// Records a fingerprint.
    pub fn insert(&mut self, fp: Vec<AccountId>)
        ensures
            final(self).view_spec() =~= old(self).view_spec().push(fp@),
    {
        self.fingerprints.push(fp);
        proof {
            assert(final(self).view_spec() =~= old(self).view_spec().push(fp@));
        }
    }
}

/// Copies a vector of plain values.
fn copy_vec<T: Copy>(v: &Vec<T>) -> (r: Vec<T>)
    ensures
        r@ == v@,
{
    let mut r: Vec<T> = Vec::new();
    let mut i: usize = 0;
    while i < v.len()
        invariant
            i <= v@.len(),
            r@ == v@.subrange(0, i as int),
        decreases v@.len() - i,
    {
        r.push(v[i]);
        proof {
            assert(r@ =~= v@.subrange(0, i as int + 1));
        }
        i += 1;
    }
    proof {
        assert(r@ =~= v@);
    }
    r
}

/// One immutable search snapshot: the dense token space, the venue
/// graph over it, and the venues the graph's handles point into.  A
/// state refresh builds a new snapshot; a search never observes a
/// half-updated venue.
pub struct Arbitrager {
    /// The dense token space: mint of each token index.
    pub token_mints: Vec<AccountId>,
    /// Adjacency between token indices, holding venue handles.
    pub graph: PoolGraph,
    /// The venues, owned once; graph handles are slots in this list.
    pub pools: Vec<Pool>,
}

/// How many hops may still be appended under the hop bound.
pub open spec fn hops_left(hop_bound: usize, hops_used: nat) -> nat {
    if hops_used >= hop_bound {
        0
    } else {
        (hop_bound - hops_used) as nat
    }
}

impl Arbitrager {
    /// A usable snapshot: every handle in the graph points into the
    /// venue list, and every venue is structurally sound.
    pub open spec fn wf(self) -> bool {
        &&& graph_in_bounds(self.graph, self.pools@.len() as int)
        &&& forall|k: int| 0 <= k < self.pools@.len() ==> (#[trigger] self.pools@[k]).wf()
    }

    /// The search step for one venue on the edge `(cur, j)`, followed by
    /// the remaining venues of that edge.  The venue is skipped when its
    /// identifier is already on the path, when it is not live, or when
    /// its quote fails; a neighbour equal to the start token closes the
    /// cycle (profitably and freshly, or not at all); any other
    /// neighbour is recursed into while the hop bound allows.
    pub open spec fn dfs_venues_spec(
        arb: Arbitrager,
        start: usize,
        notional: u128,
        hop_bound: usize,
        cur: usize,
        amount: u128,
        toks: Seq<usize>,
        ids: Seq<AccountId>,
        amts: Seq<u128>,
        j: usize,
        v: int,
        found: Seq<OpportunityModel>,
        seen: Seq<Seq<AccountId>>,
    ) -> (Seq<OpportunityModel>, Seq<Seq<AccountId>>)
        decreases
            hops_left(hop_bound, ids.len()),
            0int,
            arb.token_mints.len() - j,
            0int,
            edge_quotes(arb.graph, cur as int, j as int).len() - v,
    {
        let quotes = edge_quotes(arb.graph, cur as int, j as int);
        if v < 0 || v >= quotes.len() {
            (found, seen)
        } else {
            let q = quotes[v];
            let pool = arb.pools@[q.0 as int];
            let vid = pool.address_spec();
            let mint_cur = arb.token_mints@[cur as int];
            let mint_j = arb.token_mints@[j as int];
            let step = if ids.contains(vid) {
                (found, seen)
            } else if !pool.can_trade_spec(mint_cur, mint_j) {
                (found, seen)
            } else {
                match pool.quote_spec(amount as int, mint_cur, mint_j) {
                    Err(_) => (found, seen),
                    Ok(o) => {
                        let out_amt = o as u128;
                        if j == start {
                            if ids.len() >= 1 && out_amt > notional && !fp_contains(
                                seen,
                                ids.push(vid),
                            ) {
                                (
                                    found.push(
                                        OpportunityModel {
                                            path_tokens: toks.push(start),
                                            venue_ids: ids.push(vid),
                                            amounts: amts.push(out_amt),
                                            original_notional: notional,
                                            final_amount: out_amt,
                                            profit: (out_amt - notional) as u128,
                                        },
                                    ),
                                    seen.push(ids.push(vid)),
                                )
                            } else {
                                (found, seen)
                            }
                        } else if ids.len() + 1 < hop_bound {
                            Self::dfs_node_spec(
                                arb,
                                start,
                                notional,
                                hop_bound,
                                j,
                                out_amt,
                                toks.push(j),
                                ids.push(vid),
                                amts.push(out_amt),
                                found,
                                seen,
                            )
                        } else {
                            (found, seen)
                        }
                    },
                }
            };
            Self::dfs_venues_spec(
                arb,
                start,
                notional,
                hop_bound,
                cur,
                amount,
                toks,
                ids,
                amts,
                j,
                v + 1,
                step.0,
                step.1,
            )
        }
    }

    /// The search over every neighbour token from `j` upward.
    pub open spec fn dfs_neigh_spec(
        arb: Arbitrager,
        start: usize,
        notional: u128,
        hop_bound: usize,
        cur: usize,
        amount: u128,
        toks: Seq<usize>,
        ids: Seq<AccountId>,
        amts: Seq<u128>,
        j: int,
        found: Seq<OpportunityModel>,
        seen: Seq<Seq<AccountId>>,
    ) -> (Seq<OpportunityModel>, Seq<Seq<AccountId>>)
        decreases
            hops_left(hop_bound, ids.len()),
            0int,
            arb.token_mints.len() - j + 1,
            1int,
            0int,
    {
        if j < 0 || j >= arb.token_mints.len() {
            (found, seen)
        } else {
            let step = Self::dfs_venues_spec(
                arb,
                start,
                notional,
                hop_bound,
                cur,
                amount,
                toks,
                ids,
                amts,
                j as usize,
                0,
                found,
                seen,
            );
            Self::dfs_neigh_spec(
                arb,
                start,
                notional,
                hop_bound,
                cur,
                amount,
                toks,
                ids,
                amts,
                j + 1,
                step.0,
                step.1,
            )
        }
    }

    /// The search from one node: all neighbours, all venues, all
    /// branches; no early termination.
    pub open spec fn dfs_node_spec(
        arb: Arbitrager,
        start: usize,
        notional: u128,
        hop_bound: usize,
        cur: usize,
        amount: u128,
        toks: Seq<usize>,
        ids: Seq<AccountId>,
        amts: Seq<u128>,
        found: Seq<OpportunityModel>,
        seen: Seq<Seq<AccountId>>,
    ) -> (Seq<OpportunityModel>, Seq<Seq<AccountId>>)
        decreases hops_left(hop_bound, ids.len()), 1int, 0int, 0int, 0int,
    {
        Self::dfs_neigh_spec(
            arb,
            start,
            notional,
            hop_bound,
            cur,
            amount,
            toks,
            ids,
            amts,
            0,
            found,
            seen,
        )
    }

    /// The whole search as a function of the snapshot and its inputs:
    /// what one call emits, and what the fingerprint set becomes.
    pub open spec fn search_spec(
        arb: Arbitrager,
        start: usize,
        notional: u128,
        hop_bound: usize,
        seen: Seq<Seq<AccountId>>,
    ) -> (Seq<OpportunityModel>, Seq<Seq<AccountId>>) {
        Self::dfs_node_spec(
            arb,
            start,
            notional,
            hop_bound,
            start,
            notional,
            seq![start],
            Seq::empty(),
            seq![notional],
            Seq::empty(),
            seen,
        )
    }
}

/// Whether an identifier occurs in a path.
fn contains_account(v: &Vec<AccountId>, x: &AccountId) -> (r: bool)
    ensures
        r == v@.contains(*x),
{
    let mut i: usize = 0;
    while i < v.len()
        invariant
            i <= v@.len(),
            forall|k: int| 0 <= k < i ==> v@[k] != *x,
        decreases v@.len() - i,
    {
        if v[i] == *x {
            assert(v@[i as int] == *x);
            return true;
        }
        i += 1;
    }
    proof {
        assert(!v@.contains(*x));
    }
    false
}

impl Arbitrager {
    /// The executable traversal from one node, mirroring
    /// `dfs_node_spec` exactly: emitted opportunities are appended to
    /// `found` and newly recorded fingerprints to `sent_arbs`.
    fn search_node(
        &self,
        start_mint_idx: usize,
        init_balance: u128,
        hop_bound: usize,
        cur: usize,
        amount: u128,
        path_tokens: &Vec<usize>,
        path_ids: &Vec<AccountId>,
        path_amounts: &Vec<u128>,
        sent_arbs: &mut FingerprintSet,
        found: &mut Vec<Opportunity>,
    )
        requires
            self.wf(),
            start_mint_idx < self.token_mints@.len(),
            cur < self.token_mints@.len(),
        ensures
            ({
                let stepped = Self::dfs_node_spec(
                    *self,
                    start_mint_idx,
                    init_balance,
                    hop_bound,
                    cur,
                    amount,
                    path_tokens@,
                    path_ids@,
                    path_amounts@,
                    opps_view(old(found)@),
                    old(sent_arbs).view_spec(),
                );
                opps_view(final(found)@) == stepped.0 && final(sent_arbs).view_spec() == stepped.1
            }),
        decreases hops_left(hop_bound, path_ids@.len()),
    {
        let ghost arb = *self;
        let ghost f0 = opps_view(found@);
        let ghost s0 = sent_arbs.view_spec();
        let ghost goal = Self::dfs_node_spec(
            arb,
            start_mint_idx,
            init_balance,
            hop_bound,
            cur,
            amount,
            path_tokens@,
            path_ids@,
            path_amounts@,
            f0,
            s0,
        );
        let n = self.token_mints.len();
        let mut j: usize = 0;
        while j < n
            invariant
                self.wf(),
                arb == *self,
                n == self.token_mints@.len(),
                start_mint_idx < n,
                cur < n,
                j <= n,
                goal == Self::dfs_neigh_spec(
                    arb,
                    start_mint_idx,
                    init_balance,
                    hop_bound,
                    cur,
                    amount,
                    path_tokens@,
                    path_ids@,
                    path_amounts@,
                    j as int,
                    opps_view(found@),
                    sent_arbs.view_spec(),
                ),
            decreases n - j,
        {
            let ghost fj = opps_view(found@);
            let ghost sj = sent_arbs.view_spec();
            let quotes_len = if cur < self.graph.0.len() {
                let e = &self.graph.0[cur];
                if j < e.0.len() {
                    e.0[j].len()
                } else {
                    0
                }
            } else {
                0
            };
            proof {
                assert(quotes_len == edge_quotes(arb.graph, cur as int, j as int).len());
            }
            let mut v: usize = 0;
            while v < quotes_len
                invariant
                    self.wf(),
                    arb == *self,
                    n == self.token_mints@.len(),
                    start_mint_idx < n,
                    cur < n,
                    j < n,
                    v <= quotes_len,
                    quotes_len == edge_quotes(arb.graph, cur as int, j as int).len(),
                    Self::dfs_venues_spec(
                        arb,
                        start_mint_idx,
                        init_balance,
                        hop_bound,
                        cur,
                        amount,
                        path_tokens@,
                        path_ids@,
                        path_amounts@,
                        j,
                        v as int,
                        opps_view(found@),
                        sent_arbs.view_spec(),
                    ) == Self::dfs_venues_spec(
                        arb,
                        start_mint_idx,
                        init_balance,
                        hop_bound,
                        cur,
                        amount,
                        path_tokens@,
                        path_ids@,
                        path_amounts@,
                        j,
                        0,
                        fj,
                        sj,
                    ),
                decreases quotes_len - v,
            {
                let ghost fv = opps_view(found@);
                let ghost sv = sent_arbs.view_spec();
                let q = self.graph.0[cur].0[j][v];
                proof {
                    assert(q == edge_quotes(arb.graph, cur as int, j as int)[v as int]);
                    assert(edge_quotes(arb.graph, cur as int, j as int)[v as int].0
                        < self.pools@.len());
                }
                let pool = &self.pools[q.0];
                let vid = pool.address();
                let used = contains_account(path_ids, &vid);
                if !used {
                    let mint_cur = self.token_mints[cur];
                    let mint_j = self.token_mints[j];
                    let tradable = pool.can_trade(&mint_cur, &mint_j);
                    if tradable {
                        match pool.get_quote_with_amounts_scaled(amount, &mint_cur, &mint_j) {
                            Err(_) => {},
                            Ok(out_amt) => {
                                if j == start_mint_idx {
                                    if path_ids.len() >= 1 && out_amt > init_balance {
                                        let mut fp = copy_vec(path_ids);
                                        fp.push(vid);
                                        if !sent_arbs.contains(&fp) {
                                            let mut opp_toks = copy_vec(path_tokens);
                                            opp_toks.push(start_mint_idx);
                                            let mut opp_amts = copy_vec(path_amounts);
                                            opp_amts.push(out_amt);
                                            let fp_for_set = copy_vec(&fp);
                                            let opp = Opportunity {
                                                path_tokens: opp_toks,
                                                venue_ids: fp,
                                                amounts: opp_amts,
                                                original_notional: init_balance,
                                                final_amount: out_amt,
                                                profit: out_amt - init_balance,
                                            };
                                            found.push(opp);
                                            sent_arbs.insert(fp_for_set);
                                            proof {
                                                assert(opps_view(found@) =~= fv.push(
                                                    opp.model_spec(),
                                                ));
                                            }
                                        }
                                    }
                                } else {
                                    if hop_bound >= 2 && path_ids.len() < hop_bound - 1 {
                                        let mut toks2 = copy_vec(path_tokens);
                                        toks2.push(j);
                                        let mut ids2 = copy_vec(path_ids);
                                        ids2.push(vid);
                                        let mut amts2 = copy_vec(path_amounts);
                                        amts2.push(out_amt);
                                        self.search_node(
                                            start_mint_idx,
                                            init_balance,
                                            hop_bound,
                                            j,
                                            out_amt,
                                            &toks2,
                                            &ids2,
                                            &amts2,
                                            sent_arbs,
                                            found,
                                        );
                                    }
                                }
                            },
                        }
                    }
                }
                proof {
                    let stepped = Self::dfs_venues_spec(
                        arb,
                        start_mint_idx,
                        init_balance,
                        hop_bound,
                        cur,
                        amount,
                        path_tokens@,
                        path_ids@,
                        path_amounts@,
                        j,
                        v as int,
                        fv,
                        sv,
                    );
                    assert(stepped == Self::dfs_venues_spec(
                        arb,
                        start_mint_idx,
                        init_balance,
                        hop_bound,
                        cur,
                        amount,
                        path_tokens@,
                        path_ids@,
                        path_amounts@,
                        j,
                        v as int + 1,
                        opps_view(found@),
                        sent_arbs.view_spec(),
                    ));
                }
                v += 1;
            }
            proof {
                assert(Self::dfs_venues_spec(
                    arb,
                    start_mint_idx,
                    init_balance,
                    hop_bound,
                    cur,
                    amount,
                    path_tokens@,
                    path_ids@,
                    path_amounts@,
                    j,
                    quotes_len as int,
                    opps_view(found@),
                    sent_arbs.view_spec(),
                ) == (opps_view(found@), sent_arbs.view_spec()));
                assert(Self::dfs_neigh_spec(
                    arb,
                    start_mint_idx,
                    init_balance,
                    hop_bound,
                    cur,
                    amount,
                    path_tokens@,
                    path_ids@,
                    path_amounts@,
                    j as int,
                    fj,
                    sj,
                ) == Self::dfs_neigh_spec(
                    arb,
                    start_mint_idx,
                    init_balance,
                    hop_bound,
                    cur,
                    amount,
                    path_tokens@,
                    path_ids@,
                    path_amounts@,
                    j as int + 1,
                    opps_view(found@),
                    sent_arbs.view_spec(),
                ));
            }
            j += 1;
        }
    }

    /// Searches the snapshot for profitable cycles from the start
    /// token: a depth-first traversal that re-quotes the carried amount
    /// at every hop, closes cycles back at the start token, and emits
    /// every profitable, not-yet-recorded cycle found in this call.
    /// Per-hop fees are embedded in each venue's quote, so the profit
    /// comparison at cycle closure is a single subtraction against the
    /// committed notional.  The traversal explores all branches; the
    /// caller picks among the returned opportunities.
    ///
    /// The result and the updated fingerprint set are exactly
    /// `search_spec` of the snapshot and the inputs: the search is a
    /// pure function, and two runs from equal snapshots, inputs and
    /// fingerprint sets emit equal opportunity lists.
    pub fn brute_force_search(
        &self,
        start_mint_idx: usize,
        init_balance: u128,
        hop_bound: usize,
        sent_arbs: &mut FingerprintSet,
    ) -> (r: Vec<Opportunity>)
        requires
            self.wf(),
            start_mint_idx < self.token_mints@.len(),
        ensures
            opps_view(r@) == Self::search_spec(
                *self,
                start_mint_idx,
                init_balance,
                hop_bound,
                old(sent_arbs).view_spec(),
            ).0,
            final(sent_arbs).view_spec() == Self::search_spec(
                *self,
                start_mint_idx,
                init_balance,
                hop_bound,
                old(sent_arbs).view_spec(),
            ).1,
    {
        let mut found: Vec<Opportunity> = Vec::new();
        let mut path_tokens: Vec<usize> = Vec::new();
        path_tokens.push(start_mint_idx);
        let path_ids: Vec<AccountId> = Vec::new();
        let mut path_amounts: Vec<u128> = Vec::new();
        path_amounts.push(init_balance);
        proof {
            assert(path_tokens@ =~= seq![start_mint_idx]);
            assert(path_amounts@ =~= seq![init_balance]);
            assert(path_ids@ =~= Seq::<AccountId>::empty());
            assert(opps_view(found@) =~= Seq::<OpportunityModel>::empty());
        }
        self.search_node(
            start_mint_idx,
            init_balance,
            hop_bound,
            start_mint_idx,
            init_balance,
            &path_tokens,
            &path_ids,
            &path_amounts,
            sent_arbs,
            &mut found,
        );
        found
    }
}

/// Every hop of a path is backed by the snapshot: a venue with the
/// hop's identifier was live for the hop's direction, and quoting the
/// amount carried into the hop through it returns exactly the amount
/// carried out.  The execution layer can rebuild the swap sequence from
/// this alone.
pub open spec fn hops_valid(
    arb: Arbitrager,
    toks: Seq<usize>,
    ids: Seq<AccountId>,
    amts: Seq<u128>,
) -> bool {
    forall|h: int|
        #![trigger ids[h]]
        0 <= h < ids.len() ==> exists|k: int|
            {
                &&& 0 <= k < arb.pools@.len()
                &&& (#[trigger] arb.pools@[k]).address_spec() == ids[h]
                &&& arb.pools@[k].can_trade_spec(
                    arb.token_mints@[toks[h] as int],
                    arb.token_mints@[toks[h + 1] as int],
                )
                &&& arb.pools@[k].quote_spec(
                    amts[h] as int,
                    arb.token_mints@[toks[h] as int],
                    arb.token_mints@[toks[h + 1] as int],
                ) == Ok::<int, PoolError>(amts[h + 1] as int)
            }
}

/// What the search promises of every opportunity it emits: a closed
/// cycle of at least two and at most `hop_bound` hops, starting and
/// ending at the start token, carrying the committed notional, gaining
/// strictly, and backed for every hop by a live venue whose quote
/// carries the recorded amounts.
pub open spec fn emitted_ok(
    arb: Arbitrager,
    start: usize,
    notional: u128,
    hop_bound: usize,
    o: OpportunityModel,
) -> bool {
    &&& o.venue_ids.len() >= 2
    &&& o.venue_ids.len() <= hop_bound
    &&& o.path_tokens.len() == o.venue_ids.len() + 1
    &&& o.amounts.len() == o.path_tokens.len()
    &&& o.path_tokens[0] == start
    &&& o.path_tokens[o.path_tokens.len() - 1] == start
    &&& forall|t: int| 0 <= t < o.path_tokens.len() ==> (#[trigger] o.path_tokens[t])
        < arb.token_mints@.len()
    &&& o.original_notional == notional
    &&& o.amounts[0] == notional
    &&& o.final_amount == o.amounts[o.amounts.len() - 1]
    &&& o.final_amount > o.original_notional
    &&& o.profit == o.final_amount - o.original_notional
    &&& hops_valid(arb, o.path_tokens, o.venue_ids, o.amounts)
}

/// How one search call may extend its accumulator: everything already
/// there is kept; each new opportunity is a sound emission, its
/// fingerprint is recorded at the matching position of the fingerprint
/// record, and was not yet recorded when its cycle closed.
pub open spec fn emissions_ok(
    arb: Arbitrager,
    start: usize,
    notional: u128,
    hop_bound: usize,
    found: Seq<OpportunityModel>,
    seen: Seq<Seq<AccountId>>,
    f2: Seq<OpportunityModel>,
    s2: Seq<Seq<AccountId>>,
) -> bool {
    &&& f2.len() >= found.len()
    &&& forall|i: int| 0 <= i < found.len() ==> f2[i] == found[i]
    &&& s2.len() - seen.len() == f2.len() - found.len()
    &&& forall|i: int| 0 <= i < seen.len() ==> s2[i] == seen[i]
    &&& forall|i: int|
        found.len() <= i < f2.len() ==> emitted_ok(arb, start, notional, hop_bound, #[trigger] f2[i])
    &&& forall|i: int|
        found.len() <= i < f2.len() ==> s2[seen.len() + i - found.len()] == (#[trigger] f2[i]).venue_ids
    &&& forall|i: int|
        found.len() <= i < f2.len() ==> !fp_contains(
            s2.take(seen.len() + i - found.len()),
            (#[trigger] f2[i]).venue_ids,
        )
}

/// Extending an accumulator soundly twice extends it soundly.
proof fn lemma_emissions_ok_trans(
    arb: Arbitrager,
    start: usize,
    notional: u128,
    hop_bound: usize,
    found: Seq<OpportunityModel>,
    seen: Seq<Seq<AccountId>>,
    fm: Seq<OpportunityModel>,
    sm: Seq<Seq<AccountId>>,
    f2: Seq<OpportunityModel>,
    s2: Seq<Seq<AccountId>>,
)
    requires
        emissions_ok(arb, start, notional, hop_bound, found, seen, fm, sm),
        emissions_ok(arb, start, notional, hop_bound, fm, sm, f2, s2),
    ensures
        emissions_ok(arb, start, notional, hop_bound, found, seen, f2, s2),
{
    assert forall|i: int| found.len() <= i < f2.len() implies s2[seen.len() + i - found.len()] == (
    #[trigger] f2[i]).venue_ids by {
        if i < fm.len() {
            assert(f2[i] == fm[i]);
            assert(sm[seen.len() + i - found.len()] == fm[i].venue_ids);
            assert(s2[seen.len() + i - found.len()] == sm[seen.len() + i - found.len()]);
        } else {
            assert(s2[sm.len() + i - fm.len()] == f2[i].venue_ids);
            assert(sm.len() + i - fm.len() == seen.len() + i - found.len());
        }
    }
    assert forall|i: int| found.len() <= i < f2.len() implies !fp_contains(
        s2.take(seen.len() + i - found.len()),
        (#[trigger] f2[i]).venue_ids,
    ) by {
        if i < fm.len() {
            assert(f2[i] == fm[i]);
            assert(!fp_contains(sm.take(seen.len() + i - found.len()), fm[i].venue_ids));
            assert(s2.take(seen.len() + i - found.len()) =~= sm.take(
                seen.len() + i - found.len(),
            ));
        } else {
            assert(!fp_contains(s2.take(sm.len() + i - fm.len()), f2[i].venue_ids));
            assert(sm.len() + i - fm.len() == seen.len() + i - found.len());
        }
    }
    assert forall|i: int| found.len() <= i < f2.len() implies emitted_ok(
        arb,
        start,
        notional,
        hop_bound,
        #[trigger] f2[i],
    ) by {
        if i < fm.len() {
            assert(f2[i] == fm[i]);
        }
    }
}

impl Arbitrager {
    /// The venue loop of the search only extends its accumulator
    /// soundly.
    proof fn lemma_dfs_venues_emissions(
        arb: Arbitrager,
        start: usize,
        notional: u128,
        hop_bound: usize,
        cur: usize,
        amount: u128,
        toks: Seq<usize>,
        ids: Seq<AccountId>,
        amts: Seq<u128>,
        j: usize,
        v: int,
        found: Seq<OpportunityModel>,
        seen: Seq<Seq<AccountId>>,
    )
        requires
            arb.wf(),
            start < arb.token_mints@.len(),
            cur < arb.token_mints@.len(),
            (j as int) < arb.token_mints@.len(),
            toks.len() == ids.len() + 1,
            amts.len() == toks.len(),
            toks[0] == start,
            toks[toks.len() - 1] == cur,
            amts[0] == notional,
            amts[amts.len() - 1] == amount,
            forall|t: int| 0 <= t < toks.len() ==> (#[trigger] toks[t]) < arb.token_mints@.len(),
            hops_valid(arb, toks, ids, amts),
            ids.len() == 0 || ids.len() + 1 <= hop_bound,
        ensures
            ({
                let (f2, s2) = Self::dfs_venues_spec(
                    arb,
                    start,
                    notional,
                    hop_bound,
                    cur,
                    amount,
                    toks,
                    ids,
                    amts,
                    j,
                    v,
                    found,
                    seen,
                );
                emissions_ok(arb, start, notional, hop_bound, found, seen, f2, s2)
            }),
        decreases
            hops_left(hop_bound, ids.len()),
            0int,
            arb.token_mints.len() - j,
            0int,
            edge_quotes(arb.graph, cur as int, j as int).len() - v,
    {
        let quotes = edge_quotes(arb.graph, cur as int, j as int);
        if v < 0 || v >= quotes.len() {
        } else {
            let q = quotes[v];
            assert(0 <= q.0 < arb.pools@.len());
            let pool = arb.pools@[q.0 as int];
            let vid = pool.address_spec();
            let mint_cur = arb.token_mints@[cur as int];
            let mint_j = arb.token_mints@[j as int];
            let stepped = if ids.contains(vid) {
                (found, seen)
            } else if !pool.can_trade_spec(mint_cur, mint_j) {
                (found, seen)
            } else {
                match pool.quote_spec(amount as int, mint_cur, mint_j) {
                    Err(_) => (found, seen),
                    Ok(o) => {
                        let out_amt = o as u128;
                        if j == start {
                            if ids.len() >= 1 && out_amt > notional && !fp_contains(
                                seen,
                                ids.push(vid),
                            ) {
                                let opp = OpportunityModel {
                                    path_tokens: toks.push(start),
                                    venue_ids: ids.push(vid),
                                    amounts: amts.push(out_amt),
                                    original_notional: notional,
                                    final_amount: out_amt,
                                    profit: (out_amt - notional) as u128,
                                };
                                crate::pool::lemma_quote_ok_range(pool, amount, mint_cur, mint_j, o);
                                assert(out_amt == o);
                                assert(emitted_ok(arb, start, notional, hop_bound, opp)) by {
                                    assert(opp.path_tokens[opp.path_tokens.len() - 1] == start);
                                    assert(opp.amounts[0] == amts[0]);
                                    assert(hops_valid(
                                        arb,
                                        opp.path_tokens,
                                        opp.venue_ids,
                                        opp.amounts,
                                    )) by {
                                        assert forall|h: int|
                                            #![trigger opp.venue_ids[h]]
                                            0 <= h < opp.venue_ids.len() implies exists|k: int|
                                            {
                                                &&& 0 <= k < arb.pools@.len()
                                                &&& (#[trigger] arb.pools@[k]).address_spec()
                                                    == opp.venue_ids[h]
                                                &&& arb.pools@[k].can_trade_spec(
                                                    arb.token_mints@[opp.path_tokens[h] as int],
                                                    arb.token_mints@[opp.path_tokens[h + 1] as int],
                                                )
                                                &&& arb.pools@[k].quote_spec(
                                                    opp.amounts[h] as int,
                                                    arb.token_mints@[opp.path_tokens[h] as int],
                                                    arb.token_mints@[opp.path_tokens[h + 1] as int],
                                                ) == Ok::<int, PoolError>(
                                                    opp.amounts[h + 1] as int,
                                                )
                                            } by {
                                            if h < ids.len() {
                                                assert(opp.venue_ids[h] == ids[h]);
                                                assert(opp.path_tokens[h] == toks[h]);
                                                assert(opp.path_tokens[h + 1] == toks[h + 1]);
                                                assert(opp.amounts[h] == amts[h]);
                                                assert(opp.amounts[h + 1] == amts[h + 1]);
                                                let k = choose|k: int|
                                                    {
                                                        &&& 0 <= k < arb.pools@.len()
                                                        &&& (#[trigger] arb.pools@[k]).address_spec()
                                                            == ids[h]
                                                        &&& arb.pools@[k].can_trade_spec(
                                                            arb.token_mints@[toks[h] as int],
                                                            arb.token_mints@[toks[h + 1] as int],
                                                        )
                                                        &&& arb.pools@[k].quote_spec(
                                                            amts[h] as int,
                                                            arb.token_mints@[toks[h] as int],
                                                            arb.token_mints@[toks[h + 1] as int],
                                                        ) == Ok::<int, PoolError>(
                                                            amts[h + 1] as int,
                                                        )
                                                    };
                                                assert(arb.pools@[k].address_spec()
                                                    == opp.venue_ids[h]);
                                            } else {
                                                assert(h == ids.len());
                                                assert(opp.venue_ids[h] == vid);
                                                assert(opp.path_tokens[h] == toks[toks.len() - 1]);
                                                assert(opp.path_tokens[h + 1] == start);
                                                assert(opp.amounts[h] == amount);
                                                assert(opp.amounts[h + 1] == out_amt);
                                                assert(arb.pools@[q.0 as int].address_spec() == vid);
                                                assert(arb.pools@[q.0 as int].can_trade_spec(
                                                    arb.token_mints@[opp.path_tokens[h] as int],
                                                    arb.token_mints@[opp.path_tokens[h + 1] as int],
                                                ));
                                                assert(arb.pools@[q.0 as int].quote_spec(
                                                    opp.amounts[h] as int,
                                                    arb.token_mints@[opp.path_tokens[h] as int],
                                                    arb.token_mints@[opp.path_tokens[h + 1] as int],
                                                ) == Ok::<int, PoolError>(
                                                    opp.amounts[h + 1] as int,
                                                ));
                                            }
                                        }
                                    }
                                }
                                assert(emissions_ok(
                                    arb,
                                    start,
                                    notional,
                                    hop_bound,
                                    found,
                                    seen,
                                    found.push(opp),
                                    seen.push(ids.push(vid)),
                                )) by {
                                    assert(seen.push(ids.push(vid)).take(seen.len() as int)
                                        =~= seen);
                                }
                                (found.push(opp), seen.push(ids.push(vid)))
                            } else {
                                (found, seen)
                            }
                        } else if ids.len() + 1 < hop_bound {
                            crate::pool::lemma_quote_ok_range(pool, amount, mint_cur, mint_j, o);
                            Self::lemma_dfs_node_emissions(
                                arb,
                                start,
                                notional,
                                hop_bound,
                                j,
                                out_amt,
                                toks.push(j),
                                ids.push(vid),
                                amts.push(out_amt),
                                found,
                                seen,
                            );
                            Self::dfs_node_spec(
                                arb,
                                start,
                                notional,
                                hop_bound,
                                j,
                                out_amt,
                                toks.push(j),
                                ids.push(vid),
                                amts.push(out_amt),
                                found,
                                seen,
                            )
                        } else {
                            (found, seen)
                        }
                    },
                }
            };
            Self::lemma_dfs_venues_emissions(
                arb,
                start,
                notional,
                hop_bound,
                cur,
                amount,
                toks,
                ids,
                amts,
                j,
                v + 1,
                stepped.0,
                stepped.1,
            );
            lemma_emissions_ok_trans(
                arb,
                start,
                notional,
                hop_bound,
                found,
                seen,
                stepped.0,
                stepped.1,
                Self::dfs_venues_spec(
                    arb,
                    start,
                    notional,
                    hop_bound,
                    cur,
                    amount,
                    toks,
                    ids,
                    amts,
                    j,
                    v + 1,
                    stepped.0,
                    stepped.1,
                ).0,
                Self::dfs_venues_spec(
                    arb,
                    start,
                    notional,
                    hop_bound,
                    cur,
                    amount,
                    toks,
                    ids,
                    amts,
                    j,
                    v + 1,
                    stepped.0,
                    stepped.1,
                ).1,
            );
        }
    }

    /// The neighbour loop of the search only extends its accumulator
    /// soundly.
    proof fn lemma_dfs_neigh_emissions(
        arb: Arbitrager,
        start: usize,
        notional: u128,
        hop_bound: usize,
        cur: usize,
        amount: u128,
        toks: Seq<usize>,
        ids: Seq<AccountId>,
        amts: Seq<u128>,
        j: int,
        found: Seq<OpportunityModel>,
        seen: Seq<Seq<AccountId>>,
    )
        requires
            arb.wf(),
            start < arb.token_mints@.len(),
            cur < arb.token_mints@.len(),
            toks.len() == ids.len() + 1,
            amts.len() == toks.len(),
            toks[0] == start,
            toks[toks.len() - 1] == cur,
            amts[0] == notional,
            amts[amts.len() - 1] == amount,
            forall|t: int| 0 <= t < toks.len() ==> (#[trigger] toks[t]) < arb.token_mints@.len(),
            hops_valid(arb, toks, ids, amts),
            ids.len() == 0 || ids.len() + 1 <= hop_bound,
        ensures
            ({
                let (f2, s2) = Self::dfs_neigh_spec(
                    arb,
                    start,
                    notional,
                    hop_bound,
                    cur,
                    amount,
                    toks,
                    ids,
                    amts,
                    j,
                    found,
                    seen,
                );
                emissions_ok(arb, start, notional, hop_bound, found, seen, f2, s2)
            }),
        decreases
            hops_left(hop_bound, ids.len()),
            0int,
            arb.token_mints.len() - j + 1,
            1int,
            0int,
    {
        if j < 0 || j >= arb.token_mints.len() {
        } else {
            Self::lemma_dfs_venues_emissions(
                arb,
                start,
                notional,
                hop_bound,
                cur,
                amount,
                toks,
                ids,
                amts,
                j as usize,
                0,
                found,
                seen,
            );
            let stepped = Self::dfs_venues_spec(
                arb,
                start,
                notional,
                hop_bound,
                cur,
                amount,
                toks,
                ids,
                amts,
                j as usize,
                0,
                found,
                seen,
            );
            Self::lemma_dfs_neigh_emissions(
                arb,
                start,
                notional,
                hop_bound,
                cur,
                amount,
                toks,
                ids,
                amts,
                j + 1,
                stepped.0,
                stepped.1,
            );
            let done = Self::dfs_neigh_spec(
                arb,
                start,
                notional,
                hop_bound,
                cur,
                amount,
                toks,
                ids,
                amts,
                j + 1,
                stepped.0,
                stepped.1,
            );
            lemma_emissions_ok_trans(
                arb,
                start,
                notional,
                hop_bound,
                found,
                seen,
                stepped.0,
                stepped.1,
                done.0,
                done.1,
            );
        }
    }

    /// One node of the search only extends its accumulator soundly.
    proof fn lemma_dfs_node_emissions(
        arb: Arbitrager,
        start: usize,
        notional: u128,
        hop_bound: usize,
        cur: usize,
        amount: u128,
        toks: Seq<usize>,
        ids: Seq<AccountId>,
        amts: Seq<u128>,
        found: Seq<OpportunityModel>,
        seen: Seq<Seq<AccountId>>,
    )
        requires
            arb.wf(),
            start < arb.token_mints@.len(),
            cur < arb.token_mints@.len(),
            toks.len() == ids.len() + 1,
            amts.len() == toks.len(),
            toks[0] == start,
            toks[toks.len() - 1] == cur,
            amts[0] == notional,
            amts[amts.len() - 1] == amount,
            forall|t: int| 0 <= t < toks.len() ==> (#[trigger] toks[t]) < arb.token_mints@.len(),
            hops_valid(arb, toks, ids, amts),
            ids.len() == 0 || ids.len() + 1 <= hop_bound,
        ensures
            ({
                let (f2, s2) = Self::dfs_node_spec(
                    arb,
                    start,
                    notional,
                    hop_bound,
                    cur,
                    amount,
                    toks,
                    ids,
                    amts,
                    found,
                    seen,
                );
                emissions_ok(arb, start, notional, hop_bound, found, seen, f2, s2)
            }),
        decreases hops_left(hop_bound, ids.len()), 1int, 0int, 0int, 0int,
    {
        Self::lemma_dfs_neigh_emissions(
            arb,
            start,
            notional,
            hop_bound,
            cur,
            amount,
            toks,
            ids,
            amts,
            0,
            found,
            seen,
        );
    }

    /// The search is a pure function of the snapshot and its inputs:
    /// two runs over the same snapshot, start token, notional, hop
    /// bound and fingerprint set produce the same opportunities and the
    /// same updated set.
    pub proof fn lemma_search_deterministic(
        arb: Arbitrager,
        start: usize,
        notional: u128,
        hop_bound: usize,
        seen: Seq<Seq<AccountId>>,
        f1: Seq<OpportunityModel>,
        s1: Seq<Seq<AccountId>>,
        f2: Seq<OpportunityModel>,
        s2: Seq<Seq<AccountId>>,
    )
        requires
            (f1, s1) == Self::search_spec(arb, start, notional, hop_bound, seen),
            (f2, s2) == Self::search_spec(arb, start, notional, hop_bound, seen),
        ensures
            f1 == f2,
            s1 == s2,
    {
    }

    /// Every opportunity a search emits is a sound emission: a closed
    /// cycle of two to `hop_bound` hops from the start token back to
    /// it, strictly gaining over the committed notional, and backed at
    /// every hop by a venue of the snapshot that was live for the
    /// direction used — one whose liveness check fails never appears —
    /// and whose quote maps the amount carried in to exactly the amount
    /// recorded as carried out, so the execution layer can rebuild the
    /// swap sequence without re-querying the core.  Moreover its
    /// fingerprint was not yet recorded when the search began, is
    /// recorded afterwards, and no fingerprint is emitted twice.
    pub proof fn lemma_search_emissions_sound(
        arb: Arbitrager,
        start: usize,
        notional: u128,
        hop_bound: usize,
        seen: Seq<Seq<AccountId>>,
    )
        requires
            arb.wf(),
            start < arb.token_mints@.len(),
        ensures
            ({
                let (f2, s2) = Self::search_spec(arb, start, notional, hop_bound, seen);
                &&& forall|i: int|
                    0 <= i < f2.len() ==> emitted_ok(arb, start, notional, hop_bound, #[trigger] f2[i])
                &&& forall|i: int|
                    0 <= i < f2.len() ==> !fp_contains(seen, (#[trigger] f2[i]).venue_ids)
                &&& forall|i: int|
                    0 <= i < f2.len() ==> fp_contains(s2, (#[trigger] f2[i]).venue_ids)
                &&& forall|i1: int, i2: int|
                    0 <= i1 < i2 < f2.len() ==> (#[trigger] f2[i1]).venue_ids != (
                    #[trigger] f2[i2]).venue_ids
                &&& s2.len() == seen.len() + f2.len()
                &&& forall|i: int| 0 <= i < seen.len() ==> s2[i] == seen[i]
            }),
    {
        Self::lemma_dfs_node_emissions(
            arb,
            start,
            notional,
            hop_bound,
            start,
            notional,
            seq![start],
            Seq::empty(),
            seq![notional],
            Seq::empty(),
            seen,
        );
        let (f2, s2) = Self::search_spec(arb, start, notional, hop_bound, seen);
        assert forall|i: int| 0 <= i < f2.len() implies !fp_contains(
            seen,
            (#[trigger] f2[i]).venue_ids,
        ) by {
            assert(!fp_contains(s2.take(seen.len() + i), f2[i].venue_ids));
            if fp_contains(seen, f2[i].venue_ids) {
                let k = choose|k: int| 0 <= k < seen.len() && seen[k] == f2[i].venue_ids;
                assert(s2.take(seen.len() + i)[k] == f2[i].venue_ids);
            }
        }
        assert forall|i: int| 0 <= i < f2.len() implies fp_contains(
            s2,
            (#[trigger] f2[i]).venue_ids,
        ) by {
            assert(s2[seen.len() + i] == f2[i].venue_ids);
        }
        assert forall|i1: int, i2: int| 0 <= i1 < i2 < f2.len() implies (
        #[trigger] f2[i1]).venue_ids != (#[trigger] f2[i2]).venue_ids by {
            assert(s2[seen.len() + i1] == f2[i1].venue_ids);
            assert(!fp_contains(s2.take(seen.len() + i2), f2[i2].venue_ids));
            if f2[i1].venue_ids == f2[i2].venue_ids {
                assert(s2.take(seen.len() + i2)[seen.len() + i1] == f2[i2].venue_ids);
            }
        }
    }

    /// Deduplication across successive searches: carrying the updated
    /// fingerprint set from one search into the next — for instance at
    /// a halved notional — the second search re-emits none of the
    /// cycles the first one recorded, nor anything recorded before
    /// either.
    pub proof fn lemma_search_dedup_across_runs(
        arb: Arbitrager,
        start: usize,
        first_notional: u128,
        second_notional: u128,
        hop_bound: usize,
        seen0: Seq<Seq<AccountId>>,
    )
        requires
            arb.wf(),
            start < arb.token_mints@.len(),
        ensures
            ({
                let (f1, s1) = Self::search_spec(arb, start, first_notional, hop_bound, seen0);
                let (f2, s2) = Self::search_spec(arb, start, second_notional, hop_bound, s1);
                &&& forall|i2: int, i1: int|
                    0 <= i2 < f2.len() && 0 <= i1 < f1.len() ==> (#[trigger] f2[i2]).venue_ids != (
                    #[trigger] f1[i1]).venue_ids
                &&& forall|i2: int|
                    0 <= i2 < f2.len() ==> !fp_contains(seen0, (#[trigger] f2[i2]).venue_ids)
            }),
    {
        let (f1, s1) = Self::search_spec(arb, start, first_notional, hop_bound, seen0);
        let (f2, s2) = Self::search_spec(arb, start, second_notional, hop_bound, s1);
        Self::lemma_search_emissions_sound(arb, start, first_notional, hop_bound, seen0);
        Self::lemma_search_emissions_sound(arb, start, second_notional, hop_bound, s1);
        assert forall|i2: int, i1: int|
            0 <= i2 < f2.len() && 0 <= i1 < f1.len() implies (#[trigger] f2[i2]).venue_ids != (
        #[trigger] f1[i1]).venue_ids by {
            assert(fp_contains(s1, f1[i1].venue_ids));
            assert(!fp_contains(s1, f2[i2].venue_ids));
        }
        assert forall|i2: int| 0 <= i2 < f2.len() implies !fp_contains(
            seen0,
            (#[trigger] f2[i2]).venue_ids,
        ) by {
            assert(!fp_contains(s1, f2[i2].venue_ids));
            if fp_contains(seen0, f2[i2].venue_ids) {
                let k = choose|k: int| 0 <= k < seen0.len() && seen0[k] == f2[i2].venue_ids;
                assert(s1[k] == f2[i2].venue_ids);
            }
        }
    }

    /// A hop bound of one never produces a cycle: the shortest cycle
    /// has two hops, so such a search emits nothing and records
    /// nothing.
    pub proof fn lemma_search_hop_bound_one_finds_nothing(
        arb: Arbitrager,
        start: usize,
        notional: u128,
        hop_bound: usize,
        seen: Seq<Seq<AccountId>>,
    )
        requires
            arb.wf(),
            start < arb.token_mints@.len(),
            hop_bound <= 1,
        ensures
            Self::search_spec(arb, start, notional, hop_bound, seen).0 =~= Seq::<
                OpportunityModel,
            >::empty(),
            Self::search_spec(arb, start, notional, hop_bound, seen).1 =~= seen,
    {
        Self::lemma_search_emissions_sound(arb, start, notional, hop_bound, seen);
        let (f2, s2) = Self::search_spec(arb, start, notional, hop_bound, seen);
        if f2.len() > 0 {
            assert(emitted_ok(arb, start, notional, hop_bound, f2[0]));
            assert(f2[0].venue_ids.len() >= 2 && f2[0].venue_ids.len() <= 1);
        }
    }
}

/// The selection rule among emitted opportunities: an opportunity is
/// preferred when its profit is higher, or equal with a path no longer.
pub open spec fn prefer_spec(a: OpportunityModel, b: OpportunityModel) -> bool {
    a.profit > b.profit || (a.profit == b.profit && a.venue_ids.len() <= b.venue_ids.len())
}

/// Picks the best of the returned opportunities: maximum profit, ties
/// broken by the shortest path.  `None` only for an empty list.
pub fn best_opportunity(opps: &Vec<Opportunity>) -> (r: Option<usize>)
    ensures
        match r {
            Some(i) => i < opps@.len() && forall|k: int|
                0 <= k < opps@.len() ==> prefer_spec(
                    opps@[i as int].model_spec(),
                    (#[trigger] opps@[k]).model_spec(),
                ),
            None => opps@.len() == 0,
        },
{
    if opps.len() == 0 {
        return None;
    }
    let mut best: usize = 0;
    let mut k: usize = 1;
    while k < opps.len()
        invariant
            1 <= k <= opps@.len(),
            best < k,
            forall|t: int|
                0 <= t < k ==> prefer_spec(
                    opps@[best as int].model_spec(),
                    (#[trigger] opps@[t]).model_spec(),
                ),
        decreases opps@.len() - k,
    {
        let cand_profit = opps[k].profit;
        let best_profit = opps[best].profit;
        if cand_profit > best_profit || (cand_profit == best_profit && opps[k].venue_ids.len()
            < opps[best].venue_ids.len()) {
            best = k;
        }
        k += 1;
    }
    Some(best)
}

} // verus!

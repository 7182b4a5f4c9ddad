use client_pool::graph::{
    add_pool_to_graph, build_graph, PoolGraph, PoolIndex, PoolQuote, TokenRegistry,
};
use client_pool::keys::AccountId;
use client_pool::math::Fees;
use client_pool::pool::{OrcaPool, Pool};

fn key(n: u64) -> AccountId {
    AccountId { w0: n, w1: 0, w2: 0, w3: 0 }
}

fn orca(address: u64, mint_a: u64, mint_b: u64) -> Pool {
    Pool::Orca(OrcaPool {
        address: key(address),
        mint_a: key(mint_a),
        mint_b: key(mint_b),
        scale_a: 6,
        scale_b: 9,
        vault_a: key(1000 + address),
        vault_b: key(2000 + address),
        fees: Fees {
            trade_fee_numerator: 0,
            trade_fee_denominator: 0,
            owner_trade_fee_numerator: 0,
            owner_trade_fee_denominator: 0,
        },
        curve_type: 0,
        amp: 0,
        pool_amount_a: 10,
        pool_amount_b: 10,
    })
}

fn listed(graph: &PoolGraph, i: usize, j: usize) -> Vec<usize> {
    if i < graph.0.len() && j < graph.0[i].0.len() {
        graph.0[i].0[j].iter().map(|q| q.0).collect()
    } else {
        Vec::new()
    }
}

#[test]
fn registry_assigns_first_seen_indices() {
    let mut reg = TokenRegistry::new();
    assert_eq!(reg.get_or_insert(key(5)), 0);
    assert_eq!(reg.get_or_insert(key(9)), 1);
    assert_eq!(reg.get_or_insert(key(5)), 0);
    assert_eq!(reg.get_or_insert(key(7)), 2);
    assert_eq!(reg.mints, vec![key(5), key(9), key(7)]);
    assert_eq!(reg.index_of(&key(9)), Some(1));
    assert_eq!(reg.index_of(&key(8)), None);
}

#[test]
fn add_pool_appends_to_one_directed_pair() {
    let mut graph = PoolGraph::new();
    add_pool_to_graph(&mut graph, PoolIndex(0), PoolIndex(2), &PoolQuote(7));
    add_pool_to_graph(&mut graph, PoolIndex(0), PoolIndex(2), &PoolQuote(8));
    add_pool_to_graph(&mut graph, PoolIndex(2), PoolIndex(0), &PoolQuote(7));
    assert_eq!(listed(&graph, 0, 2), vec![7, 8]);
    assert_eq!(listed(&graph, 2, 0), vec![7]);
    assert_eq!(listed(&graph, 0, 1), Vec::<usize>::new());
    assert_eq!(listed(&graph, 1, 0), Vec::<usize>::new());
}

#[test]
fn build_links_every_pool_both_ways() {
    let pools = vec![orca(100, 1, 2), orca(101, 2, 3), orca(102, 3, 1)];
    let (reg, graph) = build_graph(&pools);
    assert_eq!(reg.mints, vec![key(1), key(2), key(3)]);
    assert_eq!(listed(&graph, 0, 1), vec![0]);
    assert_eq!(listed(&graph, 1, 0), vec![0]);
    assert_eq!(listed(&graph, 1, 2), vec![1]);
    assert_eq!(listed(&graph, 2, 1), vec![1]);
    assert_eq!(listed(&graph, 0, 2), vec![2]);
    assert_eq!(listed(&graph, 2, 0), vec![2]);
}

#[test]
fn build_appends_parallel_pools_to_one_edge() {
    let pools = vec![orca(100, 1, 2), orca(101, 1, 2)];
    let (reg, graph) = build_graph(&pools);
    assert_eq!(reg.mints.len(), 2);
    assert_eq!(listed(&graph, 0, 1), vec![0, 1]);
    assert_eq!(listed(&graph, 1, 0), vec![0, 1]);
}

#[test]
fn build_skips_degenerate_pool() {
    // a venue whose two mints coincide cannot form an edge
    let pools = vec![orca(100, 1, 1), orca(101, 1, 2)];
    let (reg, graph) = build_graph(&pools);
    assert_eq!(reg.mints, vec![key(1), key(2)]);
    assert_eq!(listed(&graph, 0, 1), vec![1]);
    assert_eq!(listed(&graph, 0, 0), Vec::<usize>::new());
}

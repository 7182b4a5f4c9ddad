//! Discovery of profitable multi-hop trading cycles across on-chain
//! liquidity venues: constant-product and stable-curve pools and
//! order-book markets that share a common token.
//!
//! The crate is a pure, side-effect-free core: it quotes swaps against a
//! snapshot of venue state, indexes which token pairs are tradable, and
//! searches that graph for cycles that return more than they cost.
//! Fetching the snapshot from the chain and executing the swaps belong to
//! the surrounding program, not to this library.

pub mod errors;
pub mod keys;
pub mod math;
pub mod stable;
pub mod book;
pub mod pool;
pub mod graph;
pub mod arb;
pub mod config;

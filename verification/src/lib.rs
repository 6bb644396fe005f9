//! A live topology model of a radio mesh network: a weighted, undirected
//! multigraph of radios and observed links, and the decisions of the
//! per-connection session that keeps it in step with device events.
//!
//! - `types`: nodes, edges, positions, reported links, errors.
//! - `store`: the operations of petgraph's `StableGraph` that the graph is
//!   built on, with the contracts that are taken on trust.
//! - `model`, `outcomes`: a graph as a mathematical value, its invariant,
//!   and what each mutation does to it.
//! - `sums`, `validity`: the proofs that the mutations keep the invariant.
//! - `pairs`, `graph`: the graph itself and its index of parallel edges.
//! - `laws`: what holds of a graph whatever is done with it.
//! - `session`: the state machine of a device connection, the configuration
//!   deadline, and the plan of actions for a decoded event.
//! - `export`: line segments for a map, and numeric node ids.

pub mod types;
pub mod store;
pub mod model;
pub mod outcomes;
pub mod sums;
pub mod validity;
pub mod pairs;
pub mod graph;
pub mod laws;
pub mod session;
pub mod export;

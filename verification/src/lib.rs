//! Dependency-graph engine for quantifier-instantiation traces of an SMT solver.
//!
//! The crate holds the causal graph over solver events, the visibility filters
//! that narrow it, the structural pass that elides uninteresting nodes, and the
//! per-component transitive closure that answers reachability queries.

pub mod bitmap;
pub mod digraph;
pub mod display;
pub mod filters;
pub mod inst_graph;
pub mod items;
pub mod node_info;
pub mod order;
pub mod raw;
pub mod reach;
pub mod results;
pub mod stats;
pub mod subgraph;
pub mod text;

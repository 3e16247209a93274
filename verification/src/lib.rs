//! Generic graphs keyed by an ordered node id, traversals over them, and
//! dataflow graphs whose nodes run operations on shared variables.

pub mod async_function_graph;
pub mod directed_graph;
pub mod function_graph;
pub mod graph;
pub mod undirected_graph;

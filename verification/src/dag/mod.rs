//! The event graph.
//!
//! Every event names its parents by hash. The graph of these links says what
//! happened before what, whatever the wall clocks say.

pub mod graph;
pub mod graph_laws;
pub mod hash;
pub mod lca;
pub mod replay;

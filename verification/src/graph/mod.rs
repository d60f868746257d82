//! The flow graph: nodes, edges and their routing conditions, topology
//! checks, export, and the decisions of packet execution.

pub mod condition;
pub mod edge;
pub mod node;
pub mod flow;
pub mod reach;
pub mod layer;
pub mod export;
pub mod execution;
pub mod queue;
pub mod throughput;

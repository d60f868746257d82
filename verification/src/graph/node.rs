//! Nodes of the flow graph: a module's place in the graph, with its
//! lifecycle state and configuration.

use vstd::prelude::*;
use crate::base::id::NodeId;
use crate::module_api::config::ModuleConfig;
use crate::module_api::node::NodeType;

verus! {

/// A node's lifecycle state.
#[derive(Debug, Clone, Copy, PartialEq, Eq, Hash, Structural)]
pub enum NodeState {
    /// Constructed; `initialize` has not run yet.
    Uninitialized,
    /// `initialize` is in progress.
    Initializing,
    /// Processing packets normally.
    Running,
    /// Running, but reported degraded health.
    Degraded,
    /// `shutdown` is in progress.
    Stopping,
    /// `shutdown` completed.
    Stopped,
}

impl Default for NodeState {
    fn default() -> (s: Self)
        ensures
            s == NodeState::Uninitialized,
    {
        NodeState::Uninitialized
    }
}

/// The name `Debug` writes for a node state.
pub open spec fn spec_node_state_name(s: NodeState) -> Seq<char> {
    match s {
        NodeState::Uninitialized => "Uninitialized"@,
        NodeState::Initializing => "Initializing"@,
        NodeState::Running => "Running"@,
        NodeState::Degraded => "Degraded"@,
        NodeState::Stopping => "Stopping"@,
        NodeState::Stopped => "Stopped"@,
    }
}

impl NodeState {
    /// The variant's name, as `Debug` writes it.
    pub fn name(self) -> (s: &'static str)
        ensures
            s@ == spec_node_state_name(self),
    {
        match self {
            NodeState::Uninitialized => "Uninitialized",
            NodeState::Initializing => "Initializing",
            NodeState::Running => "Running",
            NodeState::Degraded => "Degraded",
            NodeState::Stopping => "Stopping",
            NodeState::Stopped => "Stopped",
        }
    }
}

/// Per-node metrics; a marker until the metrics system is designed.
#[derive(Debug, Clone, Copy, PartialEq, Eq, Structural)]
pub struct NodeMetrics {}

impl Default for NodeMetrics {
    fn default() -> (m: Self)
        ensures
            m == (NodeMetrics {}),
    {
        NodeMetrics {}
    }
}

/// A node's configuration.
#[derive(Debug, Clone)]
pub struct NodeConfig {
    /// Handed to the node's module.
    pub module_config: ModuleConfig,
    /// Capacity of the node's input queue before backpressure.
    pub queue_capacity: usize,
}

impl NodeConfig {
    /// The default input queue capacity.
    pub const DEFAULT_QUEUE_CAPACITY: usize = 256;
}

impl Default for NodeConfig {
    /// An empty module configuration and the default queue capacity.
    fn default() -> (c: Self)
        ensures
            c.queue_capacity == 256,
            crate::module_api::config::spec_is_empty_table(c.module_config.value_view()),
    {
        NodeConfig { module_config: ModuleConfig::empty(), queue_capacity: 256 }
    }
}

/// A node of the flow graph: an identifier, the role and name of its
/// module, configuration, lifecycle state and metrics.
#[derive(Debug)]
pub struct GraphNode {
    id: NodeId,
    node_type: NodeType,
    name: String,
    config: NodeConfig,
    state: NodeState,
    metrics: NodeMetrics,
}

impl GraphNode {
    /// The node's identifier.
    pub closed spec fn id_view(&self) -> u128 {
        self.id@
    }

    /// The module's role.
    pub closed spec fn type_view(&self) -> NodeType {
        self.node_type
    }

    /// The module's name.
    pub closed spec fn name_view(&self) -> Seq<char> {
        self.name@
    }

    /// The lifecycle state.
    pub closed spec fn state_view(&self) -> NodeState {
        self.state
    }

    /// The configuration's queue capacity.
    pub closed spec fn capacity_view(&self) -> usize {
        self.config.queue_capacity
    }

    /// A node for the module named `name` with role `node_type`, not yet
    /// initialized.
    pub fn new(id: NodeId, node_type: NodeType, name: &str, config: NodeConfig) -> (n: Self)
        ensures
            n.id_view() == id@,
            n.type_view() == node_type,
            n.name_view() == name@,
            n.state_view() == NodeState::Uninitialized,
            n.capacity_view() == config.queue_capacity,
    {
        GraphNode {
            id,
            node_type,
            name: name.to_owned(),
            config,
            state: NodeState::Uninitialized,
            metrics: NodeMetrics {},
        }
    }

    /// The node's identifier.
    pub fn id(&self) -> (id: NodeId)
        ensures
            id@ == self.id_view(),
    {
        self.id
    }

    /// The module's role in the graph.
    pub fn node_type(&self) -> (t: NodeType)
        ensures
            t == self.type_view(),
    {
        self.node_type
    }

    /// The module's name.
    pub fn name(&self) -> (s: &str)
        ensures
            s@ == self.name_view(),
    {
        self.name.as_str()
    }

    /// The node's configuration.
    pub fn config(&self) -> (c: &NodeConfig)
        ensures
            c.queue_capacity == self.capacity_view(),
    {
        &self.config
    }

    /// The lifecycle state.
    pub fn state(&self) -> (s: NodeState)
        ensures
            s == self.state_view(),
    {
        self.state
    }

    /// Moves to another lifecycle state; which transitions are legal is
    /// the execution engine's concern.
    pub fn set_state(&mut self, state: NodeState)
        ensures
            final(self).state_view() == state,
            final(self).id_view() == old(self).id_view(),
            final(self).type_view() == old(self).type_view(),
            final(self).name_view() == old(self).name_view(),
            final(self).capacity_view() == old(self).capacity_view(),
    {
        self.state = state;
    }

    /// The node's metrics.
    pub fn metrics(&self) -> (m: NodeMetrics)
        ensures
            m == (NodeMetrics {}),
    {
        self.metrics
    }
}

} // verus!

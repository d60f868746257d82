//! The roles a module can play as a node of the flow graph.

use vstd::prelude::*;

verus! {

/// A node's role in the flow graph.
#[derive(Debug, Clone, Copy, PartialEq, Eq, Hash, Structural)]
pub enum NodeType {
    Source,
    Transformer,
    Filter,
    Encryptor,
    Packer,
    Obfuscator,
    Transport,
    Router,
    Aggregator,
    Observer,
    PolicyResolver,
    Sink,
}

impl NodeType {
    /// The variant's name, as `Debug` writes it.
    pub fn name(self) -> (s: &'static str)
        ensures
            s@ == spec_node_type_name(self),
    {
        match self {
            NodeType::Source => "Source",
            NodeType::Transformer => "Transformer",
            NodeType::Filter => "Filter",
            NodeType::Encryptor => "Encryptor",
            NodeType::Packer => "Packer",
            NodeType::Obfuscator => "Obfuscator",
            NodeType::Transport => "Transport",
            NodeType::Router => "Router",
            NodeType::Aggregator => "Aggregator",
            NodeType::Observer => "Observer",
            NodeType::PolicyResolver => "PolicyResolver",
            NodeType::Sink => "Sink",
        }
    }
}

/// The name `Debug` writes for each node type.
pub open spec fn spec_node_type_name(t: NodeType) -> Seq<char> {
    match t {
        NodeType::Source => "Source"@,
        NodeType::Transformer => "Transformer"@,
        NodeType::Filter => "Filter"@,
        NodeType::Encryptor => "Encryptor"@,
        NodeType::Packer => "Packer"@,
        NodeType::Obfuscator => "Obfuscator"@,
        NodeType::Transport => "Transport"@,
        NodeType::Router => "Router"@,
        NodeType::Aggregator => "Aggregator"@,
        NodeType::Observer => "Observer"@,
        NodeType::PolicyResolver => "PolicyResolver"@,
        NodeType::Sink => "Sink"@,
    }
}

} // verus!

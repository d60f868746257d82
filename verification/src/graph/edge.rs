//! Edges of the flow graph: directed, typed connections between nodes.

use vstd::prelude::*;
use crate::base::id::NodeId;
use crate::graph::condition::{holds, Condition};
use crate::packet::packet::Packet;

verus! {

/// How an edge routes packets.
#[derive(Debug, Clone, Copy, PartialEq, Eq, Hash, Structural)]
pub enum EdgeType {
    /// Always taken; the default linear connection.
    Sequential,
    /// Taken only where its condition holds.
    Conditional,
    /// One of several edges a node fans out to concurrently.
    Parallel,
    /// Taken when the primary path is unavailable.
    Fallback,
}

/// The name `Debug` writes for an edge type.
pub open spec fn spec_edge_type_name(t: EdgeType) -> Seq<char> {
    match t {
        EdgeType::Sequential => "Sequential"@,
        EdgeType::Conditional => "Conditional"@,
        EdgeType::Parallel => "Parallel"@,
        EdgeType::Fallback => "Fallback"@,
    }
}

impl EdgeType {
    /// The variant's name, as `Debug` writes it.
    pub fn name(self) -> (s: &'static str)
        ensures
            s@ == spec_edge_type_name(self),
    {
        match self {
            EdgeType::Sequential => "Sequential",
            EdgeType::Conditional => "Conditional",
            EdgeType::Parallel => "Parallel",
            EdgeType::Fallback => "Fallback",
        }
    }
}

/// A directed connection between two nodes. The condition matters for
/// conditional edges; an edge without one accepts every packet. The
/// state of the edge's queue (its depth and how many packets it dropped)
/// is kept here by whoever runs the queue.
#[derive(Debug)]
pub struct Edge {
    from: NodeId,
    to: NodeId,
    edge_type: EdgeType,
    condition: Option<Condition>,
    queue_depth: usize,
    dropped_count: u64,
}

/// Whether an edge with `condition` accepts a packet with tag bits
/// `tags` and priority `priority`.
pub open spec fn accepts_spec(condition: Option<Condition>, tags: u32, priority: u8) -> bool {
    match condition {
        Some(c) => holds(c, tags, priority),
        None => true,
    }
}

impl Edge {
    /// The source node.
    pub closed spec fn from_view(&self) -> u128 {
        self.from@
    }

    /// The destination node.
    pub closed spec fn to_view(&self) -> u128 {
        self.to@
    }

    /// The edge's type.
    pub closed spec fn type_view(&self) -> EdgeType {
        self.edge_type
    }

    /// The routing condition.
    pub closed spec fn condition_view(&self) -> Option<Condition> {
        self.condition
    }

    /// Packets waiting in the edge's queue.
    pub closed spec fn depth_view(&self) -> usize {
        self.queue_depth
    }

    /// Packets the edge's queue dropped.
    pub closed spec fn dropped_view(&self) -> u64 {
        self.dropped_count
    }

    /// An edge from `from` to `to`, its queue empty.
    pub fn new(from: NodeId, to: NodeId, edge_type: EdgeType, condition: Option<Condition>) -> (e: Self)
        ensures
            e.from_view() == from@,
            e.to_view() == to@,
            e.type_view() == edge_type,
            e.condition_view() == condition,
            e.depth_view() == 0,
            e.dropped_view() == 0,
    {
        Edge { from, to, edge_type, condition, queue_depth: 0, dropped_count: 0 }
    }

    /// Packets waiting in the edge's queue.
    pub fn queue_depth(&self) -> (d: usize)
        ensures
            d == self.depth_view(),
    {
        self.queue_depth
    }

    /// Packets the edge's queue dropped so far.
    pub fn dropped_count(&self) -> (d: u64)
        ensures
            d == self.dropped_view(),
    {
        self.dropped_count
    }

    /// Record the queue's current depth.
    pub fn set_queue_depth(&mut self, depth: usize)
        ensures
            final(self).depth_view() == depth,
            final(self).dropped_view() == old(self).dropped_view(),
            final(self).from_view() == old(self).from_view(),
            final(self).to_view() == old(self).to_view(),
            final(self).type_view() == old(self).type_view(),
            final(self).condition_view() == old(self).condition_view(),
    {
        self.queue_depth = depth;
    }

    /// Record that the queue dropped a packet (the count stops at
    /// `u64::MAX`).
    pub fn record_drop(&mut self)
        ensures
            final(self).dropped_view() == old(self).dropped_view().saturating_add(1),
            final(self).depth_view() == old(self).depth_view(),
            final(self).from_view() == old(self).from_view(),
            final(self).to_view() == old(self).to_view(),
            final(self).type_view() == old(self).type_view(),
            final(self).condition_view() == old(self).condition_view(),
    {
        self.dropped_count = self.dropped_count.saturating_add(1);
    }

    /// The source node.
    pub fn from(&self) -> (id: NodeId)
        ensures
            id@ == self.from_view(),
    {
        self.from
    }

    /// The destination node.
    pub fn to(&self) -> (id: NodeId)
        ensures
            id@ == self.to_view(),
    {
        self.to
    }

    /// How this edge routes packets.
    pub fn edge_type(&self) -> (t: EdgeType)
        ensures
            t == self.type_view(),
    {
        self.edge_type
    }

    /// The routing condition, if any.
    pub fn condition(&self) -> (c: Option<&Condition>)
        ensures
            c matches Some(x) ==> self.condition_view() == Some(*x),
            c is None <==> self.condition_view() is None,
    {
        match &self.condition {
            Some(c) => Some(c),
            None => None,
        }
    }

    /// Whether a packet is routed along this edge: its condition holds,
    /// or it has none.
    pub fn accepts(&self, packet: &Packet) -> (r: bool)
        ensures
            r == accepts_spec(
                self.condition_view(),
                packet.tags_view().bits,
                packet.metadata_view().priority,
            ),
    {
        match &self.condition {
            Some(c) => c.evaluate(packet),
            None => true,
        }
    }
}

} // verus!

//! Packet metadata: session and flow context, routing hints, QoS, time
//! to live, and the execution trace.

use vstd::prelude::*;
use crate::base::clock::{millis_between, now_millis};
use crate::base::id::{FlowId, ModuleId, NodeId, RouteId, SessionId, StreamId};

verus! {

/// The number of hops a new packet may take through the graph.
pub const DEFAULT_TTL: u8 = 32;

/// The role of a node in the network topology.
#[derive(Debug, Clone, Copy, PartialEq, Eq, Structural)]
pub enum Role {
    Client,
    Server,
    Relay,
    Gateway,
}

/// A delivery guarantee.
#[derive(Debug, Clone, Copy, PartialEq, Eq, Structural)]
pub enum Reliability {
    BestEffort,
    Reliable,
    AtMostOnce,
}

impl Default for Reliability {
    fn default() -> (r: Self)
        ensures
            r == Reliability::BestEffort,
    {
        Reliability::BestEffort
    }
}

/// How much obfuscation a packet asks for.
#[derive(Debug, Clone, Copy, PartialEq, Eq, Structural)]
pub enum PrivacyPolicy {
    /// No special privacy requirements.
    NoRequirement,
    Standard,
    Maximum,
    Minimal,
}

impl Default for PrivacyPolicy {
    fn default() -> (p: Self)
        ensures
            p == PrivacyPolicy::NoRequirement,
    {
        PrivacyPolicy::NoRequirement
    }
}

/// One visited node of a trace, with when it was visited where detailed
/// timing was captured.
#[derive(Debug, Clone, Copy, PartialEq, Eq, Structural)]
pub struct TraceHop {
    pub node: NodeId,
    pub elapsed_ms: Option<u64>,
}

/// A packet's context. Times are milliseconds since the Unix epoch.
#[derive(Debug)]
pub struct Metadata {
    pub session_id: SessionId,
    pub flow_id: FlowId,
    pub stream_id: StreamId,
    pub route_id: RouteId,
    pub source_node: Option<NodeId>,
    pub destination_node: Option<NodeId>,
    pub source_role: Option<Role>,
    pub destination_role: Option<Role>,
    /// QoS priority, 0 (lowest) to 255 (highest).
    pub priority: u8,
    /// When the packet must be delivered by, if ever.
    pub deadline_ms: Option<u64>,
    pub mtu_hint: Option<u16>,
    pub latency_hint_us: Option<u64>,
    pub reliability: Reliability,
    /// When the packet was created.
    pub created_at_ms: u64,
    /// Hops left before the packet is dropped.
    pub ttl: u8,
    pub retry_count: u8,
    pub origin_module: Option<ModuleId>,
    /// The nodes visited, where tracing is on.
    pub trace: Vec<NodeId>,
    /// Whether hops are recorded.
    pub traced: bool,
    /// Whether each recorded hop also records its time.
    pub trace_detailed: bool,
    /// Milliseconds since creation at each recorded hop, where detailed.
    pub trace_timestamps_ms: Vec<u64>,
    pub privacy_policy: PrivacyPolicy,
    pub capability_mask: u64,
}

/// Whether two metadata values hold the same context, field by field.
pub open spec fn same_metadata(a: Metadata, b: Metadata) -> bool {
    a == (Metadata { trace: a.trace, trace_timestamps_ms: a.trace_timestamps_ms, ..b })
        && a.trace@ == b.trace@ && a.trace_timestamps_ms@ == b.trace_timestamps_ms@
}

impl Clone for Metadata {
    fn clone(&self) -> (m: Self)
        ensures
            same_metadata(m, *self),
    {
        Metadata {
            session_id: self.session_id,
            flow_id: self.flow_id,
            stream_id: self.stream_id,
            route_id: self.route_id,
            source_node: self.source_node,
            destination_node: self.destination_node,
            source_role: self.source_role,
            destination_role: self.destination_role,
            priority: self.priority,
            deadline_ms: self.deadline_ms,
            mtu_hint: self.mtu_hint,
            latency_hint_us: self.latency_hint_us,
            reliability: self.reliability,
            created_at_ms: self.created_at_ms,
            ttl: self.ttl,
            retry_count: self.retry_count,
            origin_module: self.origin_module,
            trace: copy_ids(&self.trace),
            traced: self.traced,
            trace_detailed: self.trace_detailed,
            trace_timestamps_ms: copy_u64s(&self.trace_timestamps_ms),
            privacy_policy: self.privacy_policy,
            capability_mask: self.capability_mask,
        }
    }
}

fn copy_ids(v: &Vec<NodeId>) -> (r: Vec<NodeId>)
    ensures
        r@ == v@,
{
    let mut r: Vec<NodeId> = Vec::new();
    let mut i: usize = 0;
    while i < v.len()
        invariant
            i <= v.len(),
            r@ == v@.take(i as int),
        decreases v.len() - i,
    {
        r.push(v[i]);
        i += 1;
        assert(r@ =~= v@.take(i as int));
    }
    assert(v@.take(i as int) =~= v@);
    assert(r@ == v@);
    r
}

fn copy_u64s(v: &Vec<u64>) -> (r: Vec<u64>)
    ensures
        r@ == v@,
{
    let mut r: Vec<u64> = Vec::new();
    let mut i: usize = 0;
    while i < v.len()
        invariant
            i <= v.len(),
            r@ == v@.take(i as int),
        decreases v.len() - i,
    {
        r.push(v[i]);
        i += 1;
        assert(r@ =~= v@.take(i as int));
    }
    assert(v@.take(i as int) =~= v@);
    assert(r@ == v@);
    r
}

impl Metadata {
    /// Metadata with a new session, flow and stream, priority 128, the
    /// default TTL, created now, and nothing else set.
    pub fn new() -> (m: Self)
        ensures
            m.session_id@ != 0 && m.flow_id@ != 0 && m.stream_id@ != 0,
            m.route_id@ == 0,
            m.source_node is None && m.destination_node is None,
            m.source_role is None && m.destination_role is None,
            m.priority == 128,
            m.deadline_ms is None && m.mtu_hint is None && m.latency_hint_us is None,
            m.reliability == Reliability::BestEffort,
            m.ttl == DEFAULT_TTL,
            m.retry_count == 0,
            m.origin_module is None,
            m.trace@.len() == 0 && m.trace_timestamps_ms@.len() == 0,
            !m.traced && !m.trace_detailed,
            m.privacy_policy == PrivacyPolicy::NoRequirement,
            m.capability_mask == 0,
    {
        Metadata {
            session_id: SessionId::new(),
            flow_id: FlowId::new(),
            stream_id: StreamId::new(),
            route_id: RouteId::nil(),
            source_node: None,
            destination_node: None,
            source_role: None,
            destination_role: None,
            priority: 128,
            deadline_ms: None,
            mtu_hint: None,
            latency_hint_us: None,
            reliability: Reliability::BestEffort,
            created_at_ms: now_millis(),
            ttl: DEFAULT_TTL,
            retry_count: 0,
            origin_module: None,
            trace: Vec::new(),
            traced: false,
            trace_detailed: false,
            trace_timestamps_ms: Vec::new(),
            privacy_policy: PrivacyPolicy::NoRequirement,
            capability_mask: 0,
        }
    }

    /// The same metadata in session `id`.
    pub fn with_session(self, id: SessionId) -> (m: Self)
        ensures
            m == (Metadata { session_id: id, ..self }),
    {
        Metadata { session_id: id, ..self }
    }

    /// The same metadata in flow `id`.
    pub fn with_flow(self, id: FlowId) -> (m: Self)
        ensures
            m == (Metadata { flow_id: id, ..self }),
    {
        Metadata { flow_id: id, ..self }
    }

    /// The same metadata with source node `node`.
    pub fn with_source(self, node: NodeId) -> (m: Self)
        ensures
            m == (Metadata { source_node: Some(node), ..self }),
    {
        Metadata { source_node: Some(node), ..self }
    }

    /// The same metadata with destination node `node`.
    pub fn with_destination(self, node: NodeId) -> (m: Self)
        ensures
            m == (Metadata { destination_node: Some(node), ..self }),
    {
        Metadata { destination_node: Some(node), ..self }
    }

    /// Appends a node to the trace, whether or not tracing is on.
    pub fn trace_push(&mut self, node: NodeId)
        ensures
            *final(self) == (Metadata { trace: final(self).trace, ..*old(self) }),
            final(self).trace@ == old(self).trace@.push(node),
    {
        self.trace.push(node);
    }

    /// The same metadata with tracing on, and detailed timing if asked.
    pub fn with_tracing(self, detailed: bool) -> (m: Self)
        ensures
            m == (Metadata { traced: true, trace_detailed: detailed, ..self }),
    {
        Metadata { traced: true, trace_detailed: detailed, ..self }
    }

    /// Records a hop at `now_ms` (milliseconds since the Unix epoch) where
    /// tracing is on (a no-op otherwise): the node, and where detailed,
    /// the milliseconds from creation to `now_ms` (zero for a time before
    /// creation).
    pub fn record_hop_at(&mut self, node: NodeId, now_ms: u64)
        ensures
            !old(self).traced ==> *final(self) == *old(self),
            old(self).traced ==> final(self).trace@ == old(self).trace@.push(node),
            old(self).traced && old(self).trace_detailed ==> final(self).trace_timestamps_ms@
                == old(self).trace_timestamps_ms@.push(
                if now_ms >= old(self).created_at_ms { (now_ms - old(self).created_at_ms) as u64 } else { 0 },
            ),
            old(self).traced && !old(self).trace_detailed ==> final(self).trace_timestamps_ms
                == old(self).trace_timestamps_ms,
            *final(self) == (Metadata {
                trace: final(self).trace,
                trace_timestamps_ms: final(self).trace_timestamps_ms,
                ..*old(self)
            }),
    {
        if !self.traced {
            return;
        }
        self.trace.push(node);
        if self.trace_detailed {
            let elapsed = millis_between(now_ms, self.created_at_ms);
            self.trace_timestamps_ms.push(elapsed);
        }
    }

    /// Records a hop where tracing is on (a no-op otherwise): the node,
    /// and where detailed, the milliseconds since creation by the clock.
    pub fn record_hop(&mut self, node: NodeId)
        ensures
            !old(self).traced ==> *final(self) == *old(self),
            old(self).traced ==> final(self).trace@ == old(self).trace@.push(node),
            old(self).traced && old(self).trace_detailed ==> final(self).trace_timestamps_ms@.len()
                == old(self).trace_timestamps_ms@.len() + 1 && final(self).trace_timestamps_ms@.drop_last()
                == old(self).trace_timestamps_ms@,
            old(self).traced && !old(self).trace_detailed ==> final(self).trace_timestamps_ms
                == old(self).trace_timestamps_ms,
            *final(self) == (Metadata {
                trace: final(self).trace,
                trace_timestamps_ms: final(self).trace_timestamps_ms,
                ..*old(self)
            }),
    {
        self.record_hop_at(node, now_millis());
    }

    /// Each traced hop with its time where one was recorded.
    pub fn trace_summary(&self) -> (r: Vec<TraceHop>)
        ensures
            r@.len() == self.trace@.len(),
            forall|i: int|
                0 <= i < r@.len() ==> (#[trigger] r@[i]).node == self.trace@[i] && r@[i].elapsed_ms
                    == if i < self.trace_timestamps_ms@.len() {
                    Some(self.trace_timestamps_ms@[i])
                } else {
                    None
                },
    {
        let mut r: Vec<TraceHop> = Vec::new();
        let mut i: usize = 0;
        while i < self.trace.len()
            invariant
                i <= self.trace@.len(),
                r@.len() == i,
                forall|k: int|
                    0 <= k < i ==> (#[trigger] r@[k]).node == self.trace@[k] && r@[k].elapsed_ms
                        == if k < self.trace_timestamps_ms@.len() {
                        Some(self.trace_timestamps_ms@[k])
                    } else {
                        None
                    },
            decreases self.trace@.len() - i,
        {
            let elapsed_ms = if i < self.trace_timestamps_ms.len() {
                Some(self.trace_timestamps_ms[i])
            } else {
                None
            };
            r.push(TraceHop { node: self.trace[i], elapsed_ms });
            i += 1;
        }
        r
    }

    /// Restores the TTL to the default.
    pub fn reset_ttl(&mut self)
        ensures
            *final(self) == (Metadata { ttl: DEFAULT_TTL, ..*old(self) }),
    {
        self.ttl = DEFAULT_TTL;
    }

    /// Whether the packet had expired at `now_ms` (milliseconds since the
    /// Unix epoch): its TTL ran out, or its deadline, if any, had come.
    pub fn is_expired_at(&self, now_ms: u64) -> (r: bool)
        ensures
            r == (self.ttl == 0 || (self.deadline_ms matches Some(d) && now_ms >= d)),
    {
        if self.ttl == 0 {
            return true;
        }
        match self.deadline_ms {
            Some(deadline) => now_ms >= deadline,
            None => false,
        }
    }

    /// Whether the packet expired: its TTL ran out, or its deadline (if
    /// any) has passed by the clock.
    pub fn is_expired(&self) -> (r: bool)
        ensures
            self.ttl == 0 ==> r,
            self.ttl != 0 && self.deadline_ms is None ==> !r,
    {
        self.is_expired_at(now_millis())
    }
}

impl Default for Metadata {
    fn default() -> (m: Self)
        ensures
            m.ttl == DEFAULT_TTL && m.priority == 128 && !m.traced,
    {
        Metadata::new()
    }
}

} // verus!

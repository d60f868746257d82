//! The decisions of packet execution through a flow graph: whether a
//! packet may enter, whether a node may be handed it, whether the node
//! kept to its time budget, where the packet goes next, and the metrics
//! recorded along the way. Running a node's module is its caller's part:
//! it asks these functions after each step.

use vstd::prelude::*;
use crate::base::id::{spec_uuid_text, NodeId};
use crate::errors::{GraphError, ModuleError};
use crate::graph::edge::{accepts_spec, Edge, EdgeType};
use crate::graph::flow::{edges_leaving, id_views, FlowGraph};
use crate::module_api::metrics::{spec_metric_name, MetricRegistry};
use crate::module_api::resource_limits::ResourceLimits;
use crate::packet::packet::Packet;
use crate::text::push_str;

verus! {

/// An error while executing a packet through the graph.
#[derive(Debug, Clone, PartialEq, Eq)]
pub enum ExecutionError {
    /// A node's module failed, or was refused the packet.
    Module(ModuleError),
    /// The graph's structure stopped the packet.
    Graph(GraphError),
}

/// Where a packet goes after a node of a sequential run processed it.
#[derive(Debug, Clone, Copy, PartialEq, Eq, Structural)]
pub enum Hop {
    /// The node is an exit point: the packet leaves the graph.
    Exit,
    /// On to this node.
    Next(NodeId),
}

/// Where a packet goes after a node of a branching run processed it.
#[derive(Debug, Clone, PartialEq, Eq)]
pub enum Branch {
    /// The node is an exit point: the packet leaves the graph.
    Exit,
    /// On to this node.
    Continue(NodeId),
    /// A copy of the packet to each of these nodes, concurrently.
    Fork(Vec<NodeId>),
}

/// The first of `es` that accepts a packet with tag bits `tags` and
/// priority `priority`.
pub open spec fn first_accepting(es: Seq<Edge>, tags: u32, priority: u8) -> Option<Edge>
    decreases es.len(),
{
    if es.len() == 0 {
        None
    } else if accepts_spec(es[0].condition_view(), tags, priority) {
        Some(es[0])
    } else {
        first_accepting(es.drop_first(), tags, priority)
    }
}

/// Law: the edge chosen for a packet is the earliest of `es` whose
/// condition accepts it: it accepts, and no edge before it does; there is
/// none exactly when no edge of `es` accepts the packet.
pub proof fn lemma_first_accepting_is_earliest(es: Seq<Edge>, tags: u32, priority: u8)
    ensures
        first_accepting(es, tags, priority) is None <==> forall|j: int|
            0 <= j < es.len() ==> !accepts_spec(#[trigger] es[j].condition_view(), tags, priority),
        first_accepting(es, tags, priority) matches Some(e) ==> exists|k: int|
            0 <= k < es.len() && #[trigger] es[k] == e && accepts_spec(e.condition_view(), tags, priority)
                && forall|j: int| 0 <= j < k ==> !accepts_spec(#[trigger] es[j].condition_view(), tags, priority),
    decreases es.len(),
{
    if es.len() > 0 {
        let rest = es.drop_first();
        lemma_first_accepting_is_earliest(rest, tags, priority);
        assert forall|j: int| 0 < j < es.len() implies #[trigger] es[j] == rest[j - 1] by {}
        if !accepts_spec(es[0].condition_view(), tags, priority) {
            if let Some(e) = first_accepting(rest, tags, priority) {
                let k = choose|k: int|
                    0 <= k < rest.len() && #[trigger] rest[k] == e && accepts_spec(e.condition_view(), tags, priority)
                        && forall|j: int| 0 <= j < k ==> !accepts_spec(#[trigger] rest[j].condition_view(), tags, priority);
                assert(es[k + 1] == e);
                assert forall|j: int| 0 <= j < k + 1 implies !accepts_spec(#[trigger] es[j].condition_view(), tags, priority) by {
                    if j > 0 {
                        assert(es[j] == rest[j - 1]);
                    }
                }
            } else {
                assert forall|j: int| 0 <= j < es.len() implies !accepts_spec(#[trigger] es[j].condition_view(), tags, priority) by {
                    if j > 0 {
                        assert(es[j] == rest[j - 1]);
                    }
                }
            }
        }
    }
}

/// The edges of `es` that accept the packet, in order.
pub open spec fn accepting_edges(es: Seq<Edge>, tags: u32, priority: u8) -> Seq<Edge>
    decreases es.len(),
{
    if es.len() == 0 {
        Seq::empty()
    } else {
        accepting_edges(es.drop_last(), tags, priority) + if accepts_spec(es.last().condition_view(), tags, priority) {
            seq![es.last()]
        } else {
            Seq::empty()
        }
    }
}

/// The destinations of the parallel edges among `es`, in order.
pub open spec fn parallel_targets(es: Seq<Edge>) -> Seq<u128>
    decreases es.len(),
{
    if es.len() == 0 {
        Seq::empty()
    } else {
        parallel_targets(es.drop_last()) + if es.last().type_view() == EdgeType::Parallel {
            seq![es.last().to_view()]
        } else {
            Seq::empty()
        }
    }
}

/// Why a packet stopped at `node`: no edge accepts it and it is no exit.
pub open spec fn dead_end_reason(node: u128) -> Seq<char> {
    "node "@ + spec_uuid_text(node)
        + " has no outgoing edge accepting this packet (and isn't an exit point) \u{2014} run FlowGraph::validate() first"@
}

/// Whether `e` is the graph error for a packet stopped at `node`.
pub open spec fn is_dead_end(e: ExecutionError, node: u128) -> bool {
    e matches ExecutionError::Graph(GraphError::BuildFailed { reason }) && reason@ == dead_end_reason(node)
}

/// Whether `e` is the quota error of module `name` for `resource`.
pub open spec fn is_quota_error(e: ExecutionError, name: Seq<char>, resource: Seq<char>) -> bool {
    e matches ExecutionError::Module(ModuleError::QuotaExceeded { name: n, resource: r }) && n@ == name && r@ == resource
}

fn dead_end(node: NodeId) -> (e: ExecutionError)
    ensures
        is_dead_end(e, node@),
{
    let mut reason = String::new();
    push_str(&mut reason, "node ");
    push_str(&mut reason, node.to_string().as_str());
    push_str(
        &mut reason,
        " has no outgoing edge accepting this packet (and isn't an exit point) \u{2014} run FlowGraph::validate() first",
    );
    proof {
        reveal_strlit("node ");
    }
    assert(reason@ =~= dead_end_reason(node@));
    ExecutionError::Graph(GraphError::BuildFailed { reason })
}

fn quota_error(name: &str, resource: &str) -> (e: ExecutionError)
    ensures
        is_quota_error(e, name@, resource@),
{
    ExecutionError::Module(ModuleError::QuotaExceeded { name: name.to_owned(), resource: resource.to_owned() })
}

fn listed(list: &[NodeId], id: NodeId) -> (r: bool)
    ensures
        r == id_views(list@).contains(id@),
{
    let mut i: usize = 0;
    while i < list.len()
        invariant
            i <= list@.len(),
            forall|j: int| 0 <= j < i ==> (#[trigger] list@[j])@ != id@,
        decreases list@.len() - i,
    {
        if list[i].same_as(&id) {
            assert(id_views(list@)[i as int] == id@);
            return true;
        }
        i += 1;
    }
    proof {
        if id_views(list@).contains(id@) {
            let j = choose|j: int| 0 <= j < id_views(list@).len() && id_views(list@)[j] == id@;
            assert(list@[j]@ == id@);
        }
    }
    false
}

/// A packet may enter only at an entry point; anywhere else is reported
/// as a missing node.
pub fn check_entry(graph: &FlowGraph, entry: NodeId) -> (r: Result<(), ExecutionError>)
    ensures
        r is Ok <==> graph.entries().contains(entry@),
        r matches Err(e) ==> (e matches ExecutionError::Graph(GraphError::MissingNode { node_id }) && node_id@
            == spec_uuid_text(entry@)),
{
    if listed(graph.entry_points(), entry) {
        Ok(())
    } else {
        Err(ExecutionError::Graph(GraphError::MissingNode { node_id: entry.to_string() }))
    }
}

/// A payload of `len` bytes may be handed to the module `name` only
/// within its declared payload limit; no limit means any size.
pub fn check_payload_limit(name: &str, limits: &ResourceLimits, len: usize) -> (r: Result<(), ExecutionError>)
    ensures
        r is Ok <==> (limits.max_payload_bytes matches Some(max) ==> len <= max),
        r matches Err(e) ==> is_quota_error(e, name@, "payload_size"@),
{
    match limits.max_payload_bytes {
        Some(max) => {
            if len as u64 > max {
                Err(quota_error(name, "payload_size"))
            } else {
                Ok(())
            }
        },
        None => Ok(()),
    }
}

/// A `process` call of the module `name` that took `elapsed` nanoseconds
/// is refused where it overran the declared budget; no budget means any
/// time.
pub fn check_processing_time(name: &str, limits: &ResourceLimits, elapsed: u128) -> (r: Result<(), ExecutionError>)
    ensures
        r is Ok <==> (limits.max_processing_time matches Some(max) ==> elapsed <= max),
        r matches Err(e) ==> is_quota_error(e, name@, "processing_time"@),
{
    match limits.max_processing_time {
        Some(max) => {
            if elapsed > max {
                Err(quota_error(name, "processing_time"))
            } else {
                Ok(())
            }
        },
        None => Ok(()),
    }
}

/// Where a packet goes after node `current` processed it in a sequential
/// run: out of the graph at an exit point, else along the first edge
/// leaving `current` that accepts it; with no such edge the run stops.
pub fn next_hop(graph: &FlowGraph, current: NodeId, packet: &Packet) -> (r: Result<Hop, ExecutionError>)
    ensures
        graph.exits().contains(current@) ==> r == Ok::<Hop, ExecutionError>(Hop::Exit),
        !graph.exits().contains(current@) ==> match first_accepting(
            edges_leaving(graph.edges_view(), current@),
            packet.tags_view().bits,
            packet.metadata_view().priority,
        ) {
            Some(e) => r matches Ok(Hop::Next(n)) && n@ == e.to_view(),
            None => r matches Err(err) && is_dead_end(err, current@),
        },
{
    if listed(graph.exit_points(), current) {
        return Ok(Hop::Exit);
    }
    let outgoing = graph.edges_from(current);
    let ghost es = edges_leaving(graph.edges_view(), current@);
    let ghost tags = packet.tags_view().bits;
    let ghost prio = packet.metadata_view().priority;
    let mut k: usize = 0;
    assert(es.skip(0) =~= es);
    while k < outgoing.len()
        invariant
            !graph.exits().contains(current@),
            es == edges_leaving(graph.edges_view(), current@),
            tags == packet.tags_view().bits,
            prio == packet.metadata_view().priority,
            k <= outgoing@.len(),
            outgoing@.len() == es.len(),
            forall|t: int| 0 <= t < outgoing@.len() ==> *(#[trigger] outgoing@[t]) == es[t],
            first_accepting(es, tags, prio) == first_accepting(es.skip(k as int), tags, prio),
        decreases outgoing@.len() - k,
    {
        let edge = outgoing[k];
        proof {
            assert(es.skip(k as int)[0] == es[k as int]);
            assert(es.skip(k as int).drop_first() =~= es.skip(k + 1));
        }
        if edge.accepts(packet) {
            return Ok(Hop::Next(edge.to()));
        }
        k += 1;
    }
    assert(es.skip(k as int).len() == 0);
    Err(dead_end(current))
}

/// Where a packet goes after node `current` processed it in a branching
/// run: out of the graph at an exit point; else, where parallel edges
/// accept it, a copy along each of them (other edges then play no
/// part); else along the first accepting edge; with none the run stops.
pub fn branch_step(graph: &FlowGraph, current: NodeId, packet: &Packet) -> (r: Result<Branch, ExecutionError>)
    ensures
        graph.exits().contains(current@) ==> r == Ok::<Branch, ExecutionError>(Branch::Exit),
        !graph.exits().contains(current@) ==> ({
            let acc = accepting_edges(
                edges_leaving(graph.edges_view(), current@),
                packet.tags_view().bits,
                packet.metadata_view().priority,
            );
            if parallel_targets(acc).len() > 0 {
                r matches Ok(Branch::Fork(v)) && id_views(v@) == parallel_targets(acc)
            } else if acc.len() > 0 {
                r matches Ok(Branch::Continue(n)) && n@ == acc[0].to_view()
            } else {
                r matches Err(err) && is_dead_end(err, current@)
            }
        }),
{
    if listed(graph.exit_points(), current) {
        return Ok(Branch::Exit);
    }
    let outgoing = graph.edges_from(current);
    let ghost es = edges_leaving(graph.edges_view(), current@);
    let ghost tags = packet.tags_view().bits;
    let ghost prio = packet.metadata_view().priority;
    let mut first: Option<NodeId> = None;
    let mut targets: Vec<NodeId> = Vec::new();
    let mut k: usize = 0;
    proof {
        assert(es.take(0) =~= Seq::<Edge>::empty());
        assert(targets@ =~= Seq::<NodeId>::empty());
        assert(id_views(targets@) =~= Seq::<u128>::empty());
    }
    while k < outgoing.len()
        invariant
            es == edges_leaving(graph.edges_view(), current@),
            tags == packet.tags_view().bits,
            prio == packet.metadata_view().priority,
            k <= outgoing@.len(),
            outgoing@.len() == es.len(),
            forall|t: int| 0 <= t < outgoing@.len() ==> *(#[trigger] outgoing@[t]) == es[t],
            id_views(targets@) == parallel_targets(accepting_edges(es.take(k as int), tags, prio)),
            first is None <==> accepting_edges(es.take(k as int), tags, prio).len() == 0,
            first matches Some(n) ==> n@ == accepting_edges(es.take(k as int), tags, prio)[0].to_view(),
        decreases outgoing@.len() - k,
    {
        let edge = outgoing[k];
        let ghost acc0 = accepting_edges(es.take(k as int), tags, prio);
        proof {
            assert(es.take(k + 1).drop_last() =~= es.take(k as int));
            assert(es.take(k + 1).last() == es[k as int]);
        }
        if edge.accepts(packet) {
            proof {
                let acc1 = accepting_edges(es.take(k + 1), tags, prio);
                assert(acc1 == acc0.push(es[k as int]));
                assert(acc1.drop_last() =~= acc0);
                if acc0.len() > 0 {
                    assert(acc1[0] == acc0[0]);
                }
            }
            if first.is_none() {
                first = Some(edge.to());
            }
            if edge.edge_type() == EdgeType::Parallel {
                let ghost t0 = targets@;
                targets.push(edge.to());
                proof {
                    assert(id_views(targets@) =~= id_views(t0).push(edge.to_view()));
                }
            }
        } else {
            proof {
                assert(accepting_edges(es.take(k + 1), tags, prio) == acc0);
            }
        }
        k += 1;
    }
    proof {
        assert(es.take(k as int) =~= es);
    }
    if targets.len() > 0 {
        return Ok(Branch::Fork(targets));
    }
    match first {
        Some(n) => Ok(Branch::Continue(n)),
        None => Err(dead_end(current)),
    }
}

/// The count of a counter after adding `delta` to what it held (nothing
/// counts as zero).
pub open spec fn bumped(before: Option<u64>, delta: u64) -> u64 {
    match before {
        Some(v) => v.wrapping_add(delta),
        None => 0u64.wrapping_add(delta),
    }
}

/// The scope under which the flow's own metrics are kept.
pub open spec fn flow_scope() -> Seq<char> {
    "flow"@
}

/// Count a packet of `len` bytes entering the graph: `packets_total` up
/// by one, `bytes_total` up by `len`, in the `flow` scope.
pub fn record_flow_entry(metrics: &mut MetricRegistry, len: usize)
    requires
        old(metrics).wf(),
    ensures
        final(metrics).wf(),
        final(metrics).counter_value(spec_metric_name(flow_scope(), "packets_total"@)) == Some(
            bumped(old(metrics).counter_value(spec_metric_name(flow_scope(), "packets_total"@)), 1),
        ),
        final(metrics).counter_value(spec_metric_name(flow_scope(), "bytes_total"@)) == Some(
            bumped(old(metrics).counter_value(spec_metric_name(flow_scope(), "bytes_total"@)), len as u64),
        ),
        forall|k: Seq<char>|
            k != spec_metric_name(flow_scope(), "packets_total"@) && k != spec_metric_name(flow_scope(), "bytes_total"@)
                ==> #[trigger] final(metrics).counter_value(k) == old(metrics).counter_value(k),
        forall|k: Seq<char>| #[trigger] final(metrics).gauge_value(k) == old(metrics).gauge_value(k),
{
    proof {
        reveal_strlit("packets_total");
        reveal_strlit("bytes_total");
        assert(spec_metric_name(flow_scope(), "packets_total"@).len() != spec_metric_name(flow_scope(), "bytes_total"@).len());
    }
    metrics.counter("flow", "packets_total").increment(1);
    metrics.counter("flow", "bytes_total").increment(len as u64);
}

/// Count a packet that left the graph without reaching an exit point
/// (absorbed, or its run failed) under `packets_dropped` in the `flow`
/// scope; one that reached an exit changes no counter.
pub fn record_flow_exit(metrics: &mut MetricRegistry, reached_exit: bool)
    requires
        old(metrics).wf(),
    ensures
        final(metrics).wf(),
        !reached_exit ==> final(metrics).counter_value(spec_metric_name(flow_scope(), "packets_dropped"@)) == Some(
            bumped(old(metrics).counter_value(spec_metric_name(flow_scope(), "packets_dropped"@)), 1),
        ),
        forall|k: Seq<char>|
            (reached_exit || k != spec_metric_name(flow_scope(), "packets_dropped"@)) ==> #[trigger] final(metrics).counter_value(k)
                == old(metrics).counter_value(k),
        forall|k: Seq<char>| #[trigger] final(metrics).gauge_value(k) == old(metrics).gauge_value(k),
{
    if !reached_exit {
        metrics.counter("flow", "packets_dropped").increment(1);
    }
}

/// Record one `process` call of the module `name`: `process_calls_total`
/// up by one, the `queue_depth` gauge set to the node's input queue depth
/// (at most `i64::MAX`), and `errors_total` up by one where the call
/// failed.
pub fn record_node_metrics(metrics: &mut MetricRegistry, name: &str, queue_depth: usize, succeeded: bool)
    requires
        old(metrics).wf(),
    ensures
        final(metrics).wf(),
        final(metrics).counter_value(spec_metric_name(name@, "process_calls_total"@)) == Some(
            bumped(old(metrics).counter_value(spec_metric_name(name@, "process_calls_total"@)), 1),
        ),
        final(metrics).gauge_value(spec_metric_name(name@, "queue_depth"@)) == Some(
            if queue_depth <= i64::MAX { queue_depth as i64 } else { i64::MAX },
        ),
        !succeeded ==> final(metrics).counter_value(spec_metric_name(name@, "errors_total"@)) == Some(
            bumped(old(metrics).counter_value(spec_metric_name(name@, "errors_total"@)), 1),
        ),
        forall|k: Seq<char>|
            k != spec_metric_name(name@, "process_calls_total"@) && (succeeded || k != spec_metric_name(name@, "errors_total"@))
                ==> #[trigger] final(metrics).counter_value(k) == old(metrics).counter_value(k),
        forall|k: Seq<char>| k != spec_metric_name(name@, "queue_depth"@) ==> #[trigger] final(metrics).gauge_value(k) == old(metrics).gauge_value(k),
{
    proof {
        reveal_strlit("process_calls_total");
        reveal_strlit("errors_total");
        assert(spec_metric_name(name@, "process_calls_total"@).len() != spec_metric_name(name@, "errors_total"@).len());
    }
    metrics.counter(name, "process_calls_total").increment(1);
    let depth: i64 = if queue_depth as u128 <= i64::MAX as u128 {
        queue_depth as i64
    } else {
        i64::MAX
    };
    metrics.gauge(name, "queue_depth").set(depth);
    if !succeeded {
        metrics.counter(name, "errors_total").increment(1);
    }
}

} // verus!

use nyarix::base::id::NodeId;
use nyarix::errors::GraphError;
use nyarix::graph::edge::{Edge, EdgeType};
use nyarix::graph::execution::{
    check_entry, check_processing_time, next_hop, record_flow_entry, record_flow_exit, record_node_metrics,
    ExecutionError, Hop,
};
use nyarix::graph::flow::FlowGraph;
use nyarix::graph::node::{GraphNode, NodeConfig};
use nyarix::graph::throughput::ThroughputTracker;
use nyarix::module_api::metrics::MetricRegistry;
use nyarix::module_api::node::NodeType;
use nyarix::module_api::resource_limits::ResourceLimits;
use nyarix::packet::packet::Packet;
use nyarix::packet::payload::Payload;

/// What a stub module does with a packet: pass it on, absorb it, or
/// report that the call took this many nanoseconds.
#[derive(Clone, Copy)]
enum Stub {
    Pass,
    Absorb,
    Slow { budget_nanos: u128, took_nanos: u128 },
}

fn node(name: &str, node_type: NodeType) -> GraphNode {
    GraphNode::new(NodeId::new(), node_type, name, NodeConfig::default())
}

/// A sequential run driven the way the runtime drives it: the library
/// decides entry, budget and next hop; `behaviour` stands for the module.
fn run(
    graph: &FlowGraph,
    entry: NodeId,
    mut packet: Packet,
    behaviour: impl Fn(NodeId) -> Stub,
    mut metrics: Option<&mut MetricRegistry>,
) -> Result<Option<Packet>, ExecutionError> {
    if let Some(m) = metrics.as_deref_mut() {
        record_flow_entry(m, packet.len());
    }
    let result = (|| {
        check_entry(graph, entry)?;
        let mut current = entry;
        loop {
            match behaviour(current) {
                Stub::Pass => {}
                Stub::Absorb => return Ok(None),
                Stub::Slow { budget_nanos, took_nanos } => {
                    let limits = ResourceLimits { max_processing_time: Some(budget_nanos), ..ResourceLimits::unbounded() };
                    check_processing_time("slow", &limits, took_nanos)?;
                }
            }
            match next_hop(graph, current, &packet)? {
                Hop::Exit => return Ok(Some(packet)),
                Hop::Next(next) => current = next,
            }
        }
    })();
    if let Some(m) = metrics {
        record_flow_exit(m, matches!(result, Ok(Some(_))));
    }
    result
}

fn data() -> Packet {
    Packet::new(Payload::from_slice(b"data"))
}

#[test]
fn runs_a_linear_graph_to_the_exit() {
    let mut graph = FlowGraph::new();
    let a = node("source", NodeType::Source);
    let b = node("transformer", NodeType::Transformer);
    let c = node("sink", NodeType::Sink);
    let (a_id, b_id, c_id) = (a.id(), b.id(), c.id());
    graph.add_node(a);
    graph.add_node(b);
    graph.add_node(c);
    graph.connect(Edge::new(a_id, b_id, EdgeType::Sequential, None)).unwrap();
    graph.connect(Edge::new(b_id, c_id, EdgeType::Sequential, None)).unwrap();

    let pkt = Packet::new(Payload::from_slice(b"hello"));
    let id = pkt.id();
    let result = run(&graph, a_id, pkt, |_| Stub::Pass, None).unwrap();
    assert_eq!(result.unwrap().id(), id);
}

#[test]
fn absorbed_packet_returns_none() {
    let mut graph = FlowGraph::new();
    let a = node("source", NodeType::Source);
    let b = node("filter", NodeType::Filter);
    let c = node("sink", NodeType::Sink);
    let (a_id, b_id, c_id) = (a.id(), b.id(), c.id());
    graph.add_node(a);
    graph.add_node(b);
    graph.add_node(c);
    graph.connect(Edge::new(a_id, b_id, EdgeType::Sequential, None)).unwrap();
    graph.connect(Edge::new(b_id, c_id, EdgeType::Sequential, None)).unwrap();

    let result = run(&graph, a_id, data(), |id| if id == b_id { Stub::Absorb } else { Stub::Pass }, None).unwrap();
    assert!(result.is_none());
}

#[test]
fn dead_end_before_exit_is_an_error() {
    let mut graph = FlowGraph::new();
    let a = node("source", NodeType::Source);
    let b = node("dangling", NodeType::Transformer);
    let (a_id, b_id) = (a.id(), b.id());
    graph.add_node(a);
    graph.add_node(b);
    graph.connect(Edge::new(a_id, b_id, EdgeType::Sequential, None)).unwrap();

    let result = run(&graph, a_id, data(), |_| Stub::Pass, None);
    assert!(matches!(result, Err(ExecutionError::Graph(GraphError::BuildFailed { .. }))));
}

#[test]
fn rejects_non_entry_point() {
    let mut graph = FlowGraph::new();
    let a = node("transformer", NodeType::Transformer);
    let a_id = a.id();
    graph.add_node(a);

    let result = run(&graph, a_id, data(), |_| Stub::Pass, None);
    assert!(matches!(result, Err(ExecutionError::Graph(GraphError::MissingNode { .. }))));
}

#[test]
fn flow_metrics_count_an_errored_traversal_as_dropped() {
    let mut graph = FlowGraph::new();
    let a = node("slow", NodeType::Source);
    let a_id = a.id();
    graph.mark_exit_point(a_id);
    graph.add_node(a);

    let mut metrics = MetricRegistry::new();
    let slow = Stub::Slow { budget_nanos: 1_000_000, took_nanos: 50_000_000 };
    let result = run(&graph, a_id, data(), |_| slow, Some(&mut metrics));
    assert!(result.is_err());

    assert_eq!(metrics.counter("flow", "packets_total").value(), 1);
    assert_eq!(metrics.counter("flow", "packets_dropped").value(), 1);
}

#[test]
fn throughput_tracker_is_called_on_each_execution() {
    let mut graph = FlowGraph::new();
    let a = node("source", NodeType::Source);
    let a_id = a.id();
    graph.mark_exit_point(a_id);
    graph.add_node(a);

    let mut tracker = ThroughputTracker::new();
    let pkt = Packet::new(Payload::from_slice(b"hello"));
    let flow_id = pkt.metadata().flow_id;
    tracker.record(flow_id, pkt.len() as u64, 1_000);

    let result = run(&graph, a_id, pkt, |_| Stub::Pass, None).unwrap();
    assert!(result.is_some());

    let (bytes, span) = tracker.flow_stats(flow_id).unwrap();
    assert_eq!((bytes, span), (5, 0));
    let rate = bytes as f64 / (tracker.window() as f64 / 1e9);
    assert_eq!(rate > 0.0, true);
}

#[test]
fn single_record_is_not_zero() {
    let mut tracker = ThroughputTracker::new();
    tracker.record(nyarix::base::id::FlowId::new(), 10_000, 1_000_000);
    let (bytes, _span) = tracker.total_stats();
    assert!(bytes as f64 / (tracker.window() as f64 / 1e9) > 0.0);
}

#[test]
fn per_node_metrics_count_errors_when_process_fails() {
    let mut graph = FlowGraph::new();
    let a = node("failing", NodeType::Source);
    let a_id = a.id();
    graph.mark_exit_point(a_id);
    graph.add_node(a);

    // The module's `process` fails: the runtime records the call as a
    // failed one and the run ends with the module's error.
    let mut metrics = MetricRegistry::new();
    assert!(check_entry(&graph, a_id).is_ok());
    record_node_metrics(&mut metrics, "failing", 0, false);

    assert_eq!(metrics.counter("failing", "process_calls_total").value(), 1);
    assert_eq!(metrics.counter("failing", "errors_total").value(), 1);
}

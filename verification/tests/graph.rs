use nyarix::base::id::NodeId;
use nyarix::errors::GraphError;
use nyarix::graph::condition::Condition;
use nyarix::graph::edge::{Edge, EdgeType};
use nyarix::graph::execution::{
    branch_step, check_entry, check_payload_limit, check_processing_time, next_hop, record_flow_entry,
    record_flow_exit, record_node_metrics, Branch, ExecutionError, Hop,
};
use nyarix::graph::export::export_graph;
use nyarix::graph::flow::FlowGraph;
use nyarix::graph::node::{GraphNode, NodeConfig, NodeState};
use nyarix::graph::queue::{lane_for, Lane};
use nyarix::graph::throughput::{prune_window, window_stats, ThroughputTracker, DEFAULT_WINDOW};
use nyarix::module_api::metrics::MetricRegistry;
use nyarix::module_api::node::NodeType;
use nyarix::module_api::resource_limits::ResourceLimits;
use nyarix::packet::packet::Packet;
use nyarix::packet::payload::Payload;
use nyarix::packet::tags::Tag;

fn node(name: &str, node_type: NodeType) -> GraphNode {
    GraphNode::new(NodeId::new(), node_type, name, NodeConfig::default())
}

fn packet() -> Packet {
    Packet::new(Payload::from_slice(b"data"))
}

#[test]
fn has_tag_matches() {
    let mut pkt = packet();
    pkt.tag(Tag::Interactive);
    assert!(Condition::HasTag(Tag::Interactive).evaluate(&pkt));
    assert!(!Condition::HasTag(Tag::Bulk).evaluate(&pkt));
}

#[test]
fn priority_at_least() {
    let mut pkt = packet();
    pkt.metadata_mut().priority = 200;
    assert!(Condition::PriorityAtLeast(128).evaluate(&pkt));
    assert!(!Condition::PriorityAtLeast(255).evaluate(&pkt));
}

#[test]
fn not_negates() {
    let pkt = packet();
    assert!(Condition::Not(Box::new(Condition::HasTag(Tag::Interactive))).evaluate(&pkt));
}

#[test]
fn all_requires_every_condition() {
    let mut pkt = packet();
    pkt.tag(Tag::Interactive);
    pkt.metadata_mut().priority = 200;
    let condition = Condition::All(vec![
        Condition::HasTag(Tag::Interactive),
        Condition::PriorityAtLeast(128),
    ]);
    assert!(condition.evaluate(&pkt));
    let unmet = Condition::All(vec![
        Condition::HasTag(Tag::Interactive),
        Condition::HasTag(Tag::Bulk),
    ]);
    assert!(!unmet.evaluate(&pkt));
}

#[test]
fn any_requires_one_condition() {
    let mut pkt = packet();
    pkt.tag(Tag::Bulk);
    let condition = Condition::Any(vec![
        Condition::HasTag(Tag::Interactive),
        Condition::HasTag(Tag::Bulk),
    ]);
    assert!(condition.evaluate(&pkt));
}

#[test]
fn unconditional_edge_accepts_everything() {
    let edge = Edge::new(NodeId::new(), NodeId::new(), EdgeType::Sequential, None);
    let pkt = packet();
    assert!(edge.accepts(&pkt));
}

#[test]
fn conditional_edge_respects_condition() {
    let edge = Edge::new(
        NodeId::new(),
        NodeId::new(),
        EdgeType::Conditional,
        Some(Condition::HasTag(Tag::Interactive)),
    );
    let plain = packet();
    assert!(!edge.accepts(&plain));
    let mut tagged = packet();
    tagged.tag(Tag::Interactive);
    assert!(edge.accepts(&tagged));
}

#[test]
fn edge_queue_state_starts_empty_and_counts_drops() {
    let mut edge = Edge::new(NodeId::new(), NodeId::new(), EdgeType::Sequential, None);
    assert_eq!(edge.queue_depth(), 0);
    assert_eq!(edge.dropped_count(), 0);
    edge.set_queue_depth(3);
    edge.record_drop();
    edge.record_drop();
    assert_eq!(edge.queue_depth(), 3);
    assert_eq!(edge.dropped_count(), 2);
}

#[test]
fn node_type_is_derived_from_module() {
    let node = GraphNode::new(NodeId::new(), NodeType::Router, "router", NodeConfig::default());
    assert_eq!(node.node_type(), NodeType::Router);
}

#[test]
fn starts_uninitialized() {
    let node = GraphNode::new(NodeId::new(), NodeType::Router, "router", NodeConfig::default());
    assert_eq!(node.state(), NodeState::Uninitialized);
}

#[test]
fn set_state_updates_state() {
    let mut node = GraphNode::new(NodeId::new(), NodeType::Router, "router", NodeConfig::default());
    node.set_state(NodeState::Running);
    assert_eq!(node.state(), NodeState::Running);
    node.set_state(NodeState::Degraded);
    assert_eq!(node.state(), NodeState::Degraded);
}

#[test]
fn default_queue_capacity_matches_global_default() {
    let config = NodeConfig::default();
    assert_eq!(config.queue_capacity, 256);
}

#[test]
fn add_node_registers_source_as_entry_point() {
    let mut graph = FlowGraph::new();
    let source = node("source", NodeType::Source);
    let id = source.id();

    graph.add_node(source);

    assert_eq!(graph.node_count(), 1);
    assert_eq!(graph.entry_points(), &[id]);
    assert!(graph.exit_points().is_empty());
}

#[test]
fn add_node_registers_sink_as_exit_point() {
    let mut graph = FlowGraph::new();
    let sink = node("sink", NodeType::Sink);
    let id = sink.id();

    graph.add_node(sink);

    assert_eq!(graph.exit_points(), &[id]);
    assert!(graph.entry_points().is_empty());
}

#[test]
fn connect_fails_for_missing_node() {
    let mut graph = FlowGraph::new();
    let a = node("a", NodeType::Source);
    let a_id = a.id();
    graph.add_node(a);

    let edge = Edge::new(a_id, NodeId::new(), EdgeType::Sequential, None);
    assert!(graph.connect(edge).is_err());
}

#[test]
fn connect_succeeds_between_existing_nodes() {
    let mut graph = FlowGraph::new();
    let a = node("a", NodeType::Source);
    let b = node("b", NodeType::Sink);
    let (a_id, b_id) = (a.id(), b.id());
    graph.add_node(a);
    graph.add_node(b);

    let edge = Edge::new(a_id, b_id, EdgeType::Sequential, None);
    graph.connect(edge).unwrap();

    assert_eq!(graph.edge_count(), 1);
    assert_eq!(graph.find_path(a_id, b_id), Some(vec![a_id, b_id]));
}

#[test]
fn find_path_across_multiple_hops() {
    let mut graph = FlowGraph::new();
    let a = node("a", NodeType::Source);
    let b = node("b", NodeType::Transformer);
    let c = node("c", NodeType::Sink);
    let (a_id, b_id, c_id) = (a.id(), b.id(), c.id());
    graph.add_node(a);
    graph.add_node(b);
    graph.add_node(c);

    graph.connect(Edge::new(a_id, b_id, EdgeType::Sequential, None)).unwrap();
    graph.connect(Edge::new(b_id, c_id, EdgeType::Sequential, None)).unwrap();

    assert_eq!(graph.find_path(a_id, c_id), Some(vec![a_id, b_id, c_id]));
}

#[test]
fn find_path_prefers_the_shortest_route() {
    let mut graph = FlowGraph::new();
    let a = node("a", NodeType::Source);
    let b = node("b", NodeType::Transformer);
    let c = node("c", NodeType::Transformer);
    let d = node("d", NodeType::Sink);
    let (a_id, b_id, c_id, d_id) = (a.id(), b.id(), c.id(), d.id());
    graph.add_node(a);
    graph.add_node(b);
    graph.add_node(c);
    graph.add_node(d);
    graph.connect(Edge::new(a_id, b_id, EdgeType::Sequential, None)).unwrap();
    graph.connect(Edge::new(b_id, c_id, EdgeType::Sequential, None)).unwrap();
    graph.connect(Edge::new(c_id, d_id, EdgeType::Sequential, None)).unwrap();
    graph.connect(Edge::new(a_id, d_id, EdgeType::Fallback, None)).unwrap();

    assert_eq!(graph.find_path(a_id, d_id), Some(vec![a_id, d_id]));
    assert_eq!(graph.find_path(a_id, a_id), Some(vec![a_id]));
    assert_eq!(graph.find_path(d_id, a_id), None);
}

#[test]
fn find_path_returns_none_when_unreachable() {
    let mut graph = FlowGraph::new();
    let a = node("a", NodeType::Source);
    let b = node("b", NodeType::Sink);
    let (a_id, b_id) = (a.id(), b.id());
    graph.add_node(a);
    graph.add_node(b);

    assert_eq!(graph.find_path(a_id, b_id), None);
}

#[test]
fn disconnect_removes_edge() {
    let mut graph = FlowGraph::new();
    let a = node("a", NodeType::Source);
    let b = node("b", NodeType::Sink);
    let (a_id, b_id) = (a.id(), b.id());
    graph.add_node(a);
    graph.add_node(b);

    graph.connect(Edge::new(a_id, b_id, EdgeType::Sequential, None)).unwrap();
    assert!(graph.disconnect(a_id, b_id).is_some());
    assert_eq!(graph.edge_count(), 0);
    assert_eq!(graph.find_path(a_id, b_id), None);
}

#[test]
fn remove_node_cleans_up_edges_and_entry_points() {
    let mut graph = FlowGraph::new();
    let a = node("a", NodeType::Source);
    let b = node("b", NodeType::Sink);
    let (a_id, b_id) = (a.id(), b.id());
    graph.add_node(a);
    graph.add_node(b);

    graph.connect(Edge::new(a_id, b_id, EdgeType::Sequential, None)).unwrap();

    graph.remove_node(a_id);

    assert_eq!(graph.node_count(), 1);
    assert_eq!(graph.edge_count(), 0);
    assert!(graph.entry_points().is_empty());
    assert!(graph.node(a_id).is_none());
}

#[test]
fn valid_linear_graph_passes_validation() {
    let mut graph = FlowGraph::new();
    let a = node("source", NodeType::Source);
    let b = node("sink", NodeType::Sink);
    let (a_id, b_id) = (a.id(), b.id());
    graph.add_node(a);
    graph.add_node(b);

    graph.connect(Edge::new(a_id, b_id, EdgeType::Sequential, None)).unwrap();

    assert!(graph.detect_cycle().is_none());
    assert!(graph.validate().is_ok());
}

#[test]
fn detects_a_cycle() {
    let mut graph = FlowGraph::new();
    let a = node("router", NodeType::Router);
    let b = node("fragmenter", NodeType::Transformer);
    let c = node("compressor", NodeType::Transformer);
    let (a_id, b_id, c_id) = (a.id(), b.id(), c.id());
    graph.add_node(a);
    graph.add_node(b);
    graph.add_node(c);

    graph.connect(Edge::new(a_id, b_id, EdgeType::Sequential, None)).unwrap();
    graph.connect(Edge::new(b_id, c_id, EdgeType::Sequential, None)).unwrap();
    graph.connect(Edge::new(c_id, a_id, EdgeType::Sequential, None)).unwrap();

    let valid_descriptions = [
        "router → fragmenter → compressor → router",
        "fragmenter → compressor → router → fragmenter",
        "compressor → router → fragmenter → compressor",
    ];

    let cycle = graph.detect_cycle().expect("cycle should be detected");
    let description = graph.describe_cycle(&cycle);
    assert!(
        valid_descriptions.contains(&description.as_str()),
        "unexpected cycle description: {description}"
    );

    match graph.validate() {
        Err(GraphError::Cycle { cycle }) => assert_eq!(cycle, description),
        other => panic!("expected Cycle error, got {other:?}"),
    }
}

#[test]
fn allowed_feedback_edge_is_not_a_cycle() {
    let mut graph = FlowGraph::new();
    let a = node("source", NodeType::Source);
    let b = node("loop-node", NodeType::Transformer);
    let c = node("sink", NodeType::Sink);
    let (a_id, b_id, c_id) = (a.id(), b.id(), c.id());
    graph.add_node(a);
    graph.add_node(b);
    graph.add_node(c);

    graph.connect(Edge::new(a_id, b_id, EdgeType::Sequential, None)).unwrap();
    graph.connect(Edge::new(b_id, c_id, EdgeType::Sequential, None)).unwrap();
    graph.connect(Edge::new(b_id, b_id, EdgeType::Fallback, None)).unwrap();

    assert!(graph.detect_cycle().is_some());

    graph.allow_feedback_edge(b_id, b_id);
    assert!(graph.detect_cycle().is_none());
    assert!(graph.validate().is_ok());
}

#[test]
fn validate_rejects_unreachable_exit() {
    let mut graph = FlowGraph::new();
    let a = node("source", NodeType::Source);
    let b = node("sink", NodeType::Sink);
    graph.add_node(a);
    graph.add_node(b);

    match graph.validate() {
        Err(GraphError::BuildFailed { .. }) => {}
        other => panic!("expected BuildFailed error, got {other:?}"),
    }
}

#[test]
fn validate_rejects_orphan_node() {
    let mut graph = FlowGraph::new();
    let a = node("source", NodeType::Source);
    let b = node("sink", NodeType::Sink);
    let orphan = node("orphan", NodeType::Observer);
    let (a_id, b_id) = (a.id(), b.id());
    graph.add_node(a);
    graph.add_node(b);
    graph.add_node(orphan);

    graph.connect(Edge::new(a_id, b_id, EdgeType::Sequential, None)).unwrap();

    match graph.validate() {
        Err(GraphError::BuildFailed { reason }) => assert!(reason.contains("orphan")),
        other => panic!("expected BuildFailed error, got {other:?}"),
    }
}

fn linear_graph() -> (FlowGraph, NodeId, NodeId) {
    let mut graph = FlowGraph::new();
    let a = node("a", NodeType::Transformer);
    let b = node("b", NodeType::Transformer);
    let (a_id, b_id) = (a.id(), b.id());
    graph.add_node(a);
    graph.add_node(b);
    graph.mark_entry_point(a_id);
    graph.mark_exit_point(b_id);
    graph.connect(Edge::new(a_id, b_id, EdgeType::Sequential, None)).unwrap();
    (graph, a_id, b_id)
}

#[test]
fn export_includes_every_node_and_edge() {
    let (graph, a_id, b_id) = linear_graph();
    let export = export_graph(&graph, None);

    assert_eq!(export.nodes.len(), 2);
    assert_eq!(export.edges.len(), 1);
    assert_eq!(export.edges[0].from, a_id.to_string());
    assert_eq!(export.edges[0].to, b_id.to_string());
}

#[test]
fn export_marks_entry_and_exit_points() {
    let (graph, a_id, b_id) = linear_graph();
    let export = export_graph(&graph, None);

    let a = export.nodes.iter().find(|n| n.id == a_id.to_string()).unwrap();
    let b = export.nodes.iter().find(|n| n.id == b_id.to_string()).unwrap();
    assert!(a.is_entry);
    assert!(!a.is_exit);
    assert!(b.is_exit);
    assert!(!b.is_entry);
}

#[test]
fn export_has_no_metrics_without_a_registry() {
    let (graph, _a_id, _b_id) = linear_graph();
    let export = export_graph(&graph, None);
    assert!(export.nodes.iter().all(|n| n.metrics.is_none()));
}

#[test]
fn export_includes_metrics_when_recorded() {
    let (graph, _a_id, _b_id) = linear_graph();
    let mut metrics = MetricRegistry::new();
    metrics.counter("a", "process_calls_total").increment(5);
    metrics.gauge("a", "queue_depth").set(2);

    let export = export_graph(&graph, Some(&metrics));

    let a = export.nodes.iter().find(|n| n.name == "a").unwrap();
    let b = export.nodes.iter().find(|n| n.name == "b").unwrap();
    let a_metrics = a.metrics.as_ref().unwrap();
    assert_eq!(a_metrics.process_calls_total, 5);
    assert_eq!(a_metrics.errors_total, 0);
    assert_eq!(a_metrics.queue_depth, 2);
    assert!(b.metrics.is_none());
}

#[test]
fn to_dot_includes_every_node_and_edge() {
    let (graph, _a_id, _b_id) = linear_graph();
    let export = export_graph(&graph, None);
    let dot = export.to_dot();

    assert!(dot.starts_with("digraph FlowGraph {"));
    assert!(dot.contains('a'));
    assert!(dot.contains('b'));
    assert!(dot.contains("->"));
    assert!(dot.contains("doublecircle"));
    assert!(dot.contains("square"));
}

#[test]
fn to_dot_renders_the_exact_statements() {
    let (graph, a_id, b_id) = linear_graph();
    let dot = export_graph(&graph, None).to_dot();
    let expected = format!(
        "digraph FlowGraph {{\n  \"{a}\" [label=\"a\\nTransformer\\nUninitialized\", shape=doublecircle];\n  \"{b}\" [label=\"b\\nTransformer\\nUninitialized\", shape=square];\n  \"{a}\" -> \"{b}\" [label=\"Sequential\"];\n}}\n",
        a = a_id.to_string(),
        b = b_id.to_string()
    );
    assert_eq!(dot, expected);
}

#[test]
fn a_packet_may_enter_only_at_an_entry_point() {
    let (graph, a_id, b_id) = linear_graph();
    assert!(check_entry(&graph, a_id).is_ok());
    match check_entry(&graph, b_id) {
        Err(ExecutionError::Graph(GraphError::MissingNode { node_id })) => assert_eq!(node_id, b_id.to_string()),
        other => panic!("expected MissingNode, got {other:?}"),
    }
}

#[test]
fn next_hop_follows_the_first_accepting_edge_and_stops_at_an_exit() {
    let (graph, a_id, b_id) = linear_graph();
    let pkt = packet();
    assert_eq!(next_hop(&graph, a_id, &pkt), Ok(Hop::Next(b_id)));
    assert_eq!(next_hop(&graph, b_id, &pkt), Ok(Hop::Exit));
}

#[test]
fn next_hop_reports_a_dead_end() {
    let mut graph = FlowGraph::new();
    let a = node("a", NodeType::Transformer);
    let b = node("b", NodeType::Transformer);
    let (a_id, b_id) = (a.id(), b.id());
    graph.add_node(a);
    graph.add_node(b);
    graph.mark_entry_point(a_id);
    graph.mark_exit_point(b_id);
    graph.connect(Edge::new(a_id, b_id, EdgeType::Conditional, Some(Condition::HasTag(Tag::Control)))).unwrap();

    match next_hop(&graph, a_id, &packet()) {
        Err(ExecutionError::Graph(GraphError::BuildFailed { reason })) => {
            assert!(reason.starts_with(&format!("node {} has no outgoing edge", a_id.to_string())));
            assert!(reason.ends_with("run FlowGraph::validate() first"));
        }
        other => panic!("expected BuildFailed, got {other:?}"),
    }
    let mut control = packet();
    control.tag(Tag::Control);
    assert_eq!(next_hop(&graph, a_id, &control), Ok(Hop::Next(b_id)));
}

#[test]
fn branch_step_forks_along_accepting_parallel_edges() {
    let mut graph = FlowGraph::new();
    let a = node("a", NodeType::Transformer);
    let b = node("b", NodeType::Transformer);
    let c = node("c", NodeType::Transformer);
    let d = node("d", NodeType::Transformer);
    let (a_id, b_id, c_id, d_id) = (a.id(), b.id(), c.id(), d.id());
    graph.add_node(a);
    graph.add_node(b);
    graph.add_node(c);
    graph.add_node(d);
    graph.connect(Edge::new(a_id, d_id, EdgeType::Sequential, None)).unwrap();
    graph.connect(Edge::new(a_id, b_id, EdgeType::Parallel, None)).unwrap();
    graph.connect(Edge::new(a_id, c_id, EdgeType::Parallel, None)).unwrap();
    graph.mark_exit_point(d_id);

    assert_eq!(branch_step(&graph, a_id, &packet()), Ok(Branch::Fork(vec![b_id, c_id])));
    assert_eq!(branch_step(&graph, d_id, &packet()), Ok(Branch::Exit));
    assert!(branch_step(&graph, b_id, &packet()).is_err());
}

#[test]
fn branch_step_continues_along_the_first_accepting_edge_without_parallel_ones() {
    let (graph, a_id, b_id) = linear_graph();
    assert_eq!(branch_step(&graph, a_id, &packet()), Ok(Branch::Continue(b_id)));
}

#[test]
fn an_oversized_payload_is_rejected_before_reaching_the_module() {
    let limits = ResourceLimits { max_payload_bytes: Some(4), ..ResourceLimits::unbounded() };
    match check_payload_limit("limited", &limits, 16) {
        Err(ExecutionError::Module(nyarix::errors::ModuleError::QuotaExceeded { name, resource })) => {
            assert_eq!(name, "limited");
            assert_eq!(resource, "payload_size");
        }
        other => panic!("expected QuotaExceeded, got {other:?}"),
    }
}

#[test]
fn a_payload_within_the_limit_is_processed_normally() {
    let limits = ResourceLimits { max_payload_bytes: Some(4), ..ResourceLimits::unbounded() };
    assert!(check_payload_limit("limited", &limits, 4).is_ok());
    assert!(check_payload_limit("limited", &ResourceLimits::unbounded(), usize::MAX).is_ok());
}

#[test]
fn a_node_that_overruns_its_processing_budget_is_reported_as_quota_exceeded() {
    let limits = ResourceLimits { max_processing_time: Some(10_000_000), ..ResourceLimits::unbounded() };
    match check_processing_time("slow", &limits, 50_000_000) {
        Err(ExecutionError::Module(nyarix::errors::ModuleError::QuotaExceeded { name, resource })) => {
            assert_eq!(name, "slow");
            assert_eq!(resource, "processing_time");
        }
        other => panic!("expected QuotaExceeded, got {other:?}"),
    }
}

#[test]
fn a_node_within_its_processing_budget_is_not_rejected() {
    let limits = ResourceLimits { max_processing_time: Some(1_000_000_000), ..ResourceLimits::unbounded() };
    assert!(check_processing_time("fast", &limits, 1_000).is_ok());
}

#[test]
fn per_node_metrics_are_recorded_when_a_registry_is_attached() {
    let mut metrics = MetricRegistry::new();
    record_node_metrics(&mut metrics, "a", 3, true);
    record_node_metrics(&mut metrics, "a", 1, false);
    assert_eq!(metrics.get_counter("a", "process_calls_total").unwrap().value(), 2);
    assert_eq!(metrics.get_counter("a", "errors_total").unwrap().value(), 1);
    assert_eq!(metrics.get_gauge("a", "queue_depth").unwrap().value(), 1);
}

#[test]
fn flow_metrics_count_a_successful_traversal() {
    let mut metrics = MetricRegistry::new();
    record_flow_entry(&mut metrics, 4);
    record_flow_exit(&mut metrics, true);
    assert_eq!(metrics.get_counter("flow", "packets_total").unwrap().value(), 1);
    assert_eq!(metrics.get_counter("flow", "bytes_total").unwrap().value(), 4);
    assert!(metrics.get_counter("flow", "packets_dropped").is_none());
}

#[test]
fn flow_metrics_count_an_absorbed_packet_as_dropped() {
    let mut metrics = MetricRegistry::new();
    record_flow_entry(&mut metrics, 4);
    record_flow_exit(&mut metrics, false);
    assert_eq!(metrics.get_counter("flow", "packets_dropped").unwrap().value(), 1);
}

#[test]
fn untagged_packet_routes_to_bulk_not_control() {
    assert_eq!(lane_for(&packet()), Lane::Bulk);
    let mut control = packet();
    control.tag(Tag::Control);
    control.tag(Tag::Interactive);
    assert_eq!(lane_for(&control), Lane::Control);
    let mut interactive = packet();
    interactive.tag(Tag::Interactive);
    assert_eq!(lane_for(&interactive), Lane::Interactive);
}

#[test]
fn empty_tracker_returns_zero() {
    let tracker = ThroughputTracker::new();
    assert_eq!(tracker.total_stats(), (0, 0));
    assert_eq!(tracker.flow_stats(nyarix::base::id::FlowId::new()), None);
}

#[test]
fn per_flow_isolation() {
    let mut tracker = ThroughputTracker::new();
    let flow_a = nyarix::base::id::FlowId::new();
    let flow_b = nyarix::base::id::FlowId::new();
    tracker.record(flow_a, 1_000, 10);
    tracker.record(flow_b, 3_000, 20);

    assert_eq!(tracker.flow_stats(flow_a), Some((1_000, 0)));
    assert_eq!(tracker.flow_stats(flow_b), Some((3_000, 0)));
    assert_eq!(tracker.total_stats(), (4_000, 10));
}

#[test]
fn zero_bytes_is_still_recorded() {
    let mut tracker = ThroughputTracker::new();
    let flow = nyarix::base::id::FlowId::new();
    tracker.record(flow, 0, 5);
    assert_eq!(tracker.flow_stats(flow), Some((0, 0)));
}

#[test]
fn records_older_than_the_window_are_dropped() {
    let mut tracker = ThroughputTracker::new().with_window(100);
    let flow = nyarix::base::id::FlowId::new();
    tracker.record(flow, 7, 0);
    tracker.record(flow, 9, 50);
    assert_eq!(tracker.total_stats(), (16, 50));
    tracker.record(flow, 11, 160);
    assert_eq!(tracker.total_stats(), (11, 0));
    assert_eq!(tracker.flow_stats(flow), Some((11, 0)));
    assert_eq!(DEFAULT_WINDOW, 5_000_000_000);

    let mut window = vec![(1u128, 1u64), (2, 2), (5, 5), (3, 3)];
    prune_window(&mut window, 3);
    assert_eq!(window, vec![(5, 5), (3, 3)]);
    assert_eq!(window_stats(&window), (8, 0));
}

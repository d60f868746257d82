//! Snapshots of a flow graph's shape for visualization: every node with
//! its role, state and recorded metrics, every edge with its queue, and
//! their Graphviz DOT rendering.

use vstd::prelude::*;
use crate::base::id::{spec_uuid_text, NodeId};
use crate::graph::edge::{spec_edge_type_name, Edge, EdgeType};
use crate::graph::flow::{edges_leaving, id_views, FlowGraph};
use crate::graph::node::{spec_node_state_name, GraphNode, NodeState};
use crate::module_api::metrics::{spec_metric_name, MetricRegistry};
use crate::module_api::node::{spec_node_type_name, NodeType};
use crate::text::push_str;

verus! {

/// The per-node metrics recorded for one node.
#[derive(Debug, Clone, Copy, PartialEq, Eq, Structural)]
pub struct NodeMetricsExport {
    /// Calls of the node's `process`.
    pub process_calls_total: u64,
    /// Errors the node's `process` returned.
    pub errors_total: u64,
    /// The node's input queue depth.
    pub queue_depth: i64,
}

/// One node of a `GraphExport`.
#[derive(Debug, Clone, PartialEq)]
pub struct NodeExport {
    /// The node's identifier as text.
    pub id: String,
    /// The name of the node's module.
    pub name: String,
    /// The node's role in the graph.
    pub node_type: NodeType,
    /// The node's lifecycle state.
    pub state: NodeState,
    /// Whether the node is an entry point.
    pub is_entry: bool,
    /// Whether the node is an exit point.
    pub is_exit: bool,
    /// The node's recorded metrics, where a registry was given and holds
    /// any of them.
    pub metrics: Option<NodeMetricsExport>,
}

/// One edge of a `GraphExport`.
#[derive(Debug, Clone, PartialEq)]
pub struct EdgeExport {
    /// The source node's identifier as text.
    pub from: String,
    /// The destination node's identifier as text.
    pub to: String,
    /// How the edge routes packets.
    pub edge_type: EdgeType,
    /// Packets waiting in the edge's queue.
    pub queue_depth: usize,
    /// Packets the edge's queue dropped so far.
    pub dropped_count: u64,
}

/// A snapshot of a graph's nodes and edges.
#[derive(Debug, Clone, PartialEq)]
pub struct GraphExport {
    /// Every node, in the order added.
    pub nodes: Vec<NodeExport>,
    /// Every edge, grouped by source node in the nodes' order.
    pub edges: Vec<EdgeExport>,
}

/// The metrics recorded for the module `name`: `None` where none of the
/// three was ever recorded, otherwise each value or zero.
pub open spec fn spec_node_metrics(reg: MetricRegistry, name: Seq<char>) -> Option<NodeMetricsExport> {
    let calls = reg.counter_value(spec_metric_name(name, "process_calls_total"@));
    let errors = reg.counter_value(spec_metric_name(name, "errors_total"@));
    let depth = reg.gauge_value(spec_metric_name(name, "queue_depth"@));
    if calls is None && errors is None && depth is None {
        None
    } else {
        Some(
            NodeMetricsExport {
                process_calls_total: match calls {
                    Some(v) => v,
                    None => 0,
                },
                errors_total: match errors {
                    Some(v) => v,
                    None => 0,
                },
                queue_depth: match depth {
                    Some(v) => v,
                    None => 0,
                },
            },
        )
    }
}

/// Whether `x` is the export of node `n`.
pub open spec fn node_export_of(
    x: NodeExport,
    n: GraphNode,
    entries: Seq<u128>,
    exits: Seq<u128>,
    reg: Option<MetricRegistry>,
) -> bool {
    &&& x.id@ == spec_uuid_text(n.id_view())
    &&& x.name@ == n.name_view()
    &&& x.node_type == n.type_view()
    &&& x.state == n.state_view()
    &&& x.is_entry == entries.contains(n.id_view())
    &&& x.is_exit == exits.contains(n.id_view())
    &&& x.metrics == match reg {
        Some(r) => spec_node_metrics(r, n.name_view()),
        None => None,
    }
}

/// Whether `x` is the export of edge `e`.
pub open spec fn edge_export_of(x: EdgeExport, e: Edge) -> bool {
    &&& x.from@ == spec_uuid_text(e.from_view())
    &&& x.to@ == spec_uuid_text(e.to_view())
    &&& x.edge_type == e.type_view()
    &&& x.queue_depth == e.depth_view()
    &&& x.dropped_count == e.dropped_view()
}

/// The edges of `es` grouped by source, the sources taken in the order
/// of `ids`.
pub open spec fn edges_by_source(es: Seq<Edge>, ids: Seq<u128>) -> Seq<Edge>
    decreases ids.len(),
{
    if ids.len() == 0 {
        Seq::empty()
    } else {
        edges_by_source(es, ids.drop_last()) + edges_leaving(es, ids.last())
    }
}

/// How many times `x` occurs in `ids`.
pub open spec fn count_of(ids: Seq<u128>, x: u128) -> nat
    decreases ids.len(),
{
    if ids.len() == 0 {
        0
    } else {
        count_of(ids.drop_last(), x) + if ids.last() == x { 1nat } else { 0nat }
    }
}

proof fn lemma_leaving_empty(es: Seq<Edge>, ids: Seq<u128>)
    requires
        es.len() == 0,
    ensures
        edges_by_source(es, ids).len() == 0,
    decreases ids.len(),
{
    if ids.len() > 0 {
        lemma_leaving_empty(es, ids.drop_last());
    }
}

proof fn lemma_by_source_last_edge(es: Seq<Edge>, ids: Seq<u128>)
    requires
        es.len() > 0,
    ensures
        edges_by_source(es, ids).len() == edges_by_source(es.drop_last(), ids).len() + count_of(
            ids,
            es.last().from_view(),
        ),
    decreases ids.len(),
{
    if ids.len() > 0 {
        lemma_by_source_last_edge(es, ids.drop_last());
    }
}

proof fn lemma_count_distinct(ids: Seq<u128>, x: u128)
    requires
        forall|a: int, b: int| 0 <= a < b < ids.len() ==> ids[a] != ids[b],
    ensures
        count_of(ids, x) == if ids.contains(x) { 1nat } else { 0nat },
    decreases ids.len(),
{
    if ids.len() > 0 {
        let init = ids.drop_last();
        lemma_count_distinct(init, x);
        if init.contains(x) {
            let k = choose|k: int| 0 <= k < init.len() && init[k] == x;
            assert(ids[k] == x);
            assert(ids.last() != x) by {
                assert(ids[k] != ids[ids.len() - 1]);
            }
        }
        if ids.contains(x) && !init.contains(x) {
            let k = choose|k: int| 0 <= k < ids.len() && ids[k] == x;
            if k < ids.len() - 1 {
                assert(init[k] == x);
            }
        }
        if init.contains(x) {
            let k = choose|k: int| 0 <= k < init.len() && init[k] == x;
            assert(ids[k] == x);
        }
    }
}

/// Grouping the edges by source keeps every edge whose source is one of
/// the (distinct) `ids`, once.
proof fn lemma_by_source_len(es: Seq<Edge>, ids: Seq<u128>)
    requires
        forall|a: int, b: int| 0 <= a < b < ids.len() ==> ids[a] != ids[b],
        forall|j: int| 0 <= j < es.len() ==> ids.contains(#[trigger] es[j].from_view()),
    ensures
        edges_by_source(es, ids).len() == es.len(),
    decreases es.len(),
{
    if es.len() == 0 {
        lemma_leaving_empty(es, ids);
    } else {
        let init = es.drop_last();
        assert forall|j: int| 0 <= j < init.len() implies ids.contains(#[trigger] init[j].from_view()) by {
            assert(init[j] == es[j]);
        }
        lemma_by_source_len(init, ids);
        lemma_by_source_last_edge(es, ids);
        assert(ids.contains(es[es.len() - 1].from_view()));
        lemma_count_distinct(ids, es.last().from_view());
    }
}

fn lists(list: &[NodeId], id: NodeId) -> (r: bool)
    ensures
        r == id_views(list@).contains(id@),
{
    let mut i: usize = 0;
    while i < list.len()
        invariant
            i <= list@.len(),
            forall|j: int| 0 <= j < i ==> (#[trigger] list@[j])@ != id@,
        decreases list@.len() - i,
    {
        if list[i].same_as(&id) {
            assert(id_views(list@)[i as int] == id@);
            return true;
        }
        i += 1;
    }
    proof {
        if id_views(list@).contains(id@) {
            let j = choose|j: int| 0 <= j < id_views(list@).len() && id_views(list@)[j] == id@;
            assert(list@[j]@ == id@);
        }
    }
    false
}

fn node_metrics_export(registry: &MetricRegistry, name: &str) -> (r: Option<NodeMetricsExport>)
    requires
        registry.wf(),
    ensures
        r == spec_node_metrics(*registry, name@),
{
    let calls = registry.get_counter(name, "process_calls_total");
    let errors = registry.get_counter(name, "errors_total");
    let depth = registry.get_gauge(name, "queue_depth");
    if calls.is_none() && errors.is_none() && depth.is_none() {
        return None;
    }
    Some(
        NodeMetricsExport {
            process_calls_total: match calls {
                Some(c) => c.value(),
                None => 0,
            },
            errors_total: match errors {
                Some(c) => c.value(),
                None => 0,
            },
            queue_depth: match depth {
                Some(g) => g.value(),
                None => 0,
            },
        },
    )
}

/// A snapshot of `graph`: each node with its text identifier, module
/// name, role, state, whether it is an entry or exit point, and, where
/// `metrics` is given, what it has recorded for the node's module (read
/// without registering anything); then each edge, grouped by source node
/// in the nodes' order.
pub fn export_graph(graph: &FlowGraph, metrics: Option<&MetricRegistry>) -> (e: GraphExport)
    requires
        graph.wf(),
        metrics matches Some(r) ==> r.wf(),
    ensures
        e.nodes@.len() == graph.node_ids().len(),
        forall|i: int|
            0 <= i < e.nodes@.len() ==> node_export_of(
                #[trigger] e.nodes@[i],
                graph.nodes_view()[i],
                graph.entries(),
                graph.exits(),
                match metrics {
                    Some(r) => Some(*r),
                    None => None,
                },
            ),
        e.edges@.len() == edges_by_source(graph.edges_view(), graph.node_ids()).len(),
        e.edges@.len() == graph.edge_list().len(),
        forall|j: int|
            0 <= j < e.edges@.len() ==> edge_export_of(
                #[trigger] e.edges@[j],
                edges_by_source(graph.edges_view(), graph.node_ids())[j],
            ),
{
    let ghost reg = match metrics {
        Some(r) => Some(*r),
        None => None,
    };
    let ghost ids = graph.node_ids();
    let ghost es = graph.edges_view();
    proof {
        graph.lemma_views();
        assert forall|j: int| 0 <= j < es.len() implies ids.contains(#[trigger] es[j].from_view()) by {
            assert(graph.edge_list()[j] == (es[j].from_view(), es[j].to_view()));
            assert(graph.node_ids().contains(graph.edge_list()[j].0));
        }
        lemma_by_source_len(es, ids);
    }
    let entry_points = graph.entry_points();
    let exit_points = graph.exit_points();
    let id_list = graph.node_id_list();
    let mut nodes: Vec<NodeExport> = Vec::new();
    let mut edges: Vec<EdgeExport> = Vec::new();
    let mut i: usize = 0;
    while i < id_list.len()
        invariant
            graph.wf(),
            metrics matches Some(r) ==> r.wf(),
            reg == (match metrics {
                Some(r) => Some(*r),
                None => None,
            }),
            ids == graph.node_ids(),
            es == graph.edges_view(),
            id_views(id_list@) == ids,
            id_views(entry_points@) == graph.entries(),
            id_views(exit_points@) == graph.exits(),
            ids.len() == graph.nodes_view().len(),
            forall|k: int| 0 <= k < ids.len() ==> #[trigger] ids[k] == graph.nodes_view()[k].id_view(),
            i <= id_list@.len(),
            nodes@.len() == i,
            forall|k: int|
                0 <= k < i ==> node_export_of(#[trigger] nodes@[k], graph.nodes_view()[k], graph.entries(), graph.exits(), reg),
            edges@.len() == edges_by_source(es, ids.take(i as int)).len(),
            forall|j: int| 0 <= j < edges@.len() ==> edge_export_of(#[trigger] edges@[j], edges_by_source(es, ids.take(i as int))[j]),
        decreases id_list@.len() - i,
    {
        let id = id_list[i];
        proof {
            assert(id_views(id_list@)[i as int] == id@);
        }
        let node = match graph.node(id) {
            Some(n) => n,
            None => {
                proof {
                    assert(ids[i as int] == id@);
                    assert(graph.has_node(id@));
                }
                return GraphExport { nodes, edges };
            },
        };
        proof {
            let j = choose|j: int| 0 <= j < graph.nodes_view().len() && graph.nodes_view()[j] == *node;
            assert(ids[j] == id@);
            assert(ids[i as int] == id@);
            if j != i {
                assert(ids[j] != ids[i as int]) by {
                    if j < i {
                        assert(ids[j] != ids[i as int]);
                    } else {
                        assert(ids[i as int] != ids[j]);
                    }
                }
            }
            assert(*node == graph.nodes_view()[i as int]);
        }
        let name = node.name();
        let node_metrics = match metrics {
            Some(registry) => node_metrics_export(registry, name),
            None => None,
        };
        nodes.push(
            NodeExport {
                id: id.to_string(),
                name: name.to_owned(),
                node_type: node.node_type(),
                state: node.state(),
                is_entry: lists(entry_points, id),
                is_exit: lists(exit_points, id),
                metrics: node_metrics,
            },
        );
        let outgoing = graph.edges_from(id);
        let ghost e0 = edges@;
        let ghost before = edges_by_source(es, ids.take(i as int));
        let mut k: usize = 0;
        while k < outgoing.len()
            invariant
                edges@.len() == e0.len() + k,
                k <= outgoing@.len(),
                outgoing@.len() == edges_leaving(es, id@).len(),
                forall|t: int| 0 <= t < outgoing@.len() ==> *(#[trigger] outgoing@[t]) == edges_leaving(es, id@)[t],
                forall|t: int| 0 <= t < e0.len() ==> #[trigger] edges@[t] == e0[t],
                forall|t: int| 0 <= t < k ==> edge_export_of(#[trigger] edges@[e0.len() + t], edges_leaving(es, id@)[t]),
            decreases outgoing@.len() - k,
        {
            let edge = outgoing[k];
            edges.push(
                EdgeExport {
                    from: edge.from().to_string(),
                    to: edge.to().to_string(),
                    edge_type: edge.edge_type(),
                    queue_depth: edge.queue_depth(),
                    dropped_count: edge.dropped_count(),
                },
            );
            k += 1;
        }
        proof {
            let after = edges_by_source(es, ids.take(i + 1));
            assert(ids.take(i + 1).drop_last() =~= ids.take(i as int));
            assert(ids.take(i + 1).last() == id@);
            assert(after == before + edges_leaving(es, id@));
            assert forall|j: int| 0 <= j < edges@.len() implies edge_export_of(#[trigger] edges@[j], after[j]) by {
                if j < e0.len() {
                    assert(edges@[j] == e0[j]);
                    assert(after[j] == before[j]);
                } else {
                    let t = j - e0.len();
                    assert(edges@[e0.len() + t] == edges@[j]);
                    assert(after[j] == edges_leaving(es, id@)[t]);
                }
            }
        }
        i += 1;
    }
    proof {
        assert(ids.take(i as int) =~= ids);
    }
    GraphExport { nodes, edges }
}

/// The DOT shape of a node: entry points are double circles, exit points
/// squares, the others ellipses.
pub open spec fn dot_shape(n: NodeExport) -> Seq<char> {
    if n.is_entry {
        "doublecircle"@
    } else if n.is_exit {
        "square"@
    } else {
        "ellipse"@
    }
}

/// The DOT statement of a node, labelled with its name, role and state on
/// three lines.
pub open spec fn dot_node_line(n: NodeExport) -> Seq<char> {
    "  \""@ + n.id@ + "\" [label=\""@ + n.name@ + "\\n"@ + spec_node_type_name(n.node_type) + "\\n"@
        + spec_node_state_name(n.state) + "\", shape="@ + dot_shape(n) + "];\n"@
}

/// The DOT statement of an edge, labelled with its type.
pub open spec fn dot_edge_line(e: EdgeExport) -> Seq<char> {
    "  \""@ + e.from@ + "\" -> \""@ + e.to@ + "\" [label=\""@ + spec_edge_type_name(e.edge_type) + "\"];\n"@
}

/// The node statements, in order.
pub open spec fn dot_nodes(ns: Seq<NodeExport>) -> Seq<char>
    decreases ns.len(),
{
    if ns.len() == 0 {
        Seq::empty()
    } else {
        dot_nodes(ns.drop_last()) + dot_node_line(ns.last())
    }
}

/// The edge statements, in order.
pub open spec fn dot_edges(es: Seq<EdgeExport>) -> Seq<char>
    decreases es.len(),
{
    if es.len() == 0 {
        Seq::empty()
    } else {
        dot_edges(es.drop_last()) + dot_edge_line(es.last())
    }
}

/// The whole DOT digraph.
pub open spec fn spec_dot(g: GraphExport) -> Seq<char> {
    "digraph FlowGraph {\n"@ + dot_nodes(g.nodes@) + dot_edges(g.edges@) + "}\n"@
}

impl GraphExport {
    /// The snapshot as a Graphviz DOT digraph.
    pub fn to_dot(&self) -> (s: String)
        ensures
            s@ == spec_dot(*self),
    {
        let mut dot = String::new();
        push_str(&mut dot, "digraph FlowGraph {\n");
        let ghost head = dot@;
        let mut i: usize = 0;
        while i < self.nodes.len()
            invariant
                i <= self.nodes@.len(),
                dot@ == head + dot_nodes(self.nodes@.take(i as int)),
            decreases self.nodes@.len() - i,
        {
            let node = &self.nodes[i];
            let shape = if node.is_entry {
                "doublecircle"
            } else if node.is_exit {
                "square"
            } else {
                "ellipse"
            };
            let ghost before = dot@;
            push_str(&mut dot, "  \"");
            push_str(&mut dot, node.id.as_str());
            push_str(&mut dot, "\" [label=\"");
            push_str(&mut dot, node.name.as_str());
            push_str(&mut dot, "\\n");
            push_str(&mut dot, node.node_type.name());
            push_str(&mut dot, "\\n");
            push_str(&mut dot, node.state.name());
            push_str(&mut dot, "\", shape=");
            push_str(&mut dot, shape);
            push_str(&mut dot, "];\n");
            proof {
                assert(self.nodes@.take(i + 1).drop_last() =~= self.nodes@.take(i as int));
                assert(self.nodes@.take(i + 1).last() == *node);
                assert(shape@ == dot_shape(*node));
                assert(dot@ =~= before + dot_node_line(*node));
            }
            i += 1;
        }
        let ghost mid = dot@;
        let mut j: usize = 0;
        while j < self.edges.len()
            invariant
                j <= self.edges@.len(),
                dot@ == mid + dot_edges(self.edges@.take(j as int)),
            decreases self.edges@.len() - j,
        {
            let edge = &self.edges[j];
            let ghost before = dot@;
            push_str(&mut dot, "  \"");
            push_str(&mut dot, edge.from.as_str());
            push_str(&mut dot, "\" -> \"");
            push_str(&mut dot, edge.to.as_str());
            push_str(&mut dot, "\" [label=\"");
            push_str(&mut dot, edge.edge_type.name());
            push_str(&mut dot, "\"];\n");
            proof {
                assert(self.edges@.take(j + 1).drop_last() =~= self.edges@.take(j as int));
                assert(self.edges@.take(j + 1).last() == *edge);
                assert(dot@ =~= before + dot_edge_line(*edge));
            }
            j += 1;
        }
        push_str(&mut dot, "}\n");
        proof {
            assert(self.nodes@.take(i as int) =~= self.nodes@);
            assert(self.edges@.take(j as int) =~= self.edges@);
            assert(dot@ =~= spec_dot(*self));
        }
        dot
    }
}

} // verus!

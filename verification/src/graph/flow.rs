//! The flow graph's storage and topology: nodes, edges, entry and exit
//! points, reachability, cycles, and validation.

use vstd::prelude::*;
use crate::base::id::NodeId;
use crate::errors::GraphError;
use crate::graph::edge::Edge;
use crate::graph::node::{GraphNode, NodeState};
use crate::module_api::node::NodeType;
use crate::loader::dependency_graph::{adj_ok, index_cycle, order_ok, path_ok, visit, Mark};
use crate::graph::layer::{in_list, layer_ok, lemma_layer_at, lemma_layer_discover, lemma_layer_empty, lemma_layer_push, lemma_layer_start};

verus! {

/// Nodes, edges, entry and exit points, and the edges allowed to close a
/// cycle (intentional feedback loops). Node identifiers are distinct,
/// and every edge joins two nodes of the graph.
#[derive(Debug)]
pub struct FlowGraph {
    nodes: Vec<GraphNode>,
    edges: Vec<Edge>,
    entry_points: Vec<NodeId>,
    exit_points: Vec<NodeId>,
    allowed_feedback_edges: Vec<(NodeId, NodeId)>,
}

/// Whether `(a, b)` is among `es`.
pub open spec fn has_edge(es: Seq<(u128, u128)>, a: u128, b: u128) -> bool {
    exists|j: int| 0 <= j < es.len() && #[trigger] es[j] == (a, b)
}

/// Whether `b` is reachable from `a` in at most `k` steps along `es`.
pub open spec fn reach_within(es: Seq<(u128, u128)>, a: u128, b: u128, k: nat) -> bool
    decreases k,
{
    if k == 0 {
        a == b
    } else {
        reach_within(es, a, b, (k - 1) as nat) || exists|j: int|
            0 <= j < es.len() && #[trigger] es[j].1 == b && reach_within(es, a, es[j].0, (k - 1) as nat)
    }
}

/// Whether `p` is a walk along `es`: at least one node, each step an edge.
pub open spec fn is_walk(es: Seq<(u128, u128)>, p: Seq<u128>) -> bool {
    p.len() >= 1 && forall|k: int| 0 <= k < p.len() - 1 ==> has_edge(es, #[trigger] p[k], p[k + 1])
}

/// The identifiers of a list of node identifiers.
pub open spec fn id_views(v: Seq<NodeId>) -> Seq<u128> {
    Seq::new(v.len(), |i: int| v[i]@)
}

impl FlowGraph {
    /// The nodes' identifiers, in the order added.
    pub closed spec fn node_ids(&self) -> Seq<u128> {
        Seq::new(self.nodes@.len(), |i: int| self.nodes@[i].id_view())
    }

    /// The nodes.
    pub closed spec fn nodes_view(&self) -> Seq<GraphNode> {
        self.nodes@
    }

    /// The edges as `(from, to)`, in the order connected.
    pub closed spec fn edge_list(&self) -> Seq<(u128, u128)> {
        Seq::new(self.edges@.len(), |i: int| (self.edges@[i].from_view(), self.edges@[i].to_view()))
    }

    /// The edges.
    pub closed spec fn edges_view(&self) -> Seq<Edge> {
        self.edges@
    }

    /// The entry points.
    pub closed spec fn entries(&self) -> Seq<u128> {
        id_views(self.entry_points@)
    }

    /// The exit points.
    pub closed spec fn exits(&self) -> Seq<u128> {
        id_views(self.exit_points@)
    }

    /// The edges allowed to close a cycle.
    pub closed spec fn feedback(&self) -> Seq<(u128, u128)> {
        Seq::new(
            self.allowed_feedback_edges@.len(),
            |i: int| (self.allowed_feedback_edges@[i].0@, self.allowed_feedback_edges@[i].1@),
        )
    }

    /// Distinct node identifiers; edges join nodes of the graph.
    pub open spec fn wf(&self) -> bool {
        &&& forall|a: int, b: int|
            0 <= a < b < self.node_ids().len() ==> self.node_ids()[a] != self.node_ids()[b]
        &&& forall|j: int|
            0 <= j < self.edge_list().len() ==> self.node_ids().contains(
                (#[trigger] self.edge_list()[j]).0,
            ) && self.node_ids().contains(self.edge_list()[j].1)
    }

    /// Whether `id` is a node of the graph.
    pub open spec fn has_node(&self, id: u128) -> bool {
        self.node_ids().contains(id)
    }

    /// An empty graph.
    pub fn new() -> (g: Self)
        ensures
            g.wf(),
            g.node_ids().len() == 0,
            g.edge_list().len() == 0,
            g.entries().len() == 0,
            g.exits().len() == 0,
            g.feedback().len() == 0,
    {
        FlowGraph {
            nodes: Vec::new(),
            edges: Vec::new(),
            entry_points: Vec::new(),
            exit_points: Vec::new(),
            allowed_feedback_edges: Vec::new(),
        }
    }

    fn node_index(&self, id: NodeId) -> (r: Option<usize>)
        ensures
            match r {
                Some(i) => i < self.nodes@.len() && self.node_ids()[i as int] == id@,
                None => !self.has_node(id@),
            },
    {
        let mut i: usize = 0;
        while i < self.nodes.len()
            invariant
                i <= self.nodes@.len(),
                forall|k: int| 0 <= k < i ==> self.node_ids()[k] != id@,
            decreases self.nodes@.len() - i,
        {
            if self.nodes[i].id().same_as(&id) {
                return Some(i);
            }
            i += 1;
        }
        proof {
            if self.has_node(id@) {
                let k = choose|k: int| 0 <= k < self.node_ids().len() && self.node_ids()[k] == id@;
            }
        }
        None
    }

    /// Marks a node as an entry point (once).
    pub fn mark_entry_point(&mut self, id: NodeId)
        ensures
            final(self).entries() == if old(self).entries().contains(id@) {
                old(self).entries()
            } else {
                old(self).entries().push(id@)
            },
            final(self).node_ids() == old(self).node_ids(),
            final(self).nodes_view() == old(self).nodes_view(),
            final(self).edge_list() == old(self).edge_list(),
            final(self).edges_view() == old(self).edges_view(),
            final(self).exits() == old(self).exits(),
            final(self).feedback() == old(self).feedback(),
    {
        if !contains_id(&self.entry_points, id) {
            self.entry_points.push(id);
            assert(self.entries() =~= old(self).entries().push(id@));
        }
    }

    /// Marks a node as an exit point (once).
    pub fn mark_exit_point(&mut self, id: NodeId)
        ensures
            final(self).exits() == if old(self).exits().contains(id@) {
                old(self).exits()
            } else {
                old(self).exits().push(id@)
            },
            final(self).node_ids() == old(self).node_ids(),
            final(self).nodes_view() == old(self).nodes_view(),
            final(self).edge_list() == old(self).edge_list(),
            final(self).edges_view() == old(self).edges_view(),
            final(self).entries() == old(self).entries(),
            final(self).feedback() == old(self).feedback(),
    {
        if !contains_id(&self.exit_points, id) {
            self.exit_points.push(id);
            assert(self.exits() =~= old(self).exits().push(id@));
        }
    }

    /// Allows the edge from `from` to `to` to close a cycle: cycle
    /// detection does not follow it. Routing is unaffected.
    pub fn allow_feedback_edge(&mut self, from: NodeId, to: NodeId)
        ensures
            final(self).feedback() == if old(self).feedback().contains((from@, to@)) {
                old(self).feedback()
            } else {
                old(self).feedback().push((from@, to@))
            },
            final(self).node_ids() == old(self).node_ids(),
            final(self).nodes_view() == old(self).nodes_view(),
            final(self).edge_list() == old(self).edge_list(),
            final(self).edges_view() == old(self).edges_view(),
            final(self).entries() == old(self).entries(),
            final(self).exits() == old(self).exits(),
    {
        let mut i: usize = 0;
        while i < self.allowed_feedback_edges.len()
            invariant
                i <= self.allowed_feedback_edges@.len(),
                forall|k: int| 0 <= k < i ==> self.feedback()[k] != (from@, to@),
            decreases self.allowed_feedback_edges@.len() - i,
        {
            if self.allowed_feedback_edges[i].0.same_as(&from) && self.allowed_feedback_edges[i].1.same_as(&to) {
                assert(self.feedback()[i as int] == (from@, to@));
                return;
            }
            i += 1;
        }
        self.allowed_feedback_edges.push((from, to));
        assert(self.feedback() =~= old(self).feedback().push((from@, to@)));
    }

    /// Adds a node, replacing any node with the same identifier. Source
    /// nodes become entry points and sink nodes exit points.
    pub fn add_node(&mut self, node: GraphNode)
        requires
            old(self).wf(),
        ensures
            final(self).wf(),
            old(self).has_node(node.id_view()) ==> final(self).node_ids() == old(self).node_ids(),
            !old(self).has_node(node.id_view()) ==> final(self).node_ids() == old(self).node_ids().push(node.id_view()),
            final(self).has_node(node.id_view()),
            final(self).edge_list() == old(self).edge_list(),
            final(self).entries() == if node.type_view() == NodeType::Source && !old(self).entries().contains(node.id_view()) {
                old(self).entries().push(node.id_view())
            } else {
                old(self).entries()
            },
            final(self).exits() == if node.type_view() == NodeType::Sink && !old(self).exits().contains(node.id_view()) {
                old(self).exits().push(node.id_view())
            } else {
                old(self).exits()
            },
            final(self).feedback() == old(self).feedback(),
    {
        let id = node.id();
        match node.node_type() {
            NodeType::Source => self.mark_entry_point(id),
            NodeType::Sink => self.mark_exit_point(id),
            _ => {},
        }
        let ghost before = self.node_ids();
        match self.node_index(id) {
            Some(i) => {
                self.nodes.set(i, node);
                assert(self.node_ids() =~= before);
            },
            None => {
                self.nodes.push(node);
                assert(self.node_ids() =~= before.push(id@));
                assert(self.node_ids()[before.len() as int] == id@);
            },
        }
        proof {
            assert forall|j: int| 0 <= j < self.edge_list().len() implies self.node_ids().contains(
                (#[trigger] self.edge_list()[j]).0,
            ) && self.node_ids().contains(self.edge_list()[j].1) by {
                let e = self.edge_list()[j];
                assert(before.contains(e.0));
                assert(before.contains(e.1));
                let a = choose|a: int| 0 <= a < before.len() && before[a] == e.0;
                let b = choose|b: int| 0 <= b < before.len() && before[b] == e.1;
                assert(self.node_ids()[a] == e.0);
                assert(self.node_ids()[b] == e.1);
            }
            assert(self.has_node(id@));
        }
    }

    /// Connects two nodes of the graph. Fails with `MissingNode` (naming
    /// the endpoint) where either is not a node, the source checked
    /// first.
    pub fn connect(&mut self, edge: Edge) -> (r: Result<(), GraphError>)
        requires
            old(self).wf(),
        ensures
            final(self).wf(),
            !old(self).has_node(edge.from_view()) ==> r is Err && is_missing_node(r->Err_0, edge.from_view())
                && final(self).edge_list() == old(self).edge_list(),
            old(self).has_node(edge.from_view()) && !old(self).has_node(edge.to_view()) ==> r is Err
                && is_missing_node(r->Err_0, edge.to_view()) && final(self).edge_list() == old(self).edge_list(),
            old(self).has_node(edge.from_view()) && old(self).has_node(edge.to_view()) ==> r is Ok
                && final(self).edge_list() == old(self).edge_list().push((edge.from_view(), edge.to_view())),
            final(self).node_ids() == old(self).node_ids(),
            final(self).nodes_view() == old(self).nodes_view(),
            final(self).entries() == old(self).entries(),
            final(self).exits() == old(self).exits(),
            final(self).feedback() == old(self).feedback(),
    {
        let from = edge.from();
        let to = edge.to();
        if self.node_index(from).is_none() {
            return Err(GraphError::MissingNode { node_id: from.to_string() });
        }
        if self.node_index(to).is_none() {
            return Err(GraphError::MissingNode { node_id: to.to_string() });
        }
        let ghost before = self.edge_list();
        self.edges.push(edge);
        assert(self.edge_list() =~= before.push((from@, to@)));
        Ok(())
    }

    /// Removes the node `id` with every edge touching it, and its entry
    /// and exit marks; the removed node, or `None` (graph unchanged)
    /// where there is none.
    pub fn remove_node(&mut self, id: NodeId) -> (r: Option<GraphNode>)
        requires
            old(self).wf(),
        ensures
            final(self).wf(),
            !old(self).has_node(id@) ==> r is None && final(self).node_ids() == old(self).node_ids()
                && final(self).edge_list() == old(self).edge_list() && final(self).entries()
                == old(self).entries() && final(self).exits() == old(self).exits(),
            old(self).has_node(id@) ==> (r matches Some(n) && n.id_view() == id@)
                && final(self).node_ids() == without_id(old(self).node_ids(), id@)
                && final(self).edge_list() == without_node_edges(old(self).edge_list(), id@)
                && final(self).entries() == without_id(old(self).entries(), id@)
                && final(self).exits() == without_id(old(self).exits(), id@),
            final(self).feedback() == old(self).feedback(),
    {
        let i = match self.node_index(id) {
            Some(i) => i,
            None => {
                return None;
            },
        };
        let ghost ids0 = self.node_ids();
        let ghost es0 = self.edge_list();
        let removed = self.nodes.remove(i);
        proof {
            assert(self.node_ids() =~= ids0.remove(i as int));
            lemma_without_id_distinct(ids0, i as int);
        }
        let mut old_edges: Vec<Edge> = Vec::new();
        std::mem::swap(&mut old_edges, &mut self.edges);
        let ghost orig = old_edges@;
        let ghost n = orig.len();
        assert(es0 =~= Seq::new(orig.len(), |k: int| (orig[k].from_view(), orig[k].to_view())));
        let mut kept: Vec<Edge> = Vec::new();
        while old_edges.len() > 0
            invariant
                n == orig.len(),
                es0 == Seq::new(n, |k: int| (orig[k].from_view(), orig[k].to_view())),
                old_edges@.len() <= n,
                old_edges@ == orig.skip(n - old_edges@.len()),
                Seq::new(kept@.len(), |k: int| (kept@[k].from_view(), kept@[k].to_view()))
                    == without_node_edges(es0.take(n - old_edges@.len()), id@),
            decreases old_edges@.len(),
        {
            let ghost done: int = n - old_edges@.len();
            let e = old_edges.remove(0);
            proof {
                assert(e == orig[done]);
                assert(old_edges@ =~= orig.skip(done + 1));
                assert(es0.take(done + 1).drop_last() =~= es0.take(done));
                assert(es0.take(done + 1).last() == (e.from_view(), e.to_view()));
            }
            if !e.from().same_as(&id) && !e.to().same_as(&id) {
                let ghost before = kept@;
                let ghost ev = (e.from_view(), e.to_view());
                kept.push(e);
                assert(Seq::new(kept@.len(), |k: int| (kept@[k].from_view(), kept@[k].to_view()))
                    =~= Seq::new(before.len(), |k: int| (before[k].from_view(), before[k].to_view())).push(ev));
            }
        }
        assert(es0.take(n as int) =~= es0);
        self.edges = kept;
        let mut entries: Vec<NodeId> = Vec::new();
        std::mem::swap(&mut entries, &mut self.entry_points);
        self.entry_points = retain_ids(entries, id);
        let mut exits: Vec<NodeId> = Vec::new();
        std::mem::swap(&mut exits, &mut self.exit_points);
        self.exit_points = retain_ids(exits, id);
        proof {
            assert forall|j: int| 0 <= j < self.edge_list().len() implies self.node_ids().contains(
                (#[trigger] self.edge_list()[j]).0,
            ) && self.node_ids().contains(self.edge_list()[j].1) by {
                let e = self.edge_list()[j];
                assert(self.edge_list().contains(e));
                lemma_without_edges_in(es0, id@, e);
                let k = choose|k: int| 0 <= k < es0.len() && es0[k] == e;
                assert(ids0.contains(e.0) && ids0.contains(e.1));
                lemma_without_id_contains(ids0, id@, e.0);
                lemma_without_id_contains(ids0, id@, e.1);
            }
        }
        Some(removed)
    }

    /// Removes the first edge from `from` to `to`, if any.
    pub fn disconnect(&mut self, from: NodeId, to: NodeId) -> (r: Option<Edge>)
        requires
            old(self).wf(),
        ensures
            final(self).wf(),
            match first_edge(old(self).edge_list(), from@, to@) {
                Some(k) => (r matches Some(e) && e.from_view() == from@ && e.to_view() == to@)
                    && final(self).edge_list() == old(self).edge_list().remove(k),
                None => r is None && final(self).edge_list() == old(self).edge_list(),
            },
            final(self).node_ids() == old(self).node_ids(),
            final(self).nodes_view() == old(self).nodes_view(),
            final(self).entries() == old(self).entries(),
            final(self).exits() == old(self).exits(),
            final(self).feedback() == old(self).feedback(),
    {
        let ghost es = self.edge_list();
        let mut i: usize = 0;
        assert(es.skip(0) =~= es);
        while i < self.edges.len()
            invariant
                *self == *old(self),
                old(self).wf(),
                es == self.edge_list(),
                i <= es.len(),
                match first_edge(es, from@, to@) {
                    Some(k) => match first_edge(es.skip(i as int), from@, to@) {
                        Some(k2) => k == k2 + i,
                        None => false,
                    },
                    None => first_edge(es.skip(i as int), from@, to@) is None,
                },
            decreases es.len() - i,
        {
            proof {
                assert(es.skip(i as int)[0] == es[i as int]);
                assert(es.skip(i as int).drop_first() =~= es.skip(i + 1));
            }
            if self.edges[i].from().same_as(&from) && self.edges[i].to().same_as(&to) {
                let e = self.edges.remove(i);
                assert(self.edge_list() =~= es.remove(i as int));
                proof {
                    assert forall|j: int| 0 <= j < self.edge_list().len() implies self.node_ids().contains(
                        (#[trigger] self.edge_list()[j]).0,
                    ) && self.node_ids().contains(self.edge_list()[j].1) by {
                        if j < i {
                            assert(self.edge_list()[j] == es[j]);
                        } else {
                            assert(self.edge_list()[j] == es[j + 1]);
                        }
                    }
                }
                return Some(e);
            }
            i += 1;
        }
        None
    }

    fn successors(&self, u: usize) -> (succ: Vec<usize>)
        requires
            self.wf(),
            u < self.node_ids().len(),
        ensures
            forall|s: int| 0 <= s < succ@.len() ==> (#[trigger] succ@[s]) < self.node_ids().len()
                && has_edge(self.edge_list(), self.node_ids()[u as int], self.node_ids()[succ@[s] as int]),
            forall|v: int| 0 <= v < self.node_ids().len() && has_edge(self.edge_list(), self.node_ids()[u as int], self.node_ids()[v])
                ==> in_list(succ@, v),
    {
        let ghost es = self.edge_list();
        let ghost ids = self.node_ids();
        let uid = self.nodes[u].id();
        let mut succ: Vec<usize> = Vec::new();
        let mut j: usize = 0;
        while j < self.edges.len()
            invariant
                self.wf(),
                es == self.edge_list(),
                ids == self.node_ids(),
                u < ids.len(),
                uid@ == ids[u as int],
                j <= es.len(),
                forall|s: int| 0 <= s < succ@.len() ==> (#[trigger] succ@[s]) < ids.len()
                    && has_edge(es, ids[u as int], ids[succ@[s] as int]),
                forall|e: int| 0 <= e < j && (#[trigger] es[e]).0 == ids[u as int] ==> exists|s: int|
                    0 <= s < succ@.len() && ids[succ@[s] as int] == es[e].1,
            decreases es.len() - j,
        {
            if self.edges[j].from().same_as(&uid) {
                let to = self.edges[j].to();
                match self.node_index(to) {
                    Some(v) => {
                        let ghost before = succ@;
                        succ.push(v);
                        proof {
                            assert(es[j as int] == (ids[u as int], ids[v as int]));
                            assert forall|s: int| 0 <= s < succ@.len() implies (#[trigger] succ@[s]) < ids.len()
                                && has_edge(es, ids[u as int], ids[succ@[s] as int]) by {
                                if s == before.len() {
                                    assert(succ@[s] == v);
                                } else {
                                    assert(succ@[s] == before[s]);
                                }
                            }
                            assert forall|e: int| 0 <= e < j + 1 && (#[trigger] es[e]).0 == ids[u as int] implies exists|s: int|
                                0 <= s < succ@.len() && ids[succ@[s] as int] == es[e].1 by {
                                if e == j {
                                    assert(succ@[before.len() as int] == v);
                                } else {
                                    let s = choose|s: int| 0 <= s < before.len() && ids[before[s] as int] == es[e].1;
                                    assert(succ@[s] == before[s]);
                                }
                            }
                        }
                    },
                    None => {
                        proof {
                            assert(self.node_ids().contains(es[j as int].1));
                        }
                    },
                }
            }
            j += 1;
        }
        proof {
            assert forall|v: int| 0 <= v < ids.len() && has_edge(es, ids[u as int], ids[v])
                implies in_list(succ@, v) by {
                let e = choose|e: int| 0 <= e < es.len() && #[trigger] es[e] == (ids[u as int], ids[v]);
                let s = choose|s: int| 0 <= s < succ@.len() && ids[succ@[s] as int] == es[e].1;
                assert(succ@[s] as int == v);
                assert(in_list(succ@, v));
            }
        }
        succ
    }

    #[verifier::rlimit(80)]
    #[verifier::spinoff_prover]
    fn walk_back(&self, visited: &Vec<bool>, pred: &Vec<usize>, level: &Vec<usize>, fi: usize, ti: usize) -> (p: Vec<NodeId>)
        requires
            self.wf(),
            visited@.len() == self.node_ids().len(),
            pred@.len() == self.node_ids().len(),
            level@.len() == self.node_ids().len(),
            fi < self.node_ids().len(),
            ti < self.node_ids().len(),
            visited@[fi as int] && visited@[ti as int],
            level@[fi as int] == 0,
            forall|v: int| 0 <= v < self.node_ids().len() && visited@[v] && #[trigger] level@[v] == 0 && v <= usize::MAX ==> v == fi,
            forall|v: int|
                0 <= v < self.node_ids().len() && v != fi && #[trigger] visited@[v] ==> pred@[v] < self.node_ids().len()
                    && visited@[pred@[v] as int] && level@[pred@[v] as int] + 1 == level@[v] && has_edge(
                    self.edge_list(),
                    self.node_ids()[pred@[v] as int],
                    self.node_ids()[v],
                ),
        ensures
            is_walk(self.edge_list(), id_views(p@)),
            id_views(p@)[0] == self.node_ids()[fi as int],
            id_views(p@).last() == self.node_ids()[ti as int],
            p@.len() == level@[ti as int] + 1,
    {
        let ghost es = self.edge_list();
        let ghost ids = self.node_ids();
        let mut back: Vec<usize> = Vec::new();
        back.push(ti);
        let mut cur = ti;
        while cur != fi
            invariant
                es == self.edge_list(),
                ids == self.node_ids(),
                pred@.len() == ids.len(),
                level@.len() == ids.len(),
                fi < ids.len(),
                ti < ids.len(),
                cur < ids.len(),
                visited@.len() == ids.len(),
                visited@[fi as int] && visited@[cur as int],
                level@[fi as int] == 0,
                forall|v: int| 0 <= v < ids.len() && visited@[v] && #[trigger] level@[v] == 0 && v <= usize::MAX ==> v == fi,
                forall|v: int|
                    0 <= v < ids.len() && v != fi && #[trigger] visited@[v] ==> pred@[v] < ids.len()
                        && visited@[pred@[v] as int] && level@[pred@[v] as int] + 1 == level@[v] && has_edge(es, ids[pred@[v] as int], ids[v]),
                back@.len() >= 1,
                back@[0] == ti,
                back@.last() == cur,
                level@[cur as int] <= level@[ti as int],
                back@.len() == level@[ti as int] - level@[cur as int] + 1,
                forall|s: int| 0 <= s < back@.len() ==> (#[trigger] back@[s]) < ids.len(),
                forall|s: int| 0 <= s < back@.len() - 1 ==> has_edge(es, ids[back@[s + 1] as int], ids[#[trigger] back@[s] as int]),
            decreases level@[cur as int],
        {
            let ghost before = back@;
            let next = pred[cur];
            proof {
                assert(visited@[cur as int]);
                if level@[cur as int] == 0 {
                    assert(cur as int == fi as int);
                }
                assert(next < ids.len() && visited@[next as int] && level@[next as int] + 1 == level@[cur as int]);
            }
            back.push(next);
            proof {
                assert forall|s: int| 0 <= s < back@.len() - 1 implies has_edge(es, ids[back@[s + 1] as int], ids[#[trigger] back@[s] as int]) by {
                    if s < before.len() - 1 {
                        assert(back@[s] == before[s]);
                        assert(back@[s + 1] == before[s + 1]);
                    } else {
                        assert(back@[s] == cur);
                        assert(back@[s + 1] == next);
                    }
                }
            }
            cur = next;
        }
        let mut p: Vec<NodeId> = Vec::new();
        let mut i: usize = back.len();
        while i > 0
            invariant
                ids == self.node_ids(),
                es == self.edge_list(),
                i <= back@.len(),
                forall|s: int| 0 <= s < back@.len() ==> (#[trigger] back@[s]) < ids.len(),
                p@.len() == back@.len() - i,
                forall|s: int| 0 <= s < p@.len() ==> (#[trigger] p@[s])@ == ids[back@[back@.len() - 1 - s] as int],
            decreases i,
        {
            i -= 1;
            p.push(self.nodes[back[i]].id());
        }
        proof {
            let pv = id_views(p@);
            assert forall|k: int| 0 <= k < pv.len() - 1 implies has_edge(es, #[trigger] pv[k], pv[k + 1]) by {
                let s = back@.len() - 2 - k;
                assert(pv[k] == ids[back@[s + 1] as int]);
                assert(pv[k + 1] == ids[back@[s] as int]);
            }
            assert(pv[0] == ids[back@[back@.len() - 1] as int]);
            assert(pv.last() == ids[back@[0] as int]);
        }
        p
    }

    /// A shortest path from `from` to `to` along the edges (conditions are
    /// not evaluated): a breadth-first search. `None` where either is not
    /// a node, or `to` cannot be reached.
    #[verifier::rlimit(80)]
    #[verifier::spinoff_prover]
    pub fn find_path(&self, from: NodeId, to: NodeId) -> (r: Option<Vec<NodeId>>)
        requires
            self.wf(),
        ensures
            !self.has_node(from@) || !self.has_node(to@) ==> r is None,
            self.has_node(from@) && self.has_node(to@) ==> (r is Some <==> exists|k: nat|
                reach_within(self.edge_list(), from@, to@, k)),
            r matches Some(p) ==> is_walk(self.edge_list(), id_views(p@)) && id_views(p@)[0] == from@
                && id_views(p@).last() == to@ && forall|k: nat|
                k + 1 < p@.len() ==> !#[trigger] reach_within(self.edge_list(), from@, to@, k),
    {
        let ghost es = self.edge_list();
        let ghost ids = self.node_ids();
        let fi = match self.node_index(from) {
            Some(i) => i,
            None => {
                return None;
            },
        };
        let ti = match self.node_index(to) {
            Some(i) => i,
            None => {
                return None;
            },
        };
        if fi == ti {
            let mut p: Vec<NodeId> = Vec::new();
            p.push(from);
            proof {
                assert(reach_within(es, from@, to@, 0));
                assert(id_views(p@).last() == to@);
            }
            return Some(p);
        }
        let n = self.nodes.len();
        let mut visited: Vec<bool> = Vec::new();
        let mut level: Vec<usize> = Vec::new();
        let mut pred: Vec<usize> = Vec::new();
        let mut i: usize = 0;
        while i < n
            invariant
                i <= n,
                visited@.len() == i,
                level@.len() == i,
                pred@.len() == i,
                forall|v: int| 0 <= v < i ==> !#[trigger] visited@[v],
                forall|v: int| 0 <= v < i ==> #[trigger] level@[v] == 0,
            decreases n - i,
        {
            visited.push(false);
            level.push(0);
            pred.push(0);
            i += 1;
        }
        proof {
            lemma_count_true_set(visited@, fi as int);
            assert(count_true(visited@) == 0) by {
                lemma_count_none(visited@);
            }
        }
        let ghost vis_init = visited@;
        visited.set(fi, true);
        let mut count: usize = 1;
        let mut frontier: Vec<usize> = Vec::new();
        frontier.push(fi);
        let mut k: usize = 0;
        proof {
            assert forall|v: int| 0 <= v < n implies (#[trigger] visited@[v] <==> reach_within(es, from@, ids[v], k as nat)) by {
                if v != fi {
                    assert(ids[v] != ids[fi as int]);
                }
            }
            assert(frontier@[0] == fi);
            assert forall|v: int| 0 <= v < n implies (#[trigger] visited@[v] <==> v == fi) by {
                if v != fi {
                    assert(visited@[v] == vis_init[v]);
                    assert(!vis_init[v]);
                }
            }
            lemma_layer_start(frontier@, visited@, level@, n as int, fi as int);
            assert forall|v: int| 0 <= v < n && #[trigger] visited@[v] implies level@[v] <= k && reach_within(es, from@, ids[v], level@[v] as nat)
                && (level@[v] > 0 ==> !reach_within(es, from@, ids[v], (level@[v] - 1) as nat)) by {
                if v != fi {
                    assert(visited@[v] == vis_init[v]);
                }
                assert(level@[v] == 0);
            }
            assert forall|v: int| 0 <= v < n && visited@[v] && #[trigger] level@[v] == 0 && v <= usize::MAX implies v == fi by {
                if v != fi {
                    assert(visited@[v] == vis_init[v]);
                }
            }
        }
        while frontier.len() > 0
            invariant
                self.wf(),
                es == self.edge_list(),
                ids == self.node_ids(),
                n == ids.len(),
                fi < n,
                ti < n,
                fi != ti,
                ids[fi as int] == from@,
                ids[ti as int] == to@,
                visited@.len() == n,
                level@.len() == n,
                pred@.len() == n,
                count == count_true(visited@),
                count <= n,
                k <= count,
                frontier@.len() > 0 ==> count >= k + 1,
                forall|v: int| 0 <= v < n ==> (#[trigger] visited@[v] <==> reach_within(es, from@, ids[v], k as nat)),
                forall|s: int| 0 <= s < frontier@.len() ==> (#[trigger] frontier@[s]) < n,
                layer_ok(frontier@, visited@, level@, n as int, k as int),
                forall|v: int| 0 <= v < n && #[trigger] visited@[v] ==> level@[v] <= k && reach_within(es, from@, ids[v], level@[v] as nat)
                    && (level@[v] > 0 ==> !reach_within(es, from@, ids[v], (level@[v] - 1) as nat)),
                visited@[fi as int] && level@[fi as int] == 0,
                forall|v: int| 0 <= v < n && visited@[v] && #[trigger] level@[v] == 0 && v <= usize::MAX ==> v == fi,
                forall|v: int|
                    0 <= v < n && v != fi && #[trigger] visited@[v] ==> pred@[v] < n && visited@[pred@[v] as int]
                        && level@[pred@[v] as int] + 1 == level@[v] && has_edge(es, ids[pred@[v] as int], ids[v]),
                !visited@[ti as int],
            decreases 2 * (n - count) + (if frontier@.len() > 0 { 1int } else { 0int }),
        {
            let mut next: Vec<usize> = Vec::new();
            let mut q: usize = 0;
            let ghost count0 = count;
            proof {
                lemma_layer_empty(visited@, level@, n as int, k + 1);
                assert(next@ =~= Seq::<usize>::empty());
            }

            while q < frontier.len()
                invariant
                    self.wf(),
                    es == self.edge_list(),
                    ids == self.node_ids(),
                    n == ids.len(),
                    fi < n,
                    ti < n,
                    fi != ti,
                    ids[fi as int] == from@,
                    ids[ti as int] == to@,
                    visited@.len() == n,
                    level@.len() == n,
                    pred@.len() == n,
                    count == count_true(visited@),
                    count <= n,
                    count >= count0,
                    count == count0 + next@.len(),
                    k < n,
                    q <= frontier@.len(),
                    forall|s: int| 0 <= s < frontier@.len() ==> (#[trigger] frontier@[s]) < n,
                    forall|s: int| 0 <= s < next@.len() ==> (#[trigger] next@[s]) < n,
                    layer_ok(frontier@, visited@, level@, n as int, k as int),
                    layer_ok(next@, visited@, level@, n as int, k + 1),
                    forall|v: int| 0 <= v < n && #[trigger] visited@[v] ==> level@[v] <= k + 1 && reach_within(es, from@, ids[v], level@[v] as nat)
                        && (level@[v] > 0 ==> !reach_within(es, from@, ids[v], (level@[v] - 1) as nat)),
                    forall|v: int| 0 <= v < n ==> (reach_within(es, from@, ids[v], k as nat) ==> #[trigger] visited@[v] && level@[v] <= k),
                    forall|v: int| 0 <= v < n && #[trigger] visited@[v] && level@[v] <= k ==> reach_within(es, from@, ids[v], k as nat),
                    visited@[fi as int] && level@[fi as int] == 0,
                    forall|v: int| 0 <= v < n && visited@[v] && #[trigger] level@[v] == 0 && v <= usize::MAX ==> v == fi,
                    forall|v: int|
                        0 <= v < n && v != fi && #[trigger] visited@[v] ==> pred@[v] < n && visited@[pred@[v] as int]
                            && level@[pred@[v] as int] + 1 == level@[v] && has_edge(es, ids[pred@[v] as int], ids[v]),
                    forall|p: int, v: int| #![trigger frontier@[p], visited@[v]] 0 <= p < q && 0 <= v < n && has_edge(es, ids[frontier@[p] as int], ids[v]) ==> visited@[v],
                    !visited@[ti as int],
                decreases frontier@.len() - q,
            {
                let u = frontier[q];
                proof {
                    assert(frontier@[q as int] as int == u as int);
                    assert(in_list(frontier@, u as int));
                    lemma_layer_at(frontier@, visited@, level@, n as int, k as int, u as int);
                    assert(level@[u as int] == k);
                }
                let succ = self.successors(u);
                let mut s: usize = 0;
                while s < succ.len()
                    invariant
                        self.wf(),
                        es == self.edge_list(),
                        ids == self.node_ids(),
                        n == ids.len(),
                        fi < n,
                        ti < n,
                        fi != ti,
                        ids[fi as int] == from@,
                        ids[ti as int] == to@,
                        u < n,
                        visited@[u as int] && level@[u as int] == k,
                        visited@.len() == n,
                        level@.len() == n,
                        pred@.len() == n,
                        count == count_true(visited@),
                        count <= n,
                        count == count0 + next@.len(),
                        k < n,
                        s <= succ@.len(),
                        forall|t: int| 0 <= t < succ@.len() ==> (#[trigger] succ@[t]) < n && has_edge(es, ids[u as int], ids[succ@[t] as int]),
                        forall|t: int| 0 <= t < next@.len() ==> (#[trigger] next@[t]) < n,
                        layer_ok(frontier@, visited@, level@, n as int, k as int),
                        layer_ok(next@, visited@, level@, n as int, k + 1),
                        forall|v: int| 0 <= v < n && #[trigger] visited@[v] ==> level@[v] <= k + 1 && reach_within(es, from@, ids[v], level@[v] as nat)
                            && (level@[v] > 0 ==> !reach_within(es, from@, ids[v], (level@[v] - 1) as nat)),
                        forall|v: int| 0 <= v < n ==> (reach_within(es, from@, ids[v], k as nat) ==> #[trigger] visited@[v] && level@[v] <= k),
                        forall|v: int| 0 <= v < n && #[trigger] visited@[v] && level@[v] <= k ==> reach_within(es, from@, ids[v], k as nat),
                        visited@[fi as int] && level@[fi as int] == 0,
                        forall|v: int| 0 <= v < n && visited@[v] && #[trigger] level@[v] == 0 && v <= usize::MAX ==> v == fi,
                        forall|v: int|
                            0 <= v < n && v != fi && #[trigger] visited@[v] ==> pred@[v] < n && visited@[pred@[v] as int]
                                && level@[pred@[v] as int] + 1 == level@[v] && has_edge(es, ids[pred@[v] as int], ids[v]),
                        forall|t: int| 0 <= t < s ==> #[trigger] visited@[succ@[t] as int],
                        q < frontier@.len(),
                        u == frontier@[q as int],
                        forall|p: int, w: int| #![trigger frontier@[p], visited@[w]] 0 <= p < q && 0 <= w < n && has_edge(es, ids[frontier@[p] as int], ids[w]) ==> visited@[w],
                        !visited@[ti as int],
                    decreases succ@.len() - s,
                {
                    let v = succ[s];
                    if !visited[v] {
                        proof {
                            assert(has_edge(es, ids[u as int], ids[v as int]));
                            let e = choose|e: int| 0 <= e < es.len() && #[trigger] es[e] == (ids[u as int], ids[v as int]);
                            assert(es[e].1 == ids[v as int]);
                            assert(reach_within(es, from@, ids[u as int], k as nat));
                            assert(reach_within(es, from@, ids[v as int], (k + 1) as nat));
                            lemma_count_true_set(visited@, v as int);
                            lemma_count_true_bound(visited@.update(v as int, true));
                        }
                        let ghost vis0 = visited@;
                        let ghost lev0 = level@;
                        visited.set(v, true);
                        level.set(v, k + 1);
                        pred.set(v, u);
                        count = count + 1;
                        if v == ti {
                            let path = self.walk_back(&visited, &pred, &level, fi, ti);
                            proof {
                                assert forall|j: nat| j + 1 < path@.len() implies !#[trigger] reach_within(es, from@, to@, j) by {
                                    if reach_within(es, from@, to@, j) {
                                        crate::graph::reach::lemma_reach_mono(es, from@, to@, j, k as nat);
                                    }
                                }
                            }
                            return Some(path);
                        }
                        let ghost nx0 = next@;
                        next.push(v);
                        proof {
                            lemma_layer_discover(frontier@, vis0, lev0, n as int, k as int, v as int, (k + 1) as usize);
                            lemma_layer_push(nx0, vis0, lev0, n as int, (k + 1) as usize, v);
                            assert forall|w: int| 0 <= w < n && #[trigger] visited@[w] ==> level@[w] <= k + 1 && reach_within(es, from@, ids[w], level@[w] as nat)
                                && (level@[w] > 0 ==> !reach_within(es, from@, ids[w], (level@[w] - 1) as nat)) by {
                                if w == v as int {
                                    if reach_within(es, from@, ids[w], k as nat) {
                                    }
                                }
                            }
                        }
                    }
                    s += 1;
                }
                proof {
                    assert forall|p: int, v: int| #![trigger frontier@[p], visited@[v]] 0 <= p < q + 1 && 0 <= v < n && has_edge(es, ids[frontier@[p] as int], ids[v]) implies visited@[v] by {
                        if p == q {
                            assert(in_list(succ@, v));
                            let t = choose|t: int| 0 <= t < succ@.len() && #[trigger] succ@[t] as int == v;
                            assert(visited@[succ@[t] as int]);
                        }
                    }
                }
                q += 1;
            }
            proof {
                lemma_bfs_level_closed(es, ids, from@, frontier@, visited@, level@, n as int, k as nat);
            }
            frontier = next;
            k = k + 1;
        }
        proof {
            assert(!reach_within(es, from@, to@, k as nat));
            assert forall|v: int| 0 <= v < n && reach_within(es, from@, ids[v], (k + 1) as nat)
                implies #[trigger] reach_within(es, from@, ids[v], k as nat) by {
                if !reach_within(es, from@, ids[v], k as nat) {
                    let e = choose|e: int| 0 <= e < es.len() && #[trigger] es[e].1 == ids[v] && reach_within(es, from@, es[e].0, k as nat);
                    assert(ids.contains(es[e].0));
                    let u = choose|u: int| 0 <= u < ids.len() && ids[u] == es[e].0;
                    assert(visited@[u]);
                    lemma_layer_at(frontier@, visited@, level@, n as int, k as int, u);
                    assert(level@[u] != k) by {
                        if level@[u] == k {
                            assert(in_list(frontier@, u));
                        }
                    }
                    assert(reach_within(es, from@, ids[v], (level@[u] + 1) as nat)) by {
                        assert(es[e].1 == ids[v]);
                    }
                    crate::graph::reach::lemma_reach_mono(es, from@, ids[v], (level@[u] + 1) as nat, k as nat);
                }
            }
            assert forall|j: nat| !#[trigger] reach_within(es, from@, to@, j) by {
                if reach_within(es, from@, to@, j) {
                    assert(ids[fi as int] == from@);
                    lemma_stable_reach(es, ids, from@, k as nat, j, ti as int);
                }
            }
        }
        None
    }

    /// Whether the edge from `a` to `b` may be part of a forbidden cycle:
    /// it exists and is not an allowed feedback edge.
    pub open spec fn cycle_edge(&self, a: u128, b: u128) -> bool {
        has_edge(self.edge_list(), a, b) && !self.feedback().contains((a, b))
    }

    /// Whether the closed chain `c` passes no node twice before it closes.
    pub open spec fn is_simple(c: Seq<u128>) -> bool {
        forall|a: int, b: int| 0 <= a < b < c.len() - 1 ==> c[a] != c[b]
    }

    /// Whether `c` is a closed chain of nodes joined by cycle edges, the
    /// first node repeated at the end.
    pub open spec fn is_cycle(&self, c: Seq<u128>) -> bool {
        &&& c.len() >= 2
        &&& c[0] == c[c.len() - 1]
        &&& forall|k: int| 0 <= k < c.len() - 1 ==> self.has_node(#[trigger] c[k]) && self.cycle_edge(c[k], c[k + 1])
    }

    /// Law: a closed chain that steps along an edge allowed by
    /// `allow_feedback_edge(from, to)`, in the direction it was allowed,
    /// is never a cycle that cycle detection reports.
    pub proof fn lemma_allowed_feedback_edge_breaks_cycles(&self, c: Seq<u128>, k: int)
        requires
            0 <= k < c.len() - 1,
            self.feedback().contains((c[k], c[k + 1])),
        ensures
            !self.is_cycle(c),
    {
    }

    /// Law: a closed chain of graph nodes each joined to the next by an
    /// edge, where no step is an allowed feedback edge in that direction
    /// (an edge allowed the other way round does not count), is a cycle
    /// that cycle detection must report.
    pub proof fn lemma_unexempt_closed_chain_is_cycle(&self, c: Seq<u128>)
        requires
            c.len() >= 2,
            c[0] == c[c.len() - 1],
            forall|k: int| 0 <= k < c.len() ==> self.node_ids().contains(#[trigger] c[k]),
            forall|k: int| 0 <= k < c.len() - 1 ==> has_edge(self.edge_list(), #[trigger] c[k], c[k + 1]),
            forall|k: int| 0 <= k < c.len() - 1 ==> !self.feedback().contains((#[trigger] c[k], c[k + 1])),
        ensures
            self.is_cycle(c),
    {
        assert forall|k: int| 0 <= k < c.len() - 1 implies self.has_node(#[trigger] c[k]) && self.cycle_edge(
            c[k],
            c[k + 1],
        ) by {
            assert(self.node_ids().contains(c[k]));
            assert(!self.feedback().contains((c[k], c[k + 1])));
            assert(has_edge(self.edge_list(), c[k], c[k + 1]));
        }
    }

    fn is_feedback(&self, a: NodeId, b: NodeId) -> (r: bool)
        ensures
            r == self.feedback().contains((a@, b@)),
    {
        let mut i: usize = 0;
        while i < self.allowed_feedback_edges.len()
            invariant
                i <= self.allowed_feedback_edges@.len(),
                forall|k: int| 0 <= k < i ==> self.feedback()[k] != (a@, b@),
            decreases self.allowed_feedback_edges@.len() - i,
        {
            if self.allowed_feedback_edges[i].0.same_as(&a) && self.allowed_feedback_edges[i].1.same_as(&b) {
                assert(self.feedback()[i as int] == (a@, b@));
                return true;
            }
            i += 1;
        }
        false
    }

    fn cycle_adjacency(&self) -> (adj: Vec<Vec<usize>>)
        requires
            self.wf(),
        ensures
            adj_ok(adj@, self.node_ids().len() as int),
            forall|u: int, j: usize|
                0 <= u < self.node_ids().len() ==> (#[trigger] adj@[u]@.contains(j) <==> ((j as int) < self.node_ids().len()
                    && self.cycle_edge(self.node_ids()[u], self.node_ids()[j as int]))),
    {
        let ghost es = self.edge_list();
        let ghost ids = self.node_ids();
        let n = self.nodes.len();
        let mut adj: Vec<Vec<usize>> = Vec::new();
        let mut u: usize = 0;
        while u < n
            invariant
                self.wf(),
                es == self.edge_list(),
                ids == self.node_ids(),
                n == ids.len(),
                u <= n,
                adj@.len() == u,
                forall|x: int, k: int| 0 <= x < u && 0 <= k < adj@[x]@.len() ==> (#[trigger] adj@[x]@[k]) < n,
                forall|x: int, j: usize|
                    0 <= x < u ==> (#[trigger] adj@[x]@.contains(j) <==> ((j as int) < n && self.cycle_edge(ids[x], ids[j as int]))),
            decreases n - u,
        {
            let succ = self.successors(u);
            let uid = self.nodes[u].id();
            let mut row: Vec<usize> = Vec::new();
            let mut t: usize = 0;
            while t < succ.len()
                invariant
                    self.wf(),
                    es == self.edge_list(),
                    ids == self.node_ids(),
                    n == ids.len(),
                    u < n,
                    uid@ == ids[u as int],
                    t <= succ@.len(),
                    forall|x: int| 0 <= x < succ@.len() ==> (#[trigger] succ@[x]) < n && has_edge(es, ids[u as int], ids[succ@[x] as int]),
                    forall|v: int| 0 <= v < n && has_edge(es, ids[u as int], ids[v]) ==> in_list(succ@, v),
                    forall|k: int| 0 <= k < row@.len() ==> (#[trigger] row@[k]) < n,
                    forall|j: usize| #[trigger] row@.contains(j) ==> (j as int) < n && self.cycle_edge(ids[u as int], ids[j as int]),
                    forall|x: int| 0 <= x < t && !self.feedback().contains((ids[u as int], ids[#[trigger] succ@[x] as int])) ==> row@.contains(succ@[x]),
                decreases succ@.len() - t,
            {
                let v = succ[t];
                let vid = self.nodes[v].id();
                if !self.is_feedback(uid, vid) {
                    let ghost before = row@;
                    row.push(v);
                    proof {
                        assert(row@[before.len() as int] == v);
                        assert forall|j: usize| #[trigger] row@.contains(j) implies (j as int) < n && self.cycle_edge(ids[u as int], ids[j as int]) by {
                            let k = choose|k: int| 0 <= k < row@.len() && row@[k] == j;
                            if k < before.len() {
                                assert(before[k] == j);
                                assert(before.contains(j));
                            }
                        }
                        assert forall|x: int| 0 <= x < t + 1 && !self.feedback().contains((ids[u as int], ids[#[trigger] succ@[x] as int])) implies row@.contains(succ@[x]) by {
                            if x < t {
                                let k = choose|k: int| 0 <= k < before.len() && before[k] == succ@[x];
                                assert(row@[k] == succ@[x]);
                            }
                        }
                    }
                }
                t += 1;
            }
            proof {
                assert forall|j: usize| #[trigger] row@.contains(j) <== ((j as int) < n && self.cycle_edge(ids[u as int], ids[j as int])) by {
                    if (j as int) < n && self.cycle_edge(ids[u as int], ids[j as int]) {
                        assert(in_list(succ@, j as int));
                        let x = choose|x: int| 0 <= x < succ@.len() && #[trigger] succ@[x] as int == j as int;
                        assert(succ@[x] == j);
                    }
                }
            }
            let ghost before = adj@;
            adj.push(row);
            proof {
                assert forall|x: int, j: usize|
                    0 <= x < u + 1 implies (#[trigger] adj@[x]@.contains(j) <==> ((j as int) < n && self.cycle_edge(ids[x], ids[j as int]))) by {
                    if x < u {
                        assert(adj@[x] == before[x]);
                    }
                }
                assert forall|x: int, k: int| 0 <= x < u + 1 && 0 <= k < adj@[x]@.len() implies (#[trigger] adj@[x]@[k]) < n by {
                    if x < u {
                        assert(adj@[x] == before[x]);
                    }
                }
            }
            u += 1;
        }
        adj
    }

    /// A cycle of the graph, ignoring allowed feedback edges, found by a
    /// depth-first search from each node in turn: the nodes in traversal
    /// order with the first repeated at the end. `None` where there is
    /// none.
    pub fn detect_cycle(&self) -> (r: Option<Vec<NodeId>>)
        requires
            self.wf(),
        ensures
            match r {
                Some(c) => self.is_cycle(id_views(c@)) && Self::is_simple(id_views(c@)),
                None => forall|c: Seq<u128>| !#[trigger] self.is_cycle(c),
            },
    {
        let ghost ids = self.node_ids();
        let n = self.nodes.len();
        let adj = self.cycle_adjacency();
        let mut marks: Vec<Mark> = Vec::new();
        let mut i: usize = 0;
        while i < n
            invariant
                i <= n,
                marks@.len() == i,
                forall|k: int| 0 <= k < i ==> marks@[k] == Mark::Unvisited,
            decreases n - i,
        {
            marks.push(Mark::Unvisited);
            i += 1;
        }
        let mut path: Vec<usize> = Vec::new();
        let mut order: Vec<usize> = Vec::new();
        let mut k: usize = 0;
        while k < n
            invariant
                self.wf(),
                ids == self.node_ids(),
                n == ids.len(),
                adj_ok(adj@, n as int),
                forall|u: int, j: usize|
                    0 <= u < n ==> (#[trigger] adj@[u]@.contains(j) <==> ((j as int) < n && self.cycle_edge(ids[u], ids[j as int]))),
                k <= n,
                marks@.len() == n,
                path@.len() == 0,
                path_ok(adj@, marks@, path@),
                order_ok(adj@, marks@, order@),
                forall|j: int| 0 <= j < k ==> marks@[j] == Mark::Done,
            decreases n - k,
        {
            match visit(&adj, k, &mut marks, &mut path, &mut order) {
                Ok(()) => {},
                Err(c) => {
                    let mut cycle: Vec<NodeId> = Vec::new();
                    let mut q: usize = 0;
                    while q < c.len()
                        invariant
                            ids == self.node_ids(),
                            n == ids.len(),
                            index_cycle(adj@, c@),
                            adj@.len() == n,
                            q <= c@.len(),
                            cycle@.len() == q,
                            forall|x: int| 0 <= x < q ==> (#[trigger] cycle@[x])@ == ids[c@[x] as int],
                        decreases c@.len() - q,
                    {
                        cycle.push(self.nodes[c[q]].id());
                        q += 1;
                    }
                    proof {
                        let cv = id_views(cycle@);
                        assert forall|x: int| 0 <= x < cv.len() - 1 implies self.has_node(#[trigger] cv[x]) && self.cycle_edge(cv[x], cv[x + 1]) by {
                            assert(cv[x] == ids[c@[x] as int]);
                            assert(cv[x + 1] == ids[c@[x + 1] as int]);
                            assert(adj@[c@[x] as int]@.contains(c@[x + 1]));
                            assert(ids.contains(cv[x]));
                        }
                        assert(cv[0] == ids[c@[0] as int]);
                        assert(cv[cv.len() - 1] == ids[c@[c@.len() - 1] as int]);
                        assert forall|a: int, b: int| 0 <= a < b < cv.len() - 1 implies cv[a] != cv[b] by {
                            assert(cv[a] == ids[c@[a] as int]);
                            assert(cv[b] == ids[c@[b] as int]);
                            assert(c@[a] != c@[b]);
                            if c@[a] < c@[b] {
                                assert(ids[c@[a] as int] != ids[c@[b] as int]);
                            } else {
                                assert(ids[c@[b] as int] != ids[c@[a] as int]);
                            }
                        }
                    }
                    return Some(cycle);
                },
            }
            k += 1;
        }
        proof {
            assert forall|c: Seq<u128>| !#[trigger] self.is_cycle(c) by {
                self.lemma_order_has_no_cycle(adj@, marks@, order@, c);
            }
        }
        None
    }

    proof fn lemma_order_has_no_cycle(&self, adj: Seq<Vec<usize>>, marks: Seq<Mark>, order: Seq<usize>, c: Seq<u128>)
        requires
            self.wf(),
            adj_ok(adj, self.node_ids().len() as int),
            forall|u: int, j: usize|
                0 <= u < self.node_ids().len() ==> (#[trigger] adj[u]@.contains(j) <==> ((j as int) < self.node_ids().len()
                    && self.cycle_edge(self.node_ids()[u], self.node_ids()[j as int]))),
            marks.len() == self.node_ids().len(),
            order_ok(adj, marks, order),
            forall|j: int| 0 <= j < self.node_ids().len() ==> marks[j] == Mark::Done,
            self.node_ids().len() <= usize::MAX,
        ensures
            !self.is_cycle(c),
    {
        if !self.is_cycle(c) {
            return;
        }
        let ids = self.node_ids();
        let n = ids.len();
        // the position in `order` of the node at cycle position `x`
        assert forall|x: int| 0 <= x < c.len() implies ids.contains(#[trigger] c[x]) by {
            if x == c.len() - 1 {
                assert(self.has_node(c[0]));
            } else {
                assert(self.has_node(c[x]));
            }
        }
        assert forall|x: int| 0 <= x < c.len() implies exists|v: usize| (v as int) < n && #[trigger] ids[v as int] == #[trigger] c[x] by {
            let v = choose|v: int| 0 <= v < n && ids[v] == c[x];
            assert(ids[(v as usize) as int] == c[x]);
        }
        let idx = |x: int| choose|v: usize| (v as int) < n && #[trigger] ids[v as int] == c[x];
        let pos = |x: int| choose|p: int| 0 <= p < order.len() && #[trigger] order[p] == idx(x);
        assert forall|x: int| 0 <= x < c.len() implies (idx(x) as int) < n && ids[idx(x) as int] == c[x]
            && 0 <= #[trigger] pos(x) < order.len() && order[pos(x)] == idx(x) by {
            assert(exists|v: usize| (v as int) < n && #[trigger] ids[v as int] == c[x]);
            let v = idx(x);
            assert(marks[v as int] == Mark::Done);
            assert(order.contains(v));
        }
        assert forall|x: int| 0 <= x < c.len() - 1 implies pos(x + 1) < #[trigger] pos(x) by {
            assert(0 <= pos(x) < order.len());
            assert(0 <= pos(x + 1) < order.len());
            assert(self.cycle_edge(c[x], c[x + 1]));
            assert(adj[idx(x) as int]@.contains(idx(x + 1)));
            assert(adj[order[pos(x)] as int]@.contains(order[pos(x + 1)]));
        }
        assert forall|x: int| 1 <= x < c.len() implies #[trigger] pos(x) < pos(0) by {
            lemma_descending(pos, x);
        }
        assert(pos(c.len() - 1) == pos(0)) by {
            assert(c[c.len() - 1] == c[0]);
        }
    }

    /// How a node is named in messages: its module's name, or where it is
    /// not a node of the graph, its identifier.
    pub open spec fn label(&self, id: u128) -> Seq<char> {
        if self.has_node(id) {
            self.nodes_view()[choose|i: int| 0 <= i < self.node_ids().len() && self.node_ids()[i] == id].name_view()
        } else {
            crate::base::id::spec_uuid_text(id)
        }
    }

    /// The labels of `c` joined by `" → "`.
    pub open spec fn chain_text(&self, c: Seq<u128>) -> Seq<char>
        decreases c.len(),
    {
        if c.len() == 0 {
            Seq::empty()
        } else if c.len() == 1 {
            self.label(c[0])
        } else {
            self.chain_text(c.drop_last()) + " → "@ + self.label(c.last())
        }
    }

    fn label_of(&self, id: NodeId) -> (s: String)
        requires
            self.wf(),
        ensures
            s@ == self.label(id@),
    {
        match self.node_index(id) {
            Some(i) => {
                proof {
                    let j = choose|j: int| 0 <= j < self.node_ids().len() && self.node_ids()[j] == id@;
                    assert(j == i as int);
                }
                self.nodes[i].name().to_owned()
            },
            None => id.to_string(),
        }
    }

    /// A cycle rendered as the names of its nodes joined by arrows, such
    /// as `"Router → Fragmenter → Router"`; a node that is not in the
    /// graph is shown by its identifier.
    pub fn describe_cycle(&self, cycle: &[NodeId]) -> (s: String)
        requires
            self.wf(),
        ensures
            s@ == self.chain_text(id_views(cycle@)),
    {
        let ghost c = id_views(cycle@);
        let mut s = String::new();
        let mut i: usize = 0;
        assert(c.take(0) =~= Seq::<u128>::empty());
        while i < cycle.len()
            invariant
                self.wf(),
                c == id_views(cycle@),
                i <= cycle@.len(),
                s@ == self.chain_text(c.take(i as int)),
            decreases cycle@.len() - i,
        {
            if i > 0 {
                crate::text::push_str(&mut s, " → ");
            }
            let label = self.label_of(cycle[i]);
            crate::text::push_str(&mut s, label.as_str());
            proof {
                assert(c.take(i + 1).drop_last() =~= c.take(i as int));
                assert(c.take(i + 1).last() == c[i as int]);
                if i == 0 {
                    assert(c.take(1)[0] == c[0]);
                }
            }
            i += 1;
            assert(s@ =~= self.chain_text(c.take(i as int)));
        }
        assert(c.take(i as int) =~= c);
        s
    }

    /// Whether entry point `e` reaches an exit point that is a node.
    pub open spec fn entry_ok(&self, e: u128) -> bool {
        self.has_node(e) && exists|j: int| 0 <= j < self.exits().len() && self.has_node(#[trigger] self.exits()[j])
            && exists|k: nat| reach_within(self.edge_list(), e, self.exits()[j], k)
    }

    /// Whether node `v` is orphaned: neither an entry nor an exit point,
    /// and touched by no edge.
    pub open spec fn is_orphan(&self, v: u128) -> bool {
        &&& !self.entries().contains(v)
        &&& !self.exits().contains(v)
        &&& forall|j: int| 0 <= j < self.edge_list().len() ==> (#[trigger] self.edge_list()[j]).0 != v && self.edge_list()[j].1 != v
    }

    /// The reason given for an entry point that reaches no exit point.
    pub open spec fn unreachable_reason(&self, e: u128) -> Seq<char> {
        "entry point "@ + crate::base::id::spec_uuid_text(e) + " cannot reach any exit point"@
    }

    /// The reason given for an orphaned node.
    pub open spec fn orphan_reason(&self, v: u128) -> Seq<char> {
        "node '"@ + self.label(v) + "' ("@ + crate::base::id::spec_uuid_text(v) + ") is orphaned: no incoming or outgoing edges"@
    }

    /// Whether the graph passes validation.
    pub open spec fn valid(&self) -> bool {
        &&& forall|c: Seq<u128>| !#[trigger] self.is_cycle(c)
        &&& forall|i: int| 0 <= i < self.entries().len() ==> self.entry_ok(#[trigger] self.entries()[i])
        &&& forall|i: int| 0 <= i < self.node_ids().len() ==> !self.is_orphan(#[trigger] self.node_ids()[i])
    }

    fn reaches_an_exit(&self, entry: NodeId) -> (r: bool)
        requires
            self.wf(),
        ensures
            r == self.entry_ok(entry@),
    {
        let mut j: usize = 0;
        while j < self.exit_points.len()
            invariant
                self.wf(),
                j <= self.exits().len(),
                forall|x: int| 0 <= x < j ==> !(self.has_node(entry@) && self.has_node(#[trigger] self.exits()[x])
                    && exists|k: nat| reach_within(self.edge_list(), entry@, self.exits()[x], k)),
            decreases self.exits().len() - j,
        {
            let exit = self.exit_points[j];
            assert(self.exits()[j as int] == exit@);
            if self.find_path(entry, exit).is_some() {
                return true;
            }
            j += 1;
        }
        false
    }

    fn touched(&self, id: NodeId) -> (r: bool)
        ensures
            r == exists|j: int| 0 <= j < self.edge_list().len() && ((#[trigger] self.edge_list()[j]).0 == id@ || self.edge_list()[j].1 == id@),
    {
        let mut j: usize = 0;
        while j < self.edges.len()
            invariant
                j <= self.edges@.len(),
                forall|x: int| 0 <= x < j ==> (#[trigger] self.edge_list()[x]).0 != id@ && self.edge_list()[x].1 != id@,
            decreases self.edges@.len() - j,
        {
            if self.edges[j].to().same_as(&id) || self.edges[j].from().same_as(&id) {
                assert(self.edge_list()[j as int] == (self.edges@[j as int].from_view(), self.edges@[j as int].to_view()));
                return true;
            }
            j += 1;
        }
        false
    }

    /// Validates the graph: it has no cycle (allowed feedback edges
    /// aside), every entry point reaches an exit point, and no node other
    /// than an entry or exit point is orphaned. Fails with `Cycle`
    /// describing a cycle found, or with `BuildFailed` naming the first
    /// entry point that reaches no exit (in entry order), or else the
    /// first orphaned node (in node order).
    pub fn validate(&self) -> (r: Result<(), GraphError>)
        requires
            self.wf(),
        ensures
            r is Ok <==> self.valid(),
            (exists|c: Seq<u128>| #[trigger] self.is_cycle(c)) ==> r is Err && (r->Err_0 matches GraphError::Cycle { cycle }
                && exists|c: Seq<u128>| #[trigger] self.is_cycle(c) && cycle@ == self.chain_text(c)),
            (forall|c: Seq<u128>| !#[trigger] self.is_cycle(c)) && !self.valid() ==> r is Err && (r->Err_0 matches GraphError::BuildFailed { reason }
                && ((exists|i: int| 0 <= i < self.entries().len() && !self.entry_ok(#[trigger] self.entries()[i])
                    && (forall|j: int| 0 <= j < i ==> self.entry_ok(#[trigger] self.entries()[j]))
                    && reason@ == self.unreachable_reason(self.entries()[i]))
                || ((forall|i: int| 0 <= i < self.entries().len() ==> self.entry_ok(#[trigger] self.entries()[i]))
                    && exists|i: int| 0 <= i < self.node_ids().len() && self.is_orphan(#[trigger] self.node_ids()[i])
                    && (forall|j: int| 0 <= j < i ==> !self.is_orphan(#[trigger] self.node_ids()[j]))
                    && reason@ == self.orphan_reason(self.node_ids()[i])))),
    {
        match self.detect_cycle() {
            Some(c) => {
                let text = self.describe_cycle(c.as_slice());
                return Err(GraphError::Cycle { cycle: text });
            },
            None => {},
        }
        let mut i: usize = 0;
        while i < self.entry_points.len()
            invariant
                self.wf(),
                forall|c: Seq<u128>| !#[trigger] self.is_cycle(c),
                i <= self.entries().len(),
                forall|j: int| 0 <= j < i ==> self.entry_ok(#[trigger] self.entries()[j]),
            decreases self.entries().len() - i,
        {
            let entry = self.entry_points[i];
            assert(self.entries()[i as int] == entry@);
            if !self.reaches_an_exit(entry) {
                let mut reason = String::new();
                crate::text::push_str(&mut reason, "entry point ");
                let id_text = entry.to_string();
                crate::text::push_str(&mut reason, id_text.as_str());
                crate::text::push_str(&mut reason, " cannot reach any exit point");
                assert(reason@ =~= self.unreachable_reason(entry@));
                return Err(GraphError::BuildFailed { reason });
            }
            i += 1;
        }
        let mut v: usize = 0;
        while v < self.nodes.len()
            invariant
                self.wf(),
                forall|c: Seq<u128>| !#[trigger] self.is_cycle(c),
                forall|j: int| 0 <= j < self.entries().len() ==> self.entry_ok(#[trigger] self.entries()[j]),
                v <= self.node_ids().len(),
                forall|j: int| 0 <= j < v ==> !self.is_orphan(#[trigger] self.node_ids()[j]),
            decreases self.node_ids().len() - v,
        {
            let id = self.nodes[v].id();
            assert(self.node_ids()[v as int] == id@);
            if !contains_id(&self.entry_points, id) && !contains_id(&self.exit_points, id) && !self.touched(id) {
                let name = self.label_of(id);
                let mut reason = String::new();
                crate::text::push_str(&mut reason, "node '");
                crate::text::push_str(&mut reason, name.as_str());
                crate::text::push_str(&mut reason, "' (");
                let id_text = id.to_string();
                crate::text::push_str(&mut reason, id_text.as_str());
                crate::text::push_str(&mut reason, ") is orphaned: no incoming or outgoing edges");
                assert(reason@ =~= self.orphan_reason(id@));
                return Err(GraphError::BuildFailed { reason });
            }
            v += 1;
        }
        Ok(())
    }

    /// The number of nodes.
    pub fn node_count(&self) -> (n: usize)
        ensures
            n == self.node_ids().len(),
    {
        self.nodes.len()
    }

    /// The number of edges.
    pub fn edge_count(&self) -> (n: usize)
        ensures
            n == self.edge_list().len(),
    {
        self.edges.len()
    }

    /// The entry points.
    pub fn entry_points(&self) -> (r: &[NodeId])
        ensures
            id_views(r@) == self.entries(),
    {
        self.entry_points.as_slice()
    }

    /// The exit points.
    pub fn exit_points(&self) -> (r: &[NodeId])
        ensures
            id_views(r@) == self.exits(),
    {
        self.exit_points.as_slice()
    }

    /// The node with identifier `id`, if any.
    pub fn node(&self, id: NodeId) -> (r: Option<&GraphNode>)
        ensures
            r is Some <==> self.has_node(id@),
            r matches Some(n) ==> n.id_view() == id@ && self.nodes_view().contains(*n),
    {
        match self.node_index(id) {
            Some(i) => {
                assert(self.nodes_view()[i as int] == self.nodes@[i as int]);
                Some(&self.nodes[i])
            },
            None => None,
        }
    }

    /// Every node's identifier, in the order added.
    pub fn node_id_list(&self) -> (r: Vec<NodeId>)
        ensures
            id_views(r@) == self.node_ids(),
    {
        let mut r: Vec<NodeId> = Vec::new();
        let mut i: usize = 0;
        while i < self.nodes.len()
            invariant
                i <= self.nodes@.len(),
                r@.len() == i,
                id_views(r@) == self.node_ids().take(i as int),
            decreases self.nodes@.len() - i,
        {
            r.push(self.nodes[i].id());
            i += 1;
            assert(id_views(r@) =~= self.node_ids().take(i as int));
        }
        assert(self.node_ids().take(i as int) =~= self.node_ids());
        r
    }

    /// The edges leaving `id`, in the order connected.
    pub fn edges_from(&self, id: NodeId) -> (r: Vec<&Edge>)
        ensures
            r@.len() == edges_leaving(self.edges_view(), id@).len(),
            forall|k: int| 0 <= k < r@.len() ==> *(#[trigger] r@[k]) == edges_leaving(self.edges_view(), id@)[k],
    {
        let ghost ev = self.edges_view();
        let mut r: Vec<&Edge> = Vec::new();
        let mut i: usize = 0;
        while i < self.edges.len()
            invariant
                ev == self.edges_view(),
                ev == self.edges@,
                i <= self.edges@.len(),
                r@.len() == edges_leaving(ev.take(i as int), id@).len(),
                forall|k: int| 0 <= k < r@.len() ==> *(#[trigger] r@[k]) == edges_leaving(ev.take(i as int), id@)[k],
            decreases self.edges@.len() - i,
        {
            proof {
                assert(ev.take(i + 1).drop_last() =~= ev.take(i as int));
                assert(ev.take(i + 1).last() == ev[i as int]);
            }
            let ghost r0 = r@;
            if self.edges[i].from().same_as(&id) {
                r.push(&self.edges[i]);
                proof {
                    assert forall|k: int| 0 <= k < r@.len() implies *(#[trigger] r@[k]) == edges_leaving(ev.take(i + 1), id@)[k] by {
                        if k < r0.len() {
                            assert(r@[k] == r0[k]);
                        }
                    }
                }
            }
            i += 1;
        }
        assert(ev.take(i as int) =~= ev);
        r
    }

    /// The node at each index carries the identifier at that index, and
    /// each edge joins the pair at its index.
    pub proof fn lemma_views(&self)
        ensures
            self.node_ids().len() == self.nodes_view().len(),
            forall|i: int| 0 <= i < self.node_ids().len() ==> #[trigger] self.node_ids()[i] == self.nodes_view()[i].id_view(),
            self.edge_list().len() == self.edges_view().len(),
            forall|j: int| 0 <= j < self.edge_list().len() ==> #[trigger] self.edge_list()[j] == (self.edges_view()[j].from_view(), self.edges_view()[j].to_view()),
    {
    }
}

/// The edges of `es` that leave `a`, in order.
pub open spec fn edges_leaving(es: Seq<Edge>, a: u128) -> Seq<Edge>
    decreases es.len(),
{
    if es.len() == 0 {
        Seq::empty()
    } else {
        edges_leaving(es.drop_last(), a) + if es.last().from_view() == a {
            seq![es.last()]
        } else {
            Seq::empty()
        }
    }
}

/// The number of edges leaving `a`.
pub open spec fn count_from(es: Seq<(u128, u128)>, a: u128) -> nat
    decreases es.len(),
{
    if es.len() == 0 {
        0
    } else {
        count_from(es.drop_last(), a) + if es.last().0 == a { 1nat } else { 0nat }
    }
}

/// Whether `e` reports that the node `id` is missing.
pub open spec fn is_missing_node(e: GraphError, id: u128) -> bool {
    e matches GraphError::MissingNode { node_id } && node_id@ == crate::base::id::spec_uuid_text(id)
}

/// `es` without the edges touching `id`, in order.
pub open spec fn without_node_edges(es: Seq<(u128, u128)>, id: u128) -> Seq<(u128, u128)>
    decreases es.len(),
{
    if es.len() == 0 {
        es
    } else if es.last().0 == id || es.last().1 == id {
        without_node_edges(es.drop_last(), id)
    } else {
        without_node_edges(es.drop_last(), id).push(es.last())
    }
}

/// `s` without `id`, in order.
pub open spec fn without_id(s: Seq<u128>, id: u128) -> Seq<u128>
    decreases s.len(),
{
    if s.len() == 0 {
        s
    } else if s.last() == id {
        without_id(s.drop_last(), id)
    } else {
        without_id(s.drop_last(), id).push(s.last())
    }
}

/// The index of the first edge from `a` to `b`, if any.
pub open spec fn first_edge(es: Seq<(u128, u128)>, a: u128, b: u128) -> Option<int>
    decreases es.len(),
{
    if es.len() == 0 {
        None
    } else if es[0] == (a, b) {
        Some(0)
    } else {
        match first_edge(es.drop_first(), a, b) {
            Some(k) => Some(k + 1),
            None => None,
        }
    }
}

proof fn lemma_without_id_distinct(s: Seq<u128>, i: int)
    requires
        0 <= i < s.len(),
        forall|a: int, b: int| 0 <= a < b < s.len() ==> s[a] != s[b],
    ensures
        s.remove(i) == without_id(s, s[i]),
    decreases s.len(),
{
    if i == s.len() - 1 {
        assert(s.remove(i) =~= s.drop_last());
        lemma_without_absent(s.drop_last(), s[i]);
    } else {
        lemma_without_id_distinct(s.drop_last(), i);
        assert(s.remove(i) =~= s.drop_last().remove(i).push(s.last()));
        assert(s.last() != s[i]);
        assert(s.drop_last()[i] == s[i]);
    }
}

proof fn lemma_without_absent(s: Seq<u128>, id: u128)
    requires
        !s.contains(id),
    ensures
        without_id(s, id) == s,
    decreases s.len(),
{
    if s.len() > 0 {
        assert(!s.drop_last().contains(id)) by {
            if s.drop_last().contains(id) {
                let k = choose|k: int| 0 <= k < s.drop_last().len() && s.drop_last()[k] == id;
                assert(s[k] == id);
            }
        }
        lemma_without_absent(s.drop_last(), id);
        assert(s[s.len() - 1] == s.last());
        assert(s.drop_last().push(s.last()) =~= s);
    }
}

proof fn lemma_without_id_contains(s: Seq<u128>, id: u128, x: u128)
    ensures
        without_id(s, id).contains(x) <==> (s.contains(x) && x != id),
    decreases s.len(),
{
    if s.len() > 0 {
        lemma_without_id_contains(s.drop_last(), id, x);
        let w = without_id(s.drop_last(), id);
        if s.drop_last().contains(x) {
            let k = choose|k: int| 0 <= k < s.drop_last().len() && s.drop_last()[k] == x;
            assert(s[k] == x);
        }
        if s.contains(x) && s.last() != x {
            let k = choose|k: int| 0 <= k < s.len() && s[k] == x;
            assert(s.drop_last()[k] == x);
        }
        if s.last() != id {
            if w.contains(x) {
                let k = choose|k: int| 0 <= k < w.len() && w[k] == x;
                assert(w.push(s.last())[k] == x);
            }
            if w.push(s.last()).contains(x) && x != s.last() {
                let k = choose|k: int| 0 <= k < w.len() + 1 && w.push(s.last())[k] == x;
                assert(k < w.len());
            }
            assert(w.push(s.last())[w.len() as int] == s.last());
        }
        assert(s[s.len() - 1] == s.last());
    }
}

proof fn lemma_without_edges_in(es: Seq<(u128, u128)>, id: u128, e: (u128, u128))
    ensures
        without_node_edges(es, id).contains(e) <==> (es.contains(e) && e.0 != id && e.1 != id),
    decreases es.len(),
{
    if es.len() > 0 {
        lemma_without_edges_in(es.drop_last(), id, e);
        let w = without_node_edges(es.drop_last(), id);
        if es.drop_last().contains(e) {
            let k = choose|k: int| 0 <= k < es.drop_last().len() && es.drop_last()[k] == e;
            assert(es[k] == e);
        }
        if es.contains(e) && es.last() != e {
            let k = choose|k: int| 0 <= k < es.len() && es[k] == e;
            assert(es.drop_last()[k] == e);
        }
        if !(es.last().0 == id || es.last().1 == id) {
            if w.contains(e) {
                let k = choose|k: int| 0 <= k < w.len() && w[k] == e;
                assert(w.push(es.last())[k] == e);
            }
            if w.push(es.last()).contains(e) && e != es.last() {
                let k = choose|k: int| 0 <= k < w.len() + 1 && w.push(es.last())[k] == e;
                assert(k < w.len());
            }
            assert(w.push(es.last())[w.len() as int] == es.last());
        }
        assert(es[es.len() - 1] == es.last());
    }
}

fn retain_ids(v: Vec<NodeId>, id: NodeId) -> (r: Vec<NodeId>)
    ensures
        id_views(r@) == without_id(id_views(v@), id@),
{
    let mut r: Vec<NodeId> = Vec::new();
    let mut i: usize = 0;
    while i < v.len()
        invariant
            i <= v@.len(),
            id_views(r@) == without_id(id_views(v@).take(i as int), id@),
        decreases v@.len() - i,
    {
        proof {
            assert(id_views(v@).take(i + 1).drop_last() =~= id_views(v@).take(i as int));
        }
        if !v[i].same_as(&id) {
            let ghost before = r@;
            r.push(v[i]);
            assert(id_views(r@) =~= id_views(before).push(v@[i as int]@));
        }
        i += 1;
    }
    assert(id_views(v@).take(i as int) =~= id_views(v@));
    r
}

/// Once every edge out of the frontier at level `k` has been followed,
/// the visited indices are exactly those reachable within `k + 1` steps.
proof fn lemma_bfs_level_closed(
    es: Seq<(u128, u128)>,
    ids: Seq<u128>,
    from: u128,
    frontier: Seq<usize>,
    visited: Seq<bool>,
    level: Seq<usize>,
    n: int,
    k: nat,
)
    requires
        n == ids.len(),
        visited.len() == n,
        level.len() == n,
        forall|j: int| 0 <= j < es.len() ==> ids.contains((#[trigger] es[j]).0) && ids.contains(es[j].1),
        layer_ok(frontier, visited, level, n, k as int),
        forall|s: int| 0 <= s < frontier.len() ==> (#[trigger] frontier[s]) < n,
        forall|v: int| 0 <= v < n && #[trigger] visited[v] ==> level[v] <= k + 1 && reach_within(es, from, ids[v], level[v] as nat),
        forall|v: int| #![trigger visited[v]] 0 <= v < n && reach_within(es, from, ids[v], k) ==> visited[v] && level[v] <= k,
        forall|p: int, v: int| #![trigger frontier[p], visited[v]] 0 <= p < frontier.len() && 0 <= v < n && has_edge(es, ids[frontier[p] as int], ids[v]) ==> visited[v],
    ensures
        forall|v: int| 0 <= v < n ==> (#[trigger] visited[v] <==> reach_within(es, from, ids[v], k + 1)),
{
    assert forall|v: int| 0 <= v < n implies (#[trigger] visited[v] <==> reach_within(es, from, ids[v], k + 1)) by {
        if visited[v] {
            crate::graph::reach::lemma_reach_mono(es, from, ids[v], level[v] as nat, k + 1);
        }
        if reach_within(es, from, ids[v], k + 1) && !reach_within(es, from, ids[v], k) {
            let e = choose|e: int| 0 <= e < es.len() && #[trigger] es[e].1 == ids[v] && reach_within(es, from, es[e].0, k);
            assert(ids.contains(es[e].0));
            let u = choose|u: int| 0 <= u < ids.len() && ids[u] == es[e].0;
            assert(0 <= u < n);
            assert(reach_within(es, from, ids[u], k));
            assert(visited[u]);
            assert(level[u] <= k);
            assert(has_edge(es, ids[u], ids[v])) by {
                assert(es[e] == (ids[u], ids[v]));
            }
            lemma_layer_at(frontier, visited, level, n, k as int, u);
            if level[u] == k {
                assert(in_list(frontier, u));
                let p = choose|p: int| 0 <= p < frontier.len() && #[trigger] frontier[p] as int == u;
                assert(visited[v]);
            } else {
                assert(reach_within(es, from, ids[u], level[u] as nat));
                assert(reach_within(es, from, ids[v], (level[u] + 1) as nat)) by {
                    assert(es[e].1 == ids[v]);
                }
                crate::graph::reach::lemma_reach_mono(es, from, ids[v], (level[u] + 1) as nat, k);
            }
        }
    }
}

/// The number of `true` entries.
pub open spec fn count_true(s: Seq<bool>) -> nat
    decreases s.len(),
{
    if s.len() == 0 {
        0
    } else {
        count_true(s.drop_last()) + if s.last() { 1nat } else { 0nat }
    }
}

proof fn lemma_count_true_bound(s: Seq<bool>)
    ensures
        count_true(s) <= s.len(),
    decreases s.len(),
{
    if s.len() > 0 {
        lemma_count_true_bound(s.drop_last());
    }
}

proof fn lemma_count_true_set(s: Seq<bool>, i: int)
    requires
        0 <= i < s.len(),
        !s[i],
    ensures
        count_true(s.update(i, true)) == count_true(s) + 1,
    decreases s.len(),
{
    let t = s.update(i, true);
    if i == s.len() - 1 {
        assert(t.drop_last() =~= s.drop_last());
    } else {
        assert(t.drop_last() =~= s.drop_last().update(i, true));
        lemma_count_true_set(s.drop_last(), i);
    }
}

proof fn lemma_reach_node(es: Seq<(u128, u128)>, ids: Seq<u128>, a: u128, b: u128, k: nat)
    requires
        ids.contains(a),
        forall|j: int| 0 <= j < es.len() ==> ids.contains((#[trigger] es[j]).1),
        reach_within(es, a, b, k),
    ensures
        ids.contains(b),
    decreases k,
{
    if k > 0 {
        if reach_within(es, a, b, (k - 1) as nat) {
            lemma_reach_node(es, ids, a, b, (k - 1) as nat);
        } else {
            let j = choose|j: int|
                0 <= j < es.len() && #[trigger] es[j].1 == b && reach_within(es, a, es[j].0, (k - 1) as nat);
            assert(ids.contains(es[j].1));
        }
    }
}

proof fn lemma_count_none(s: Seq<bool>)
    requires
        forall|i: int| 0 <= i < s.len() ==> !s[i],
    ensures
        count_true(s) == 0,
    decreases s.len(),
{
    if s.len() > 0 {
        lemma_count_none(s.drop_last());
    }
}

proof fn lemma_stable_reach(es: Seq<(u128, u128)>, ids: Seq<u128>, a: u128, k: nat, j: nat, b: int)
    requires
        0 <= b < ids.len(),
        ids.contains(a),
        forall|e: int| 0 <= e < es.len() ==> ids.contains((#[trigger] es[e]).1),
        forall|v: int| 0 <= v < ids.len() && reach_within(es, a, ids[v], k + 1) ==> #[trigger] reach_within(es, a, ids[v], k),
        reach_within(es, a, ids[b], j),
    ensures
        reach_within(es, a, ids[b], k),
    decreases j, 0nat,
{
    if j <= k {
        crate::graph::reach::lemma_reach_mono(es, a, ids[b], j, k);
    } else if reach_within(es, a, ids[b], (j - 1) as nat) {
        lemma_stable_reach(es, ids, a, k, (j - 1) as nat, b);
    } else {
        let e = choose|e: int| 0 <= e < es.len() && #[trigger] es[e].1 == ids[b] && reach_within(es, a, es[e].0, (j - 1) as nat);
        assert(ids.contains(es[e].1));
        lemma_stable_reach_any(es, ids, a, k, (j - 1) as nat, es[e].0);
        assert(reach_within(es, a, ids[b], k + 1));
    }
}

proof fn lemma_stable_reach_any(es: Seq<(u128, u128)>, ids: Seq<u128>, a: u128, k: nat, j: nat, c: u128)
    requires
        forall|e: int| 0 <= e < es.len() ==> ids.contains((#[trigger] es[e]).1),
        forall|v: int| 0 <= v < ids.len() && reach_within(es, a, ids[v], k + 1) ==> #[trigger] reach_within(es, a, ids[v], k),
        reach_within(es, a, c, j),
        ids.contains(a),
    ensures
        reach_within(es, a, c, k),
    decreases j, 1nat,
{
    crate::graph::flow::lemma_reach_node(es, ids, a, c, j);
    let b = choose|b: int| 0 <= b < ids.len() && ids[b] == c;
    lemma_stable_reach(es, ids, a, k, j, b);
}

proof fn lemma_descending(pos: spec_fn(int) -> int, x: int)
    requires
        x >= 1,
        forall|y: int| 0 <= y < x ==> pos(y + 1) < #[trigger] pos(y),
    ensures
        pos(x) < pos(0),
    decreases x,
{
    if x > 1 {
        lemma_descending(pos, x - 1);
        assert(pos((x - 1) + 1) < pos(x - 1));
    } else {
        assert(pos(0int + 1) < pos(0));
    }
}

fn contains_id(v: &Vec<NodeId>, id: NodeId) -> (r: bool)
    ensures
        r == id_views(v@).contains(id@),
{
    let mut i: usize = 0;
    while i < v.len()
        invariant
            i <= v@.len(),
            forall|k: int| 0 <= k < i ==> id_views(v@)[k] != id@,
        decreases v@.len() - i,
    {
        if v[i].same_as(&id) {
            assert(id_views(v@)[i as int] == id@);
            return true;
        }
        i += 1;
    }
    false
}

} // verus!

//! The mathematical model of a dependency graph, and what it means for one
//! to be valid.

use vstd::prelude::*;
use crate::graph::node::{id_lt, EdgeView, NodeId};

verus! {

/// A graph as contracts see it: its nodes in the order in which they were
/// added, and for each node the edges that leave it, in the order in which
/// they were added.
pub struct GraphView {
    pub nodes: Seq<NodeId>,
    pub edges: Seq<Seq<EdgeView>>,
}

/// The sum of the weights of a list of edges.
pub open spec fn weight_sum(es: Seq<EdgeView>) -> nat
    decreases es.len(),
{
    if es.len() == 0 {
        0
    } else {
        weight_sum(es.drop_last()) + es.last().weight
    }
}

/// The destinations among `es` that are not in `nodes`, in order.
pub open spec fn dangling(nodes: Seq<NodeId>, es: Seq<EdgeView>) -> Seq<NodeId>
    decreases es.len(),
{
    if es.len() == 0 {
        Seq::empty()
    } else if nodes.contains(es.last().to) {
        dangling(nodes, es.drop_last())
    } else {
        dangling(nodes, es.drop_last()).push(es.last().to)
    }
}

impl GraphView {
    /// Every node has its list of edges, and no node occurs twice.
    pub open spec fn wf(self) -> bool {
        &&& self.nodes.len() == self.edges.len()
        &&& self.nodes.no_duplicates()
    }

    /// The graph without nodes.
    pub open spec fn empty() -> GraphView {
        GraphView { nodes: Seq::empty(), edges: Seq::empty() }
    }

    /// The graph after `n` was added: unchanged if it holds `n` already.
    pub open spec fn with_node(self, n: NodeId) -> GraphView {
        if self.nodes.contains(n) {
            self
        } else {
            GraphView { nodes: self.nodes.push(n), edges: self.edges.push(Seq::empty()) }
        }
    }

    /// The graph after an edge was added to the node `from`, which it holds.
    pub open spec fn with_edge(self, from: NodeId, e: EdgeView) -> GraphView {
        let i = self.nodes.index_of(from);
        GraphView { nodes: self.nodes, edges: self.edges.update(i, self.edges[i].push(e)) }
    }

    /// The `j`-th edge of the `i`-th node leads from `u` to `v`.
    pub open spec fn arc(self, i: int, j: int, u: NodeId, v: NodeId) -> bool {
        &&& 0 <= i < self.nodes.len()
        &&& 0 <= j < self.edges[i].len()
        &&& self.nodes[i] == u
        &&& self.edges[i][j].to == v
    }

    /// The node `u` has an edge to `v`: `u` depends on `v`.
    pub open spec fn has_edge(self, u: NodeId, v: NodeId) -> bool {
        exists|i: int, j: int| self.arc(i, j, u, v)
    }

    /// Each node of `p` has an edge to the next one.
    pub open spec fn is_path(self, p: Seq<NodeId>) -> bool {
        &&& p.len() >= 1
        &&& forall|k: int| 0 <= k < p.len() - 1 ==> self.has_edge(#[trigger] p[k], p[k + 1])
    }

    /// `p` is a path whose last node has an edge back to its first.
    pub open spec fn is_cycle(self, p: Seq<NodeId>) -> bool {
        &&& self.is_path(p)
        &&& self.has_edge(p.last(), p[0])
    }

    /// Some nodes depend on each other in a circle.
    pub open spec fn has_cycle(self) -> bool {
        exists|p: Seq<NodeId>| self.is_cycle(p)
    }

    /// Every edge leads to a node of the graph.
    pub open spec fn resolved(self) -> bool {
        forall|i: int, j: int|
            0 <= i < self.nodes.len() && 0 <= j < self.edges[i].len() ==> self.nodes.contains(
                (#[trigger] self.edges[i][j]).to,
            )
    }

    /// The destinations that are not nodes, over the first `i` nodes.
    pub open spec fn unresolved_upto(self, i: int) -> Seq<NodeId>
        decreases i,
    {
        if i <= 0 {
            Seq::empty()
        } else {
            self.unresolved_upto(i - 1) + dangling(self.nodes, self.edges[i - 1])
        }
    }

    /// The destinations of edges that are not nodes of the graph, in the order
    /// of the nodes and of their edges.
    pub open spec fn unresolved(self) -> Seq<NodeId> {
        self.unresolved_upto(self.nodes.len() as int)
    }

    /// Free of cycles and of edges that lead nowhere.
    pub open spec fn valid(self) -> bool {
        !self.has_cycle() && self.resolved()
    }

    /// The summed weight of the edges that leave `n`.
    pub open spec fn weight_of(self, n: NodeId) -> nat {
        weight_sum(self.edges[self.nodes.index_of(n)])
    }

    /// The order in which nodes that are ready together are placed: the one
    /// with the smaller summed weight first, then by identity.
    pub open spec fn key_lt(self, a: NodeId, b: NodeId) -> bool {
        self.weight_of(a) < self.weight_of(b) || (self.weight_of(a) == self.weight_of(b) && id_lt(
            a,
            b,
        ))
    }

    /// `n` can be placed after `placed`: it is a node not yet placed, and all
    /// that it depends on has been placed.
    pub open spec fn ready(self, placed: Seq<NodeId>, n: NodeId) -> bool {
        &&& self.nodes.contains(n)
        &&& !placed.contains(n)
        &&& forall|v: NodeId| self.has_edge(n, v) ==> placed.contains(v)
    }

    /// `n` is the first, by [`GraphView::key_lt`], of the nodes that are ready.
    pub open spec fn first_ready(self, placed: Seq<NodeId>, n: NodeId) -> bool {
        &&& self.ready(placed, n)
        &&& forall|m: NodeId| self.ready(placed, m) ==> !self.key_lt(m, n)
    }

    /// `order` is the build order of the graph: each place holds the first of
    /// the nodes that are ready after those before it, and nothing is ready
    /// after the last.
    pub open spec fn is_build_order(self, order: Seq<NodeId>) -> bool {
        &&& forall|k: int| 0 <= k < order.len() ==> self.first_ready(order.take(k), #[trigger] order[k])
        &&& forall|m: NodeId| !self.ready(order, m)
    }

    /// `order` holds every node of the graph once, and nothing else.
    pub open spec fn is_total(self, order: Seq<NodeId>) -> bool {
        &&& order.no_duplicates()
        &&& order.len() == self.nodes.len()
        &&& forall|n: NodeId| self.nodes.contains(n) <==> order.contains(n)
    }

    /// In `order`, whatever a node depends on stands before it.
    pub open spec fn respects_edges(self, order: Seq<NodeId>) -> bool {
        forall|k: int, v: NodeId|
            0 <= k < order.len() && #[trigger] self.has_edge(order[k], v) ==> exists|b: int|
                0 <= b < k && order[b] == v
    }
}

} // verus!

//! What follows from the definition of the build order.

use vstd::prelude::*;
use crate::graph::acyclic::{
    all_waiting, idx_arc, is_ranking, lemma_bounded_distinct, lemma_ranking_excludes_cycle,
    lemma_waiting_has_cycle, waits,
};
use crate::graph::model::GraphView;
use crate::graph::node::{lemma_id_lt_irreflexive, lemma_id_lt_total, lemma_id_lt_transitive, NodeId};

verus! {

/// The order in which ready nodes are placed is transitive.
pub proof fn lemma_key_lt_transitive(g: GraphView, a: NodeId, b: NodeId, c: NodeId)
    requires
        g.key_lt(a, b),
        g.key_lt(b, c),
    ensures
        g.key_lt(a, c),
{
    if g.weight_of(a) == g.weight_of(b) && g.weight_of(b) == g.weight_of(c) {
        lemma_id_lt_transitive(a, b, c);
    }
}

/// Of two different nodes, one is placed before the other.
pub proof fn lemma_key_lt_total(g: GraphView, a: NodeId, b: NodeId)
    ensures
        a == b || g.key_lt(a, b) || g.key_lt(b, a),
        !g.key_lt(a, a),
{
    lemma_id_lt_total(a, b);
    lemma_id_lt_irreflexive(a);
}

/// A list of distinct nodes of the graph is no longer than the graph has
/// nodes.
pub proof fn lemma_distinct_nodes_bounded(g: GraphView, order: Seq<NodeId>)
    requires
        g.wf(),
        order.no_duplicates(),
        forall|k: int| 0 <= k < order.len() ==> g.nodes.contains(#[trigger] order[k]),
    ensures
        order.len() <= g.nodes.len(),
{
    let s = Seq::new(order.len(), |k: int| g.nodes.index_of(order[k]));
    assert forall|a: int, b: int| 0 <= a < s.len() && 0 <= b < s.len() && a != b implies s[a] != s[b] by {
        assert(g.nodes.contains(order[a]));
        assert(g.nodes.contains(order[b]));
        assert(g.nodes[s[a]] == order[a]);
        assert(g.nodes[s[b]] == order[b]);
    }
    assert forall|k: int| 0 <= k < s.len() implies 0 <= #[trigger] s[k] < g.nodes.len() by {
        assert(g.nodes.contains(order[k]));
    }
    lemma_bounded_distinct(s, g.nodes.len() as int);
}

/// The build order holds no node twice, and only nodes of the graph.
pub proof fn lemma_build_order_distinct(g: GraphView, order: Seq<NodeId>)
    requires
        g.is_build_order(order),
    ensures
        order.no_duplicates(),
        forall|k: int| 0 <= k < order.len() ==> g.nodes.contains(#[trigger] order[k]),
{
    assert forall|a: int, b: int| 0 <= a < order.len() && 0 <= b < order.len() && a != b implies order[a]
        != order[b] by {
        if a < b {
            assert(g.first_ready(order.take(b), order[b]));
            assert(order.take(b)[a] == order[a]);
        } else {
            assert(g.first_ready(order.take(a), order[a]));
            assert(order.take(a)[b] == order[b]);
        }
    }
    assert forall|k: int| 0 <= k < order.len() implies g.nodes.contains(#[trigger] order[k]) by {
        assert(g.first_ready(order.take(k), order[k]));
    }
}

/// In the build order, whatever a node depends on stands before it.
pub proof fn lemma_build_order_respects_edges(g: GraphView, order: Seq<NodeId>)
    requires
        g.is_build_order(order),
    ensures
        g.respects_edges(order),
{
    assert forall|k: int, v: NodeId| 0 <= k < order.len() && #[trigger] g.has_edge(order[k], v) implies exists|
        b: int,
    |
        0 <= b < k && order[b] == v by {
        assert(g.first_ready(order.take(k), order[k]));
        assert(order.take(k).contains(v));
        let b = choose|b: int| 0 <= b < order.take(k).len() && order.take(k)[b] == v;
        assert(order[b] == v);
    }
}

/// The build order of a valid graph holds every node of the graph.
pub proof fn lemma_build_order_total(g: GraphView, order: Seq<NodeId>)
    requires
        g.wf(),
        g.valid(),
        g.is_build_order(order),
    ensures
        g.is_total(order),
{
    lemma_build_order_distinct(g, order);
    let waiting = Set::new(|i: int| 0 <= i < g.nodes.len() && !order.contains(g.nodes[i]));
    assert forall|i: int| waiting.contains(i) implies #[trigger] waits(g, waiting, i) by {
        let u = g.nodes[i];
        assert(g.nodes.contains(u));
        assert(!g.ready(order, u));
        let v = choose|v: NodeId| g.has_edge(u, v) && !order.contains(v);
        let (a, j) = choose|a: int, j: int| #[trigger] g.arc(a, j, u, v);
        assert(g.arc(a, j, u, v));
        assert(a == i);
        assert(g.nodes.contains(g.edges[i][j].to));
        let t = g.nodes.index_of(v);
        assert(waiting.contains(t));
        assert(idx_arc(g, i, t));
    }
    assert(all_waiting(g, waiting));
    assert forall|n: NodeId| g.nodes.contains(n) implies order.contains(n) by {
        if !order.contains(n) {
            let i = g.nodes.index_of(n);
            assert(waiting.contains(i));
            lemma_waiting_has_cycle(g, waiting, i);
        }
    }
    lemma_distinct_nodes_bounded(g, order);
    let back = GraphView { nodes: order, edges: Seq::new(order.len(), |k: int| Seq::empty()) };
    assert forall|k: int| 0 <= k < g.nodes.len() implies back.nodes.contains(#[trigger] g.nodes[k]) by {
        assert(g.nodes.contains(g.nodes[k]));
    }
    lemma_distinct_nodes_bounded(back, g.nodes);
}

/// A graph whose build order holds every node is valid.
pub proof fn lemma_total_build_order_valid(g: GraphView, order: Seq<NodeId>)
    requires
        g.wf(),
        g.is_build_order(order),
        g.is_total(order),
    ensures
        g.valid(),
{
    lemma_build_order_respects_edges(g, order);
    let fin = Seq::new(order.len(), |k: int| g.nodes.index_of(order[k]));
    assert forall|k: int| 0 <= k < fin.len() implies 0 <= #[trigger] fin[k] < g.nodes.len() && g.nodes[fin[k]]
        == order[k] by {
        assert(order.contains(order[k]));
        assert(g.nodes.contains(order[k]));
    }
    assert(fin.no_duplicates()) by {
        assert forall|a: int, b: int| 0 <= a < fin.len() && 0 <= b < fin.len() && a != b implies fin[a]
            != fin[b] by {
            assert(g.nodes[fin[a]] == order[a]);
            assert(g.nodes[fin[b]] == order[b]);
        }
    }
    assert forall|i: int| 0 <= i < g.nodes.len() implies fin.contains(i) by {
        assert(g.nodes.contains(g.nodes[i]));
        assert(order.contains(g.nodes[i]));
        let k = choose|k: int| 0 <= k < order.len() && order[k] == g.nodes[i];
        assert(g.nodes[fin[k]] == order[k]);
        assert(fin[k] == i);
    }
    assert forall|a: int, j: int|
        0 <= a < fin.len() && 0 <= j < g.edges[fin[a]].len() implies exists|b: int|
        0 <= b < a && g.nodes[#[trigger] fin[b]] == (#[trigger] g.edges[fin[a]][j]).to by {
        let v = g.edges[fin[a]][j].to;
        assert(g.nodes[fin[a]] == order[a]);
        assert(g.arc(fin[a], j, order[a], v));
        assert(g.has_edge(order[a], v));
        let b = choose|b: int| 0 <= b < a && order[b] == v;
        assert(g.nodes[fin[b]] == order[b]);
    }
    assert(is_ranking(g, fin));
    lemma_ranking_excludes_cycle(g, fin);
    assert forall|i: int, j: int|
        0 <= i < g.nodes.len() && 0 <= j < g.edges[i].len() implies g.nodes.contains(
        (#[trigger] g.edges[i][j]).to,
    ) by {
        assert(fin.contains(i));
        let a = choose|a: int| 0 <= a < fin.len() && fin[a] == i;
        let e = g.edges[fin[a]][j];
        let b = choose|b: int| 0 <= b < a && g.nodes[#[trigger] fin[b]] == e.to;
        assert(0 <= fin[b] < g.nodes.len());
    }
}

/// Two build orders of one graph agree as far as both go.
proof fn lemma_build_orders_agree(g: GraphView, a: Seq<NodeId>, b: Seq<NodeId>, k: int)
    requires
        g.is_build_order(a),
        g.is_build_order(b),
        0 <= k <= a.len(),
        k <= b.len(),
    ensures
        a.take(k) == b.take(k),
    decreases k,
{
    if k == 0 {
        assert(a.take(0) =~= b.take(0));
    } else {
        lemma_build_orders_agree(g, a, b, k - 1);
        let done = a.take(k - 1);
        assert(g.first_ready(done, a[k - 1]));
        assert(g.first_ready(b.take(k - 1), b[k - 1]));
        lemma_key_lt_total(g, a[k - 1], b[k - 1]);
        assert(a.take(k) =~= a.take(k - 1).push(a[k - 1]));
        assert(b.take(k) =~= b.take(k - 1).push(b[k - 1]));
    }
}

/// A graph has one build order only.
pub proof fn lemma_build_order_unique(g: GraphView, a: Seq<NodeId>, b: Seq<NodeId>)
    requires
        g.is_build_order(a),
        g.is_build_order(b),
    ensures
        a == b,
{
    let k = if a.len() <= b.len() {
        a.len() as int
    } else {
        b.len() as int
    };
    lemma_build_orders_agree(g, a, b, k);
    if a.len() < b.len() {
        assert(a.take(k) =~= a);
        assert(g.first_ready(b.take(k), b[k]));
        assert(false);
    }
    if b.len() < a.len() {
        assert(b.take(k) =~= b);
        assert(g.first_ready(a.take(k), a[k]));
        assert(false);
    }
    assert(a.take(k) =~= a);
    assert(b.take(k) =~= b);
}

} // verus!

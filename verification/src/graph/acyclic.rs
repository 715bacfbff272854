//! Why the searches of the graph are right: a graph whose nodes can be ranked
//! below what depends on them has no cycle, and a graph in which some nodes
//! all wait for each other has one.

use vstd::prelude::*;
use crate::graph::model::GraphView;
use crate::graph::node::NodeId;

verus! {

/// The node at position `i` has an edge to the node at position `t`.
pub open spec fn idx_arc(g: GraphView, i: int, t: int) -> bool {
    &&& 0 <= i < g.nodes.len()
    &&& 0 <= t < g.nodes.len()
    &&& exists|j: int| 0 <= j < g.edges[i].len() && (#[trigger] g.edges[i][j]).to == g.nodes[t]
}

/// `q` lists positions of nodes, each with an edge to the next.
pub open spec fn idx_path(g: GraphView, q: Seq<int>) -> bool {
    &&& q.len() >= 1
    &&& forall|k: int| 0 <= k < q.len() - 1 ==> idx_arc(g, #[trigger] q[k], q[k + 1])
}

/// `q` is a path whose last node has an edge back to its first.
pub open spec fn idx_cycle(g: GraphView, q: Seq<int>) -> bool {
    &&& idx_path(g, q)
    &&& idx_arc(g, q.last(), q[0])
}

/// A list of distinct numbers below `n` has at most `n` entries.
pub proof fn lemma_bounded_distinct(s: Seq<int>, n: int)
    requires
        0 <= n,
        s.no_duplicates(),
        forall|k: int| 0 <= k < s.len() ==> 0 <= #[trigger] s[k] < n,
    ensures
        s.len() <= n,
{
    if s.len() > 0 {
        assert(0 <= s[0] < n);
        vstd::set_lib::lemma_int_range(0, n);
        s.unique_seq_to_set();
        let range = vstd::set_lib::set_int_range(0, n);
        assert(s.to_set().subset_of(range)) by {
            assert forall|x: int| s.to_set().contains(x) implies range.contains(x) by {
                let k = choose|k: int| 0 <= k < s.len() && s[k] == x;
                assert(0 <= s[k] < n);
            }
        }
        vstd::set_lib::lemma_len_subset(s.to_set(), range);
    }
}

/// A cycle of positions is a cycle of the graph.
pub proof fn lemma_idx_cycle(g: GraphView, q: Seq<int>)
    requires
        g.wf(),
        idx_cycle(g, q),
    ensures
        g.has_cycle(),
{
    let p = Seq::new(q.len(), |k: int| g.nodes[q[k]]);
    assert forall|k: int| 0 <= k < p.len() - 1 implies g.has_edge(#[trigger] p[k], p[k + 1]) by {
        assert(idx_arc(g, q[k], q[k + 1]));
        let j = choose|j: int|
            0 <= j < g.edges[q[k]].len() && (#[trigger] g.edges[q[k]][j]).to == g.nodes[q[k + 1]];
        assert(g.arc(q[k], j, p[k], p[k + 1]));
    }
    let l = q.len() - 1;
    let j = choose|j: int| 0 <= j < g.edges[q[l]].len() && (#[trigger] g.edges[q[l]][j]).to == g.nodes[q[0]];
    assert(g.arc(q[l], j, p.last(), p[0]));
    assert(g.is_cycle(p));
}

/// In `fin`, whatever a listed node depends on, and is a node, is listed
/// before it.
pub open spec fn closed_under_edges(g: GraphView, fin: Seq<int>) -> bool {
    forall|a: int, j: int|
        0 <= a < fin.len() && 0 <= j < g.edges[fin[a]].len() && g.nodes.contains(
            (#[trigger] g.edges[fin[a]][j]).to,
        ) ==> exists|b: int| 0 <= b < a && g.nodes[#[trigger] fin[b]] == g.edges[fin[a]][j].to
}

/// `fin` lists every node of the graph once, each after what it depends on.
pub open spec fn is_ranking(g: GraphView, fin: Seq<int>) -> bool {
    &&& fin.no_duplicates()
    &&& forall|a: int| 0 <= a < fin.len() ==> 0 <= #[trigger] fin[a] < g.nodes.len()
    &&& forall|i: int| 0 <= i < g.nodes.len() ==> fin.contains(i)
    &&& closed_under_edges(g, fin)
}

/// The place of the node `u` in the ranking `fin`.
pub open spec fn rank_of(g: GraphView, fin: Seq<int>, u: NodeId) -> int {
    fin.index_of(g.nodes.index_of(u))
}

proof fn lemma_edge_descends(g: GraphView, fin: Seq<int>, u: NodeId, v: NodeId)
    requires
        g.wf(),
        is_ranking(g, fin),
        g.has_edge(u, v),
        g.nodes.contains(v),
    ensures
        0 <= rank_of(g, fin, v) < rank_of(g, fin, u) < fin.len(),
{
    let (i, j) = choose|i: int, j: int| #[trigger] g.arc(i, j, u, v);
    assert(g.arc(i, j, u, v));
    assert(g.nodes.contains(u));
    assert(g.nodes.index_of(u) == i);
    assert(fin.contains(i));
    let a = fin.index_of(i);
    assert(g.edges[fin[a]][j].to == v);
    let b = choose|b: int| 0 <= b < a && g.nodes[#[trigger] fin[b]] == g.edges[fin[a]][j].to;
    let t = g.nodes.index_of(v);
    assert(fin[b] == t);
    assert(fin.contains(t));
    assert(fin.index_of(t) == b);
}

proof fn lemma_path_descends(g: GraphView, fin: Seq<int>, p: Seq<NodeId>, k: int)
    requires
        g.wf(),
        is_ranking(g, fin),
        g.is_cycle(p),
        0 <= k < p.len(),
    ensures
        rank_of(g, fin, p[k]) <= rank_of(g, fin, p[0]) - k,
    decreases k,
{
    if k > 0 {
        lemma_path_descends(g, fin, p, k - 1);
        assert(g.has_edge(p[k - 1], p[k]));
        lemma_cycle_node(g, p, k);
        lemma_edge_descends(g, fin, p[k - 1], p[k]);
    }
}

/// Every node on a cycle is a node of the graph.
proof fn lemma_cycle_node(g: GraphView, p: Seq<NodeId>, k: int)
    requires
        g.is_cycle(p),
        0 <= k < p.len(),
    ensures
        g.nodes.contains(p[k]),
{
    if k < p.len() - 1 {
        assert(g.has_edge(p[k], p[k + 1]));
        let (i, j) = choose|i: int, j: int| #[trigger] g.arc(i, j, p[k], p[k + 1]);
        assert(g.nodes[i] == p[k]);
    } else {
        let (i, j) = choose|i: int, j: int| #[trigger] g.arc(i, j, p.last(), p[0]);
        assert(g.nodes[i] == p[k]);
    }
}

/// A graph that has a ranking has no cycle.
pub proof fn lemma_ranking_excludes_cycle(g: GraphView, fin: Seq<int>)
    requires
        g.wf(),
        is_ranking(g, fin),
    ensures
        !g.has_cycle(),
{
    if g.has_cycle() {
        let p = choose|p: Seq<NodeId>| g.is_cycle(p);
        let l = p.len() - 1;
        lemma_path_descends(g, fin, p, l);
        lemma_cycle_node(g, p, 0);
        lemma_edge_descends(g, fin, p.last(), p[0]);
    }
}

/// The node at position `i` has an edge to a node in `waiting`.
pub open spec fn waits(g: GraphView, waiting: Set<int>, i: int) -> bool {
    &&& 0 <= i < g.nodes.len()
    &&& exists|t: int| waiting.contains(t) && #[trigger] idx_arc(g, i, t)
}

/// Each node in `waiting` has an edge to a node in `waiting`.
pub open spec fn all_waiting(g: GraphView, waiting: Set<int>) -> bool {
    forall|i: int| waiting.contains(i) ==> #[trigger] waits(g, waiting, i)
}

/// A node in `waiting` that `i` has an edge to.
pub open spec fn next_waiting(g: GraphView, waiting: Set<int>, i: int) -> int {
    choose|t: int| waiting.contains(t) && #[trigger] idx_arc(g, i, t)
}

/// The node reached from `start` after `k` steps through `waiting`.
pub open spec fn walk(g: GraphView, waiting: Set<int>, start: int, k: nat) -> int
    decreases k,
{
    if k == 0 {
        start
    } else {
        next_waiting(g, waiting, walk(g, waiting, start, (k - 1) as nat))
    }
}

proof fn lemma_walk(g: GraphView, waiting: Set<int>, start: int, k: nat)
    requires
        all_waiting(g, waiting),
        waiting.contains(start),
    ensures
        waiting.contains(walk(g, waiting, start, k)),
        0 <= walk(g, waiting, start, k) < g.nodes.len(),
        idx_arc(g, walk(g, waiting, start, k), walk(g, waiting, start, k + 1)),
    decreases k,
{
    if k > 0 {
        lemma_walk(g, waiting, start, (k - 1) as nat);
        let prev = walk(g, waiting, start, (k - 1) as nat);
        assert(waits(g, waiting, prev));
        assert(walk(g, waiting, start, k) == next_waiting(g, waiting, prev));
    }
    let here = walk(g, waiting, start, k);
    assert(waiting.contains(here));
    assert(waits(g, waiting, here));
    assert(walk(g, waiting, start, k + 1) == next_waiting(g, waiting, here));
}

/// Where some nodes all wait for each other, the graph has a cycle.
pub proof fn lemma_waiting_has_cycle(g: GraphView, waiting: Set<int>, start: int)
    requires
        g.wf(),
        all_waiting(g, waiting),
        waiting.contains(start),
    ensures
        g.has_cycle(),
{
    let n = g.nodes.len() as int;
    let w = Seq::new((n + 1) as nat, |k: int| walk(g, waiting, start, k as nat));
    assert forall|k: int| 0 <= k < w.len() implies 0 <= #[trigger] w[k] < n by {
        lemma_walk(g, waiting, start, k as nat);
    }
    if w.no_duplicates() {
        lemma_bounded_distinct(w, n);
    }
    let (a0, b0) = choose|a: int, b: int| 0 <= a < w.len() && 0 <= b < w.len() && a != b && w[a] == w[b];
    let a = if a0 < b0 { a0 } else { b0 };
    let b = if a0 < b0 { b0 } else { a0 };
    let q = w.subrange(a, b);
    assert forall|k: int| 0 <= k < q.len() - 1 implies idx_arc(g, #[trigger] q[k], q[k + 1]) by {
        lemma_walk(g, waiting, start, (a + k) as nat);
    }
    lemma_walk(g, waiting, start, (b - 1) as nat);
    assert(q.last() == w[b - 1]);
    assert(q[0] == w[b]);
    lemma_idx_cycle(g, q);
}

} // verus!

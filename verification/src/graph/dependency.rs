//! The dependency graph itself: how it is stored, filled, validated and
//! sorted.

use vstd::prelude::*;
use crate::graph::acyclic::{
    idx_arc, idx_cycle, is_ranking, lemma_idx_cycle, lemma_ranking_excludes_cycle,
};
use crate::graph::model::{dangling, weight_sum, GraphView};
use crate::graph::order::{
    lemma_build_order_respects_edges, lemma_build_order_total, lemma_distinct_nodes_bounded,
    lemma_key_lt_transitive, lemma_total_build_order_valid,
};
use crate::graph::node::{Edge, EdgeView, Node, NodeId};
use crate::graph::search::{is_resolution, lemma_whites_update, search_inv, whites, Color};

verus! {

/// A directed graph with weighted edges. An edge from `u` to `v` says that
/// `u` depends on `v`.
#[derive(Debug)]
pub struct DependencyGraph {
    nodes: Vec<Node>,
    edges: Vec<Vec<Edge>>,
}

/// What the validation of a graph found.
#[derive(Debug)]
pub enum ValidationResult {
    /// No cycle, and every edge leads to a node.
    Valid,
    /// Some nodes depend on each other in a circle.
    CircularReference,
    /// Some edges lead to nodes that were never added: their destinations.
    UnresolvedDependencies(Vec<Node>),
}

/// The identities of a list of nodes.
pub open spec fn ids(nodes: Seq<Node>) -> Seq<NodeId> {
    nodes.map_values(|n: Node| n@)
}

/// The views of a list of edges.
pub open spec fn edge_views(edges: Seq<Edge>) -> Seq<EdgeView> {
    edges.map_values(|e: Edge| e@)
}

impl View for DependencyGraph {
    type V = GraphView;

    closed spec fn view(&self) -> GraphView {
        GraphView {
            nodes: ids(self.nodes@),
            edges: self.edges@.map_values(|es: Vec<Edge>| edge_views(es@)),
        }
    }
}

impl DependencyGraph {
    /// The invariant of the graph: that of what it holds, see
    /// [`GraphView::wf`].
    pub open spec fn wf(&self) -> bool {
        self@.wf()
    }

    /// A graph without nodes.
    pub fn new() -> (g: DependencyGraph)
        ensures
            g.wf(),
            g@ == GraphView::empty(),
    {
        let g = DependencyGraph { nodes: Vec::new(), edges: Vec::new() };
        assert(g@.nodes =~= Seq::empty());
        assert(g@.edges =~= Seq::empty());
        g
    }

    /// The position of `node` among the nodes, if the graph holds it.
    fn find(&self, node: &Node) -> (r: Option<usize>)
        requires
            self.wf(),
        ensures
            match r {
                Some(i) => i < self@.nodes.len() && self@.nodes[i as int] == node@
                    && self@.nodes.index_of(node@) == i,
                None => !self@.nodes.contains(node@),
            },
    {
        let mut i: usize = 0;
        while i < self.nodes.len()
            invariant
                i <= self.nodes.len(),
                self.wf(),
                forall|k: int| 0 <= k < i ==> self@.nodes[k] != node@,
            decreases self.nodes.len() - i,
        {
            if self.nodes[i] == *node {
                assert(self@.nodes[i as int] == node@);
                return Some(i);
            }
            i += 1;
        }
        None
    }

    /// Whether the graph holds `node`.
    pub fn contains(&self, node: &Node) -> (r: bool)
        requires
            self.wf(),
        ensures
            r == self@.nodes.contains(node@),
    {
        self.find(node).is_some()
    }

    /// The number of nodes.
    pub fn node_count(&self) -> (n: usize)
        requires
            self.wf(),
        ensures
            n == self@.nodes.len(),
    {
        self.nodes.len()
    }

    /// Adds `node`, unless the graph holds it already.
    pub fn add_node(&mut self, node: &Node)
        requires
            old(self).wf(),
        ensures
            final(self).wf(),
            final(self)@ == old(self)@.with_node(node@),
            final(self)@.nodes.contains(node@),
    {
        if self.find(node).is_none() {
            self.nodes.push(node.clone());
            self.edges.push(Vec::new());
            assert(self@.nodes =~= old(self)@.nodes.push(node@));
            assert(self@.edges =~~= old(self)@.edges.push(Seq::empty()));
            assert(self@.nodes[self@.nodes.len() - 1] == node@);
        }
    }

    /// Adds an edge that leaves `node`: `node` depends on `edge.node`. The
    /// source is added first if the graph does not hold it; the destination is
    /// not.
    pub fn add_edge(&mut self, node: &Node, edge: Edge)
        requires
            old(self).wf(),
        ensures
            final(self).wf(),
            final(self)@ == old(self)@.with_node(node@).with_edge(node@, edge@),
    {
        self.add_node(node);
        let ghost mid = self@;
        match self.find(node) {
            Some(i) => {
                self.edges[i].push(edge);
                assert(self@.nodes =~= mid.nodes);
                assert(self@.edges[i as int] =~= mid.edges[i as int].push(edge@));
                assert(self@.edges =~= mid.edges.update(i as int, mid.edges[i as int].push(edge@)));
            },
            None => {
                assert(false);
            },
        }
    }
}

impl DependencyGraph {
    /// Looks up the destination of every edge among the nodes.
    fn resolve(&self) -> (targets: Vec<Vec<Option<usize>>>)
        requires
            self.wf(),
        ensures
            is_resolution(self@, targets@),
    {
        let mut targets: Vec<Vec<Option<usize>>> = Vec::new();
        let mut i: usize = 0;
        while i < self.nodes.len()
            invariant
                self.wf(),
                i <= self.nodes.len(),
                targets.len() == i,
                forall|a: int| 0 <= a < i ==> (#[trigger] targets@[a]).len() == self@.edges[a].len(),
                forall|a: int, j: int|
                    0 <= a < i && 0 <= j < targets@[a].len() ==> match #[trigger] targets@[a][j] {
                        Some(t) => t < self@.nodes.len() && self@.nodes[t as int]
                            == self@.edges[a][j].to,
                        None => !self@.nodes.contains(self@.edges[a][j].to),
                    },
            decreases self.nodes.len() - i,
        {
            let mut row: Vec<Option<usize>> = Vec::new();
            let mut j: usize = 0;
            while j < self.edges[i].len()
                invariant
                    self.wf(),
                    i < self.nodes.len(),
                    j <= self.edges[i as int].len(),
                    row.len() == j,
                    forall|b: int|
                        0 <= b < j ==> match #[trigger] row@[b] {
                            Some(t) => t < self@.nodes.len() && self@.nodes[t as int]
                                == self@.edges[i as int][b].to,
                            None => !self@.nodes.contains(self@.edges[i as int][b].to),
                        },
                decreases self.edges[i as int].len() - j,
            {
                let t = self.find(&self.edges[i][j].node);
                row.push(t);
                j += 1;
            }
            targets.push(row);
            i += 1;
        }
        targets
    }

    /// Follows the edges of the unseen node `u`, depth first. Reports a cycle
    /// when an edge leads back to a node of the path that is being followed.
    fn visit(
        &self,
        targets: &Vec<Vec<Option<usize>>>,
        u: usize,
        color: &mut Vec<Color>,
        Ghost(stack): Ghost<Seq<int>>,
        Ghost(fin): Ghost<Seq<int>>,
    ) -> (r: (bool, Ghost<Seq<int>>))
        requires
            self.wf(),
            is_resolution(self@, targets@),
            u < self@.nodes.len(),
            search_inv(self@, old(color)@, stack, fin),
            old(color)@[u as int] is White,
            stack.len() > 0 ==> idx_arc(self@, stack.last(), u as int),
        ensures
            r.0 ==> self@.has_cycle(),
            !r.0 ==> search_inv(self@, final(color)@, stack, r.1@),
            !r.0 ==> final(color)@[u as int] is Black,
            !r.0 ==> whites(final(color)@) < whites(old(color)@),
            !r.0 ==> forall|i: int|
                0 <= i < old(color)@.len() && !(old(color)@[i] is White) ==> final(color)@[i] == old(
                    color,
                )@[i],
        decreases whites(old(color)@),
    {
        let ghost g = self@;
        let ghost stack2 = stack.push(u as int);
        let ghost mut cur = fin;
        proof {
            lemma_whites_update(color@, u as int, Color::Gray);
        }
        color.set(u, Color::Gray);
        proof {
            assert forall|i: int| 0 <= i < color@.len() && #[trigger] color@[i] is Gray implies stack2.contains(
                i,
            ) by {
                if i == u {
                    assert(stack2[stack.len() as int] == i);
                } else {
                    assert(old(color)@[i] is Gray);
                    let k = choose|k: int| 0 <= k < stack.len() && stack[k] == i;
                    assert(stack2[k] == i);
                }
            }
            assert forall|k: int| 0 <= k < stack2.len() - 1 implies idx_arc(
                g,
                #[trigger] stack2[k],
                stack2[k + 1],
            ) by {
                if k < stack.len() - 1 {
                    assert(idx_arc(g, stack[k], stack[k + 1]));
                }
            }
            assert(search_inv(g, color@, stack2, cur));
        }
        let mut j: usize = 0;
        while j < targets[u].len()
            invariant
                self.wf(),
                g == self@,
                is_resolution(g, targets@),
                u < g.nodes.len(),
                j <= targets@[u as int].len(),
                stack2 == stack.push(u as int),
                search_inv(g, color@, stack2, cur),
                color@[u as int] is Gray,
                old(color)@[u as int] is White,
                old(color)@.len() == color@.len(),
                whites(color@) < whites(old(color)@),
                forall|b: int|
                    0 <= b < j ==> match #[trigger] targets@[u as int][b] {
                        Some(t) => color@[t as int] is Black,
                        None => true,
                    },
                forall|i: int|
                    0 <= i < color@.len() && !(old(color)@[i] is White) ==> color@[i] == old(
                        color,
                    )@[i],
            decreases targets@[u as int].len() - j,
        {
            match targets[u][j] {
                Some(t) => {
                    match color[t] {
                        Color::Gray => {
                            proof {
                                let k = choose|k: int| 0 <= k < stack2.len() && stack2[k] == t as int;
                                let q = stack2.subrange(k, stack2.len() as int);
                                assert forall|m: int| 0 <= m < q.len() - 1 implies idx_arc(
                                    g,
                                    #[trigger] q[m],
                                    q[m + 1],
                                ) by {
                                    assert(idx_arc(g, stack2[k + m], stack2[k + m + 1]));
                                }
                                assert(q.last() == u as int);
                                assert(q[0] == t as int);
                                assert(g.edges[u as int][j as int].to == g.nodes[t as int]);
                                assert(idx_arc(g, u as int, t as int));
                                assert(idx_cycle(g, q));
                                lemma_idx_cycle(g, q);
                            }
                            return (true, Ghost(cur));
                        },
                        Color::White => {
                            proof {
                                assert(g.edges[u as int][j as int].to == g.nodes[t as int]);
                                assert(idx_arc(g, u as int, t as int));
                                assert(stack2.last() == u as int);
                            }
                            let ghost before = color@;
                            let (found, f) = self.visit(targets, t, color, Ghost(stack2), Ghost(cur));
                            if found {
                                return (true, f);
                            }
                            proof {
                                cur = f@;
                                assert forall|b: int| 0 <= b < j implies match #[trigger] targets@[u as int][b] {
                                    Some(t2) => color@[t2 as int] is Black,
                                    None => true,
                                } by {
                                    match targets@[u as int][b] {
                                        Some(t2) => {
                                            assert(before[t2 as int] is Black);
                                        },
                                        None => {},
                                    }
                                }
                            }
                        },
                        Color::Black => {},
                    }
                },
                None => {},
            }
            j += 1;
        }
        let ghost gray = color@;
        proof {
            lemma_whites_update(color@, u as int, Color::Black);
        }
        color.set(u, Color::Black);
        let ghost fin2 = cur.push(u as int);
        proof {
            assert forall|k: int| 0 <= k < stack.len() implies 0 <= #[trigger] stack[k] < color@.len()
                && color@[stack[k]] is Gray by {
                assert(stack2[k] == stack[k]);
                assert(old(color)@[stack[k]] is Gray);
            }
            assert forall|i: int| 0 <= i < color@.len() && #[trigger] color@[i] is Gray implies stack.contains(
                i,
            ) by {
                assert(gray[i] is Gray);
                let k = choose|k: int| 0 <= k < stack2.len() && stack2[k] == i;
                assert(stack[k] == i);
            }
            assert forall|k: int| 0 <= k < stack.len() - 1 implies idx_arc(
                g,
                #[trigger] stack[k],
                stack[k + 1],
            ) by {
                assert(idx_arc(g, stack2[k], stack2[k + 1]));
            }
            assert forall|a: int| 0 <= a < fin2.len() implies 0 <= #[trigger] fin2[a] < color@.len()
                && color@[fin2[a]] is Black by {
                if a < cur.len() {
                    assert(gray[cur[a]] is Black);
                }
            }
            assert forall|i: int| 0 <= i < color@.len() && #[trigger] color@[i] is Black implies fin2.contains(
                i,
            ) by {
                if i == u {
                    assert(fin2[cur.len() as int] == i);
                } else {
                    assert(gray[i] is Black);
                    let a = choose|a: int| 0 <= a < cur.len() && cur[a] == i;
                    assert(fin2[a] == i);
                }
            }
            assert(fin2.no_duplicates()) by {
                assert forall|a: int, b: int| 0 <= a < fin2.len() && 0 <= b < fin2.len() && a != b implies fin2[a]
                    != fin2[b] by {
                    if a < cur.len() {
                        assert(gray[cur[a]] is Black);
                    }
                    if b < cur.len() {
                        assert(gray[cur[b]] is Black);
                    }
                }
            }
            assert forall|a: int, e: int|
                0 <= a < fin2.len() && 0 <= e < g.edges[fin2[a]].len() && g.nodes.contains(
                    (#[trigger] g.edges[fin2[a]][e]).to,
                ) implies exists|b: int| 0 <= b < a && g.nodes[#[trigger] fin2[b]] == g.edges[fin2[a]][e].to by {
                if a < cur.len() {
                    assert(fin2[a] == cur[a]);
                    let b = choose|b: int| 0 <= b < a && g.nodes[#[trigger] cur[b]] == g.edges[cur[a]][e].to;
                    assert(g.nodes[fin2[b]] == g.edges[fin2[a]][e].to);
                } else {
                    match targets@[u as int][e] {
                        Some(t) => {
                            assert(gray[t as int] is Black);
                            let b = choose|b: int| 0 <= b < cur.len() && cur[b] == t as int;
                            assert(g.nodes[fin2[b]] == g.edges[fin2[a]][e].to);
                        },
                        None => {},
                    }
                }
            }
            assert(search_inv(g, color@, stack, fin2));
        }
        (false, Ghost(fin2))
    }

    /// Checks the graph: first for cycles, by a depth-first search that
    /// colours the nodes, then for edges whose destination was never added.
    pub fn validate(&self) -> (r: ValidationResult)
        requires
            self.wf(),
        ensures
            match r {
                ValidationResult::Valid => self@.valid(),
                ValidationResult::CircularReference => self@.has_cycle(),
                ValidationResult::UnresolvedDependencies(list) => {
                    &&& !self@.has_cycle()
                    &&& !self@.resolved()
                    &&& list.len() > 0
                    &&& ids(list@) == self@.unresolved()
                },
            },
    {
        let ghost g = self@;
        let targets = self.resolve();
        let n = self.nodes.len();
        let mut color: Vec<Color> = Vec::new();
        let mut i: usize = 0;
        while i < n
            invariant
                i <= n,
                color.len() == i,
                forall|k: int| 0 <= k < i ==> color@[k] is White,
            decreases n - i,
        {
            color.push(Color::White);
            i += 1;
        }
        let ghost mut fin: Seq<int> = Seq::empty();
        let mut u: usize = 0;
        while u < n
            invariant
                self.wf(),
                g == self@,
                n == g.nodes.len(),
                u <= n,
                is_resolution(g, targets@),
                search_inv(g, color@, Seq::empty(), fin),
                forall|k: int| 0 <= k < u ==> color@[k] is Black,
            decreases n - u,
        {
            match color[u] {
                Color::White => {
                    let ghost before = color@;
                    let (found, f) = self.visit(&targets, u, &mut color, Ghost(Seq::empty()), Ghost(fin));
                    if found {
                        return ValidationResult::CircularReference;
                    }
                    proof {
                        fin = f@;
                        assert forall|k: int| 0 <= k < u implies color@[k] is Black by {
                            assert(before[k] is Black);
                        }
                    }
                },
                Color::Gray => {
                    proof {
                        assert(Seq::<int>::empty().contains(u as int));
                        assert(false);
                    }
                },
                Color::Black => {},
            }
            u += 1;
        }
        proof {
            assert forall|i: int| 0 <= i < g.nodes.len() implies fin.contains(i) by {
                assert(color@[i] is Black);
            }
            assert(is_ranking(g, fin));
            lemma_ranking_excludes_cycle(g, fin);
        }
        let mut list: Vec<Node> = Vec::new();
        let mut i: usize = 0;
        while i < n
            invariant
                self.wf(),
                g == self@,
                n == g.nodes.len(),
                n == self.nodes.len(),
                i <= n,
                is_resolution(g, targets@),
                ids(list@) == g.unresolved_upto(i as int),
                list.len() == 0 <==> forall|a: int, b: int|
                    0 <= a < i && 0 <= b < g.edges[a].len() ==> g.nodes.contains((#[trigger] g.edges[a][b]).to),
            decreases n - i,
        {
            let mut j: usize = 0;
            let ghost row = g.edges[i as int];
            while j < self.edges[i].len()
                invariant
                    self.wf(),
                    g == self@,
                    n == g.nodes.len(),
                    n == self.nodes.len(),
                    i < n,
                    row == g.edges[i as int],
                    j <= self.edges[i as int].len(),
                    self.edges[i as int].len() == row.len(),
                    is_resolution(g, targets@),
                    ids(list@) == g.unresolved_upto(i as int) + dangling(g.nodes, row.take(j as int)),
                    list.len() == 0 <==> (forall|a: int, b: int|
                        0 <= a < i && 0 <= b < g.edges[a].len() ==> g.nodes.contains(
                            (#[trigger] g.edges[a][b]).to,
                        )) && (forall|b: int| 0 <= b < j ==> g.nodes.contains((#[trigger] row[b]).to)),
                decreases self.edges[i as int].len() - j,
            {
                proof {
                    assert(row.take(j + 1).drop_last() =~= row.take(j as int));
                    assert(row.take(j + 1).last() == row[j as int]);
                    assert(targets@[i as int].len() == row.len());
                }
                let ghost before = list@;
                if targets[i][j].is_none() {
                    list.push(self.edges[i][j].node.clone());
                    proof {
                        assert(targets@[i as int][j as int] is None);
                        assert(!g.nodes.contains(row[j as int].to));
                        assert(self.edges@[i as int]@[j as int].node@ == row[j as int].to);
                        assert(ids(list@) =~= ids(before).push(row[j as int].to));
                        assert(dangling(g.nodes, row.take(j + 1)) == dangling(
                            g.nodes,
                            row.take(j as int),
                        ).push(row[j as int].to));
                        assert(ids(list@) =~= g.unresolved_upto(i as int) + dangling(
                            g.nodes,
                            row.take(j + 1),
                        ));
                    }
                } else {
                    proof {
                        assert(targets@[i as int][j as int] is Some);
                        assert(g.nodes.contains(row[j as int].to));
                    }
                }
                j += 1;
            }
            proof {
                assert(row.take(j as int) =~= row);
            }
            i += 1;
        }
        if list.len() == 0 {
            ValidationResult::Valid
        } else {
            ValidationResult::UnresolvedDependencies(list)
        }
    }
}

/// `placed` marks the nodes that `order` holds, and `order` holds only
/// nodes of the graph.
spec fn marks(g: GraphView, placed: Seq<bool>, order: Seq<NodeId>) -> bool {
    &&& placed.len() == g.nodes.len()
    &&& forall|i: int| 0 <= i < placed.len() ==> (#[trigger] placed[i] <==> order.contains(g.nodes[i]))
    &&& forall|k: int| 0 <= k < order.len() ==> g.nodes.contains(#[trigger] order[k])
}

impl DependencyGraph {
    /// The summed weight of the edges of each node.
    fn weights(&self) -> (w: Vec<u128>)
        requires
            self.wf(),
        ensures
            w.len() == self@.nodes.len(),
            forall|i: int| 0 <= i < w.len() ==> #[trigger] w@[i] == weight_sum(self@.edges[i]),
    {
        let mut w: Vec<u128> = Vec::new();
        let mut i: usize = 0;
        while i < self.edges.len()
            invariant
                self.wf(),
                i <= self.edges.len(),
                w.len() == i,
                forall|a: int| 0 <= a < i ==> #[trigger] w@[a] == weight_sum(self@.edges[a]),
            decreases self.edges.len() - i,
        {
            let ghost row = self@.edges[i as int];
            let mut sum: u128 = 0;
            let mut j: usize = 0;
            while j < self.edges[i].len()
                invariant
                    self.wf(),
                    i < self.edges.len(),
                    row == self@.edges[i as int],
                    j <= self.edges[i as int].len(),
                    self.edges[i as int].len() == row.len(),
                    sum == weight_sum(row.take(j as int)),
                    sum <= j * 0xFFFF_FFFF,
                decreases self.edges[i as int].len() - j,
            {
                proof {
                    assert(row.take(j + 1).drop_last() =~= row.take(j as int));
                    assert(row.take(j + 1).last() == row[j as int]);
                    assert(row[j as int].weight == self.edges@[i as int]@[j as int].weight);
                    assert((j + 1) * 0xFFFF_FFFF <= 0x1_0000_0000_0000_0000 * 0xFFFF_FFFF)
                        by (nonlinear_arith)
                        requires
                            j + 1 <= 0x1_0000_0000_0000_0000,
                    ;
                }
                sum = sum + self.edges[i][j].weight as u128;
                j += 1;
            }
            proof {
                assert(row.take(j as int) =~= row);
            }
            w.push(sum);
            i += 1;
        }
        w
    }

    /// Whether the node at `i` can be placed now.
    fn ready_at(
        &self,
        targets: &Vec<Vec<Option<usize>>>,
        placed: &Vec<bool>,
        i: usize,
        Ghost(order): Ghost<Seq<NodeId>>,
    ) -> (r: bool)
        requires
            self.wf(),
            is_resolution(self@, targets@),
            marks(self@, placed@, order),
            i < self@.nodes.len(),
        ensures
            r == self@.ready(order, self@.nodes[i as int]),
    {
        let ghost g = self@;
        let ghost u = g.nodes[i as int];
        assert(g.nodes.contains(u));
        if placed[i] {
            return false;
        }
        let mut j: usize = 0;
        while j < targets[i].len()
            invariant
                self.wf(),
                g == self@,
                u == g.nodes[i as int],
                is_resolution(g, targets@),
                marks(g, placed@, order),
                i < g.nodes.len(),
                j <= targets@[i as int].len(),
                forall|b: int| 0 <= b < j ==> order.contains((#[trigger] g.edges[i as int][b]).to),
            decreases targets@[i as int].len() - j,
        {
            let here = match targets[i][j] {
                Some(t) => placed[t],
                None => false,
            };
            if !here {
                proof {
                    let v = g.edges[i as int][j as int].to;
                    assert(g.arc(i as int, j as int, u, v));
                    assert(g.has_edge(u, v));
                    if order.contains(v) {
                        let k = choose|k: int| 0 <= k < order.len() && order[k] == v;
                        assert(g.nodes.contains(order[k]));
                        let t = choose|t: int| 0 <= t < g.nodes.len() && g.nodes[t] == v;
                        assert(placed@[t]);
                        assert(targets@[i as int][j as int] is Some);
                    }
                }
                return false;
            }
            proof {
                let t = targets@[i as int][j as int]->0;
                assert(placed@[t as int]);
            }
            j += 1;
        }
        proof {
            assert forall|v: NodeId| g.has_edge(u, v) implies order.contains(v) by {
                let (a, b) = choose|a: int, b: int| #[trigger] g.arc(a, b, u, v);
                assert(g.arc(a, b, u, v));
                assert(a == i);
                assert(order.contains(g.edges[i as int][b].to));
            }
        }
        true
    }

    /// Whether the node at `a` is placed before the node at `b` when both
    /// are ready.
    fn key_before(&self, weights: &Vec<u128>, a: usize, b: usize) -> (r: bool)
        requires
            self.wf(),
            a < self@.nodes.len(),
            b < self@.nodes.len(),
            weights.len() == self@.nodes.len(),
            forall|i: int| 0 <= i < weights.len() ==> #[trigger] weights@[i] == weight_sum(self@.edges[i]),
        ensures
            r == self@.key_lt(self@.nodes[a as int], self@.nodes[b as int]),
    {
        proof {
            assert(self@.nodes.contains(self@.nodes[a as int]));
            assert(self@.nodes.contains(self@.nodes[b as int]));
            assert(self@.nodes.index_of(self@.nodes[a as int]) == a);
            assert(self@.nodes.index_of(self@.nodes[b as int]) == b);
        }
        if weights[a] != weights[b] {
            weights[a] < weights[b]
        } else {
            self.nodes[a].precedes(&self.nodes[b])
        }
    }

    /// The build order of the graph: again and again, of the nodes that are
    /// ready, the one with the least summed weight is placed, and of those
    /// with the same weight the first by identity. A node is ready once all
    /// that it depends on has been placed. The order holds every node if and
    /// only if the graph is valid.
    pub fn topological_sort(&self) -> (order: Vec<Node>)
        requires
            self.wf(),
        ensures
            self@.is_build_order(ids(order@)),
            self@.respects_edges(ids(order@)),
            self@.valid() <==> self@.is_total(ids(order@)),
    {
        let ghost g = self@;
        let targets = self.resolve();
        let weights = self.weights();
        let n = self.nodes.len();
        let mut placed: Vec<bool> = Vec::new();
        let mut i: usize = 0;
        while i < n
            invariant
                i <= n,
                placed.len() == i,
                forall|k: int| 0 <= k < i ==> !placed@[k],
            decreases n - i,
        {
            placed.push(false);
            i += 1;
        }
        let mut order: Vec<Node> = Vec::new();
        assert(ids(order@) =~= Seq::empty());
        loop
            invariant
                self.wf(),
                g == self@,
                n == g.nodes.len(),
                n == self.nodes.len(),
                is_resolution(g, targets@),
                weights.len() == n,
                forall|i: int| 0 <= i < weights.len() ==> #[trigger] weights@[i] == weight_sum(g.edges[i]),
                marks(g, placed@, ids(order@)),
                ids(order@).no_duplicates(),
                order.len() <= n,
                forall|k: int|
                    0 <= k < order.len() ==> g.first_ready(ids(order@).take(k), #[trigger] ids(order@)[k]),
            ensures
                g.is_build_order(ids(order@)),
            decreases n - order.len(),
        {
            let ghost done = ids(order@);
            let mut best: Option<usize> = None;
            let mut i: usize = 0;
            while i < n
                invariant
                    self.wf(),
                    g == self@,
                    n == g.nodes.len(),
                    n == self.nodes.len(),
                    is_resolution(g, targets@),
                    weights.len() == n,
                    forall|i: int|
                        0 <= i < weights.len() ==> #[trigger] weights@[i] == weight_sum(g.edges[i]),
                    marks(g, placed@, done),
                    i <= n,
                    match best {
                        Some(b) => b < i && g.ready(done, g.nodes[b as int]) && forall|m: int|
                            0 <= m < i && g.ready(done, #[trigger] g.nodes[m]) ==> !g.key_lt(
                                g.nodes[m],
                                g.nodes[b as int],
                            ),
                        None => forall|m: int| 0 <= m < i ==> !g.ready(done, #[trigger] g.nodes[m]),
                    },
                decreases n - i,
            {
                if self.ready_at(&targets, &placed, i, Ghost(done)) {
                    match best {
                        Some(b) => {
                            if self.key_before(&weights, i, b) {
                                proof {
                                    assert forall|m: int|
                                        0 <= m < i + 1 && g.ready(
                                            done,
                                            #[trigger] g.nodes[m],
                                        ) implies !g.key_lt(g.nodes[m], g.nodes[i as int]) by {
                                        if g.key_lt(g.nodes[m], g.nodes[i as int]) {
                                            if m < i {
                                                lemma_key_lt_transitive(
                                                    g,
                                                    g.nodes[m],
                                                    g.nodes[i as int],
                                                    g.nodes[b as int],
                                                );
                                            } else {
                                                crate::graph::order::lemma_key_lt_total(
                                                    g,
                                                    g.nodes[m],
                                                    g.nodes[m],
                                                );
                                            }
                                        }
                                    }
                                }
                                best = Some(i);
                            }
                        },
                        None => {
                            proof {
                                crate::graph::order::lemma_key_lt_total(
                                    g,
                                    g.nodes[i as int],
                                    g.nodes[i as int],
                                );
                            }
                            best = Some(i);
                        },
                    }
                }
                i += 1;
            }
            match best {
                None => {
                    proof {
                        assert forall|m: NodeId| !g.ready(done, m) by {
                            if g.nodes.contains(m) {
                                let k = choose|k: int| 0 <= k < g.nodes.len() && g.nodes[k] == m;
                                assert(!g.ready(done, g.nodes[k]));
                            }
                        }
                    }
                    break ;
                },
                Some(b) => {
                    let ghost u = g.nodes[b as int];
                    placed.set(b, true);
                    order.push(self.nodes[b].clone());
                    proof {
                        let next = ids(order@);
                        assert(next =~= done.push(u));
                        assert(next.take(done.len() as int) =~= done);
                        assert(g.first_ready(done, u)) by {
                            assert forall|m: NodeId| g.ready(done, m) implies !g.key_lt(m, u) by {
                                let k = choose|k: int| 0 <= k < g.nodes.len() && g.nodes[k] == m;
                                assert(g.ready(done, g.nodes[k]));
                            }
                        }
                        assert forall|k: int| 0 <= k < next.len() implies g.first_ready(
                            next.take(k),
                            #[trigger] next[k],
                        ) by {
                            if k < done.len() {
                                assert(next.take(k) =~= done.take(k));
                                assert(next[k] == done[k]);
                            }
                        }
                        assert(next.no_duplicates()) by {
                            assert forall|x: int, y: int|
                                0 <= x < next.len() && 0 <= y < next.len() && x != y implies next[x]
                                != next[y] by {
                                if x < done.len() && y < done.len() {
                                    assert(done[x] != done[y]);
                                } else if x < done.len() {
                                    assert(done.contains(done[x]));
                                } else {
                                    assert(done.contains(done[y]));
                                }
                            }
                        }
                        assert forall|k: int| 0 <= k < next.len() implies g.nodes.contains(
                            #[trigger] next[k],
                        ) by {
                            if k < done.len() {
                                assert(g.nodes.contains(done[k]));
                            }
                        }
                        assert forall|i: int| 0 <= i < placed@.len() implies (#[trigger] placed@[i]
                            <==> next.contains(g.nodes[i])) by {
                            if i == b {
                                assert(next[done.len() as int] == u);
                            } else if next.contains(g.nodes[i]) {
                                let k = choose|k: int| 0 <= k < next.len() && next[k] == g.nodes[i];
                                assert(k < done.len());
                                assert(done[k] == g.nodes[i]);
                                assert(done.contains(g.nodes[i]));
                            } else if done.contains(g.nodes[i]) {
                                let k = choose|k: int| 0 <= k < done.len() && done[k] == g.nodes[i];
                                assert(next[k] == g.nodes[i]);
                            }
                        }
                        lemma_distinct_nodes_bounded(g, next);
                    }
                },
            }
        }
        proof {
            lemma_build_order_respects_edges(g, ids(order@));
            if g.valid() {
                lemma_build_order_total(g, ids(order@));
            }
            if g.is_total(ids(order@)) {
                lemma_total_build_order_valid(g, ids(order@));
            }
        }
        order
    }
}

} // verus!

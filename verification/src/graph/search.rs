//! The state of the depth-first search that looks for cycles, and what holds
//! of it while the search runs.

use vstd::prelude::*;
use crate::graph::acyclic::{closed_under_edges, idx_arc};
use crate::graph::model::GraphView;

verus! {

/// How far the search has come with a node: not seen yet, on the path that
/// is being followed, or done.
#[derive(Clone, Copy, Debug, PartialEq, Eq, Structural)]
pub enum Color {
    White,
    Gray,
    Black,
}

/// The number of nodes that the search has not seen yet.
pub open spec fn whites(c: Seq<Color>) -> nat
    decreases c.len(),
{
    if c.len() == 0 {
        0
    } else {
        whites(c.drop_last()) + if c.last() is White {
            1nat
        } else {
            0nat
        }
    }
}

/// What a change of one colour does to the number of unseen nodes.
pub proof fn lemma_whites_update(c: Seq<Color>, i: int, v: Color)
    requires
        0 <= i < c.len(),
    ensures
        whites(c.update(i, v)) + (if c[i] is White {
            1nat
        } else {
            0nat
        }) == whites(c) + (if v is White {
            1nat
        } else {
            0nat
        }),
    decreases c.len(),
{
    if i == c.len() - 1 {
        assert(c.update(i, v).drop_last() =~= c.drop_last());
    } else {
        assert(c.update(i, v).drop_last() =~= c.drop_last().update(i, v));
        lemma_whites_update(c.drop_last(), i, v);
    }
}

/// For each edge, the position of its destination among the nodes, or none
/// if the destination is no node of the graph.
pub open spec fn is_resolution(g: GraphView, targets: Seq<Vec<Option<usize>>>) -> bool {
    &&& targets.len() == g.nodes.len()
    &&& forall|i: int| 0 <= i < targets.len() ==> (#[trigger] targets[i]).len() == g.edges[i].len()
    &&& forall|i: int, j: int|
        0 <= i < targets.len() && 0 <= j < targets[i].len() ==> match #[trigger] targets[i][j] {
            Some(t) => t < g.nodes.len() && g.nodes[t as int] == g.edges[i][j].to,
            None => !g.nodes.contains(g.edges[i][j].to),
        }
}

/// What holds between the calls of the search: the gray nodes are those of
/// `stack`, which is a path; the black nodes are those of `fin`, each listed
/// once and after whatever it depends on.
pub open spec fn search_inv(g: GraphView, color: Seq<Color>, stack: Seq<int>, fin: Seq<int>) -> bool {
    &&& color.len() == g.nodes.len()
    &&& forall|k: int|
        0 <= k < stack.len() ==> 0 <= #[trigger] stack[k] < color.len() && color[stack[k]] is Gray
    &&& forall|i: int| 0 <= i < color.len() && #[trigger] color[i] is Gray ==> stack.contains(i)
    &&& forall|k: int| 0 <= k < stack.len() - 1 ==> idx_arc(g, #[trigger] stack[k], stack[k + 1])
    &&& forall|a: int| 0 <= a < fin.len() ==> 0 <= #[trigger] fin[a] < color.len() && color[fin[a]] is Black
    &&& forall|i: int| 0 <= i < color.len() && #[trigger] color[i] is Black ==> fin.contains(i)
    &&& fin.no_duplicates()
    &&& closed_under_edges(g, fin)
}

} // verus!

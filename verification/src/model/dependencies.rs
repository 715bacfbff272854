//! From a package to its dependency graph: which nodes and edges each
//! declared object contributes.

use vstd::prelude::*;
use vstd::string::StringExecFns;
use crate::ast::{
    ColumnDefinition, FunctionDefinition, ObjectName, SqlType, TableConstraint, TableDefinition,
    TypeDefinition,
};
use crate::graph::{
    DependencyGraph, Edge, EdgeView, GraphView, Node, NodeId, NodeKind, WEIGHT_DEPENDS,
    WEIGHT_REFERENCES,
};
use crate::errors::PsqlpackError;
use crate::graph::dependency::ids;
use crate::graph::node::id_text;
use crate::graph::ValidationResult;
use crate::model::package::Package;
use crate::text::{dotted, join, join_spec, views};

verus! {

/// One addition to a graph: a node, or an edge that leaves a node.
pub enum Step {
    Node(NodeId),
    Edge(NodeId, EdgeView),
}

/// The graph after one addition. An edge brings its source along.
pub open spec fn apply_step(g: GraphView, s: Step) -> GraphView {
    match s {
        Step::Node(n) => g.with_node(n),
        Step::Edge(u, e) => g.with_node(u).with_edge(u, e),
    }
}

/// The graph after the additions `steps`, in order.
pub open spec fn apply(g: GraphView, steps: Seq<Step>) -> GraphView
    decreases steps.len(),
{
    if steps.len() == 0 {
        g
    } else {
        apply_step(apply(g, steps.drop_last()), steps.last())
    }
}

/// The node of the given kind and name.
pub open spec fn node_id(kind: NodeKind, name: Seq<char>) -> NodeId {
    NodeId { kind, name }
}

/// An edge from `from` to `to` that says that `from` needs `to` to exist.
pub open spec fn depends(from: NodeId, to: NodeId) -> Step {
    Step::Edge(from, EdgeView { to, weight: 10 })
}

/// An edge from `from` to `to` that reaches into another table.
pub open spec fn references(from: NodeId, to: NodeId) -> Step {
    Step::Edge(from, EdgeView { to, weight: 11 })
}

/// `a`, a dot, and `b`.
pub open spec fn dot(a: Seq<char>, b: Seq<char>) -> Seq<char> {
    a + seq!['.'] + b
}

/// What the schema of an object contributes: the schema, and the object's
/// dependency on it. Nothing where the object has no schema.
pub open spec fn schema_steps(owner: NodeId, schema: Option<String>) -> Seq<Step> {
    match schema {
        Some(s) => seq![
            Step::Node(node_id(NodeKind::Schema, s@)),
            depends(owner, node_id(NodeKind::Schema, s@)),
        ],
        None => Seq::empty(),
    }
}

/// What a column of the table `table` contributes: the column, its
/// dependency on the table, and the table's dependency on the column's type
/// where the project declares that type.
pub open spec fn column_steps(table: Seq<char>, c: ColumnDefinition) -> Seq<Step> {
    let column = node_id(NodeKind::Column, dot(table, c.name@));
    seq![Step::Node(column), depends(column, node_id(NodeKind::Table, table))] + match c.sql_type {
        SqlType::Custom(q) => seq![
            depends(node_id(NodeKind::Table, table), node_id(NodeKind::Type, q.text())),
        ],
        SqlType::Simple(_) => Seq::empty(),
    }
}

/// What the columns of a table contribute, in order.
pub open spec fn columns_steps(table: Seq<char>, cols: Seq<ColumnDefinition>) -> Seq<Step>
    decreases cols.len(),
{
    if cols.len() == 0 {
        Seq::empty()
    } else {
        columns_steps(table, cols.drop_last()) + column_steps(table, cols.last())
    }
}

/// Edges of the given weight from `from` to the columns `cols` of `table`.
pub open spec fn column_edges(from: NodeId, table: Seq<char>, cols: Seq<String>, weight: nat) -> Seq<
    Step,
>
    decreases cols.len(),
{
    if cols.len() == 0 {
        Seq::empty()
    } else {
        column_edges(from, table, cols.drop_last(), weight).push(
            Step::Edge(
                from,
                EdgeView { to: node_id(NodeKind::Column, dot(table, cols.last()@)), weight },
            ),
        )
    }
}

/// The edge from a table to another table that one of its foreign keys
/// refers to. A table that refers to itself gets none.
pub open spec fn table_reference(table: Seq<char>, own: ObjectName, ref_table: ObjectName) -> Seq<Step> {
    if ref_table.same(&own) {
        Seq::empty()
    } else {
        seq![references(node_id(NodeKind::Table, table), node_id(NodeKind::Table, ref_table.text()))]
    }
}

/// What a constraint of the table named `table` in full contributes: the
/// constraint and its dependencies on the columns that it names, and for a
/// foreign key also on the columns that it refers to.
pub open spec fn constraint_steps(table: Seq<char>, c: TableConstraint) -> Seq<Step> {
    let node = node_id(NodeKind::Constraint, dot(table, c.name_spec()@));
    seq![Step::Node(node)] + match c {
        TableConstraint::Primary { columns, .. } => column_edges(node, table, columns@, 10),
        TableConstraint::Unique { columns, .. } => column_edges(node, table, columns@, 10),
        TableConstraint::Foreign { columns, ref_table, ref_columns, .. } => column_edges(
            node,
            table,
            columns@,
            10,
        ) + column_edges(node, ref_table.text(), ref_columns@, 11),
        TableConstraint::Check { .. } => Seq::empty(),
    }
}

/// What a table adds for one of its constraints besides the constraint's
/// own contribution: for a foreign key the table's dependency on the table
/// referred to, and for every constraint its dependency on the table.
pub open spec fn ownership_steps(table: Seq<char>, own: ObjectName, c: TableConstraint) -> Seq<Step> {
    (match c {
        TableConstraint::Foreign { ref_table, .. } => table_reference(table, own, ref_table),
        _ => Seq::empty(),
    }).push(
        depends(
            node_id(NodeKind::Constraint, dot(table, c.name_spec()@)),
            node_id(NodeKind::Table, table),
        ),
    )
}

/// What a table contributes for one of its constraints: what the
/// constraint contributes, and then what the table adds for it.
pub open spec fn owned_constraint_steps(table: Seq<char>, own: ObjectName, c: TableConstraint) -> Seq<
    Step,
> {
    constraint_steps(table, c) + ownership_steps(table, own, c)
}

/// What the constraints of a table contribute, in order.
pub open spec fn constraints_steps(table: Seq<char>, own: ObjectName, cs: Seq<TableConstraint>) -> Seq<
    Step,
>
    decreases cs.len(),
{
    if cs.len() == 0 {
        Seq::empty()
    } else {
        constraints_steps(table, own, cs.drop_last()) + owned_constraint_steps(table, own, cs.last())
    }
}

/// What a table contributes: itself, its schema, its columns and its
/// constraints.
pub open spec fn table_steps(t: TableDefinition) -> Seq<Step> {
    let table = t.name.text();
    seq![Step::Node(node_id(NodeKind::Table, table))] + schema_steps(
        node_id(NodeKind::Table, table),
        t.name.schema,
    ) + columns_steps(table, t.columns@) + constraints_steps(table, t.name, t.constraints@)
}

/// What a function contributes: itself and its schema.
pub open spec fn function_steps(f: FunctionDefinition) -> Seq<Step> {
    let node = node_id(NodeKind::Function, f.name.text());
    seq![Step::Node(node)] + schema_steps(node, f.name.schema)
}

/// What a declared type contributes: itself.
pub open spec fn type_steps(t: TypeDefinition) -> Seq<Step> {
    seq![Step::Node(node_id(NodeKind::Type, t.name.text()))]
}

/// What a list of tables contributes, in order.
pub open spec fn tables_steps(tables: Seq<TableDefinition>) -> Seq<Step>
    decreases tables.len(),
{
    if tables.len() == 0 {
        Seq::empty()
    } else {
        tables_steps(tables.drop_last()) + table_steps(tables.last())
    }
}

/// What a list of functions contributes, in order.
pub open spec fn functions_steps(functions: Seq<FunctionDefinition>) -> Seq<Step>
    decreases functions.len(),
{
    if functions.len() == 0 {
        Seq::empty()
    } else {
        functions_steps(functions.drop_last()) + function_steps(functions.last())
    }
}

/// What a list of declared types contributes, in order.
pub open spec fn types_steps(types: Seq<TypeDefinition>) -> Seq<Step>
    decreases types.len(),
{
    if types.len() == 0 {
        Seq::empty()
    } else {
        types_steps(types.drop_last()) + type_steps(types.last())
    }
}

/// Additions keep a graph well formed.
pub proof fn lemma_apply_wf(g: GraphView, steps: Seq<Step>)
    requires
        g.wf(),
    ensures
        apply(g, steps).wf(),
    decreases steps.len(),
{
    if steps.len() > 0 {
        lemma_apply_wf(g, steps.drop_last());
        lemma_step_wf(apply(g, steps.drop_last()), steps.last());
    }
}

/// One addition keeps a graph well formed.
pub proof fn lemma_step_wf(g: GraphView, s: Step)
    requires
        g.wf(),
    ensures
        apply_step(g, s).wf(),
{
    match s {
        Step::Node(n) => {
            lemma_with_node_wf(g, n);
        },
        Step::Edge(u, e) => {
            lemma_with_node_wf(g, u);
        },
    }
}

proof fn lemma_with_node_wf(g: GraphView, n: NodeId)
    requires
        g.wf(),
    ensures
        g.with_node(n).wf(),
        g.with_node(n).nodes.contains(n),
{
    let h = g.with_node(n);
    if !g.nodes.contains(n) {
        assert(h.nodes[g.nodes.len() as int] == n);
        assert forall|a: int, b: int| 0 <= a < h.nodes.len() && 0 <= b < h.nodes.len() && a != b implies h.nodes[a]
            != h.nodes[b] by {
            if a < g.nodes.len() {
                assert(g.nodes.contains(g.nodes[a]));
            }
            if b < g.nodes.len() {
                assert(g.nodes.contains(g.nodes[b]));
            }
        }
    }
}

/// Adding first `a` and then `b` is adding `a + b`.
pub proof fn lemma_apply_concat(g: GraphView, a: Seq<Step>, b: Seq<Step>)
    ensures
        apply(g, a + b) == apply(apply(g, a), b),
    decreases b.len(),
{
    if b.len() == 0 {
        assert(a + b =~= a);
    } else {
        assert((a + b).drop_last() =~= a + b.drop_last());
        lemma_apply_concat(g, a, b.drop_last());
    }
}

/// Adding `a` and then the one step `s` is adding `a.push(s)`.
pub proof fn lemma_apply_push(g: GraphView, a: Seq<Step>, s: Step)
    ensures
        apply(g, a.push(s)) == apply_step(apply(g, a), s),
{
    assert(a.push(s).drop_last() =~= a);
}

/// An addition keeps the edges that the graph has.
proof fn lemma_step_keeps_edge(g: GraphView, s: Step, u: NodeId, v: NodeId)
    requires
        g.wf(),
        g.has_edge(u, v),
    ensures
        apply_step(g, s).has_edge(u, v),
{
    let (i, j) = choose|i: int, j: int| #[trigger] g.arc(i, j, u, v);
    match s {
        Step::Node(n) => {
            assert(g.with_node(n).arc(i, j, u, v));
        },
        Step::Edge(w, e) => {
            let h = g.with_node(w);
            lemma_with_node_wf(g, w);
            assert(h.arc(i, j, u, v));
            assert(h.with_edge(w, e).arc(i, j, u, v));
        },
    }
}

/// The addition of an edge gives the graph that edge.
proof fn lemma_step_adds_edge(g: GraphView, u: NodeId, e: EdgeView)
    requires
        g.wf(),
    ensures
        apply_step(g, Step::Edge(u, e)).has_edge(u, e.to),
{
    let h = g.with_node(u);
    lemma_with_node_wf(g, u);
    let i = h.nodes.index_of(u);
    let k = h.with_edge(u, e);
    assert(k.arc(i, h.edges[i].len() as int, u, e.to));
}

/// After the additions `steps`, the graph has every edge among them.
pub proof fn lemma_apply_has_edge(g: GraphView, steps: Seq<Step>, u: NodeId, e: EdgeView)
    requires
        g.wf(),
        steps.contains(Step::Edge(u, e)),
    ensures
        apply(g, steps).has_edge(u, e.to),
    decreases steps.len(),
{
    let k = choose|k: int| 0 <= k < steps.len() && steps[k] == Step::Edge(u, e);
    let before = apply(g, steps.drop_last());
    lemma_apply_wf(g, steps.drop_last());
    if k == steps.len() - 1 {
        lemma_step_adds_edge(before, u, e);
    } else {
        assert(steps.drop_last()[k] == Step::Edge(u, e));
        lemma_apply_has_edge(g, steps.drop_last(), u, e);
        lemma_step_keeps_edge(before, steps.last(), u, e.to);
    }
}

impl ColumnDefinition {
    /// Adds the column of the table `parent` to the graph, and returns its
    /// node.
    pub fn generate_dependencies(&self, graph: &mut DependencyGraph, parent: &String) -> (node: Node)
        requires
            old(graph).wf(),
        ensures
            final(graph).wf(),
            final(graph)@ == old(graph)@.with_node(node@),
            node@ == node_id(NodeKind::Column, dot(parent@, self.name@)),
    {
        let column_node = Node::Column(dotted(parent, &self.name));
        graph.add_node(&column_node);
        column_node
    }
}

impl FunctionDefinition {
    /// Adds the function and its schema to the graph, and returns the node
    /// of the function.
    pub fn generate_dependencies(&self, graph: &mut DependencyGraph) -> (node: Node)
        requires
            old(graph).wf(),
        ensures
            final(graph).wf(),
            final(graph)@ == apply(old(graph)@, function_steps(*self)),
            node@ == node_id(NodeKind::Function, self.name.text()),
    {
        let ghost g0 = graph@;
        let function_node = Node::Function(self.name.to_string());
        graph.add_node(&function_node);
        proof {
            lemma_apply_push(g0, Seq::empty(), Step::Node(function_node@));
            assert(Seq::<Step>::empty().push(Step::Node(function_node@)) =~= seq![
                Step::Node(function_node@),
            ]);
        }
        add_schema(graph, &function_node, &self.name.schema);
        proof {
            lemma_apply_concat(
                g0,
                seq![Step::Node(function_node@)],
                schema_steps(function_node@, self.name.schema),
            );
        }
        function_node
    }
}

impl TypeDefinition {
    /// Adds the declared type to the graph, and returns its node.
    pub fn generate_dependencies(&self, graph: &mut DependencyGraph) -> (node: Node)
        requires
            old(graph).wf(),
        ensures
            final(graph).wf(),
            final(graph)@ == apply(old(graph)@, type_steps(*self)),
            node@ == node_id(NodeKind::Type, self.name.text()),
    {
        let ghost g0 = graph@;
        let type_node = Node::Type(self.name.to_string());
        graph.add_node(&type_node);
        proof {
            lemma_apply_push(g0, Seq::empty(), Step::Node(type_node@));
            assert(Seq::<Step>::empty().push(Step::Node(type_node@)) =~= seq![Step::Node(type_node@)]);
        }
        type_node
    }
}

/// Adds the schema of `owner` and the dependency of `owner` on it.
fn add_schema(graph: &mut DependencyGraph, owner: &Node, schema: &Option<String>)
    requires
        old(graph).wf(),
    ensures
        final(graph).wf(),
        final(graph)@ == apply(old(graph)@, schema_steps(owner@, *schema)),
{
    let ghost g0 = graph@;
    match schema {
        Some(s) => {
            let schema_node = Node::Schema(s.clone());
            graph.add_node(&schema_node);
            graph.add_edge(owner, Edge::new(&schema_node, WEIGHT_DEPENDS));
            proof {
                let a = Step::Node(schema_node@);
                let b = depends(owner@, schema_node@);
                lemma_apply_push(g0, Seq::empty(), a);
                lemma_apply_push(g0, seq![a], b);
                assert(Seq::<Step>::empty().push(a) =~= seq![a]);
                assert(seq![a].push(b) =~= seq![a, b]);
            }
        },
        None => {},
    }
}

/// Adds edges of the given weight from `from` to the columns `cols` of
/// `table`.
fn add_column_edges(graph: &mut DependencyGraph, from: &Node, table: &String, cols: &Vec<String>, weight: u32)
    requires
        old(graph).wf(),
    ensures
        final(graph).wf(),
        final(graph)@ == apply(old(graph)@, column_edges(from@, table@, cols@, weight as nat)),
{
    let ghost g0 = graph@;
    let mut i: usize = 0;
    while i < cols.len()
        invariant
            i <= cols.len(),
            graph.wf(),
            graph@ == apply(g0, column_edges(from@, table@, cols@.take(i as int), weight as nat)),
        decreases cols.len() - i,
    {
        let ghost done = column_edges(from@, table@, cols@.take(i as int), weight as nat);
        let target = Node::Column(dotted(table, &cols[i]));
        graph.add_edge(from, Edge::new(&target, weight));
        proof {
            assert(cols@.take(i + 1).drop_last() =~= cols@.take(i as int));
            lemma_apply_push(g0, done, Step::Edge(from@, EdgeView { to: target@, weight: weight as nat }));
        }
        i += 1;
    }
    proof {
        assert(cols@.take(i as int) =~= cols@);
    }
}

impl TableConstraint {
    /// Adds the constraint of the table named `parent` in full and its
    /// dependencies on columns to the graph, and returns the node of the
    /// constraint.
    pub fn generate_dependencies(&self, graph: &mut DependencyGraph, parent: &String) -> (node: Node)
        requires
            old(graph).wf(),
        ensures
            final(graph).wf(),
            final(graph)@ == apply(old(graph)@, constraint_steps(parent@, *self)),
            node@ == node_id(NodeKind::Constraint, dot(parent@, self.name_spec()@)),
    {
        let ghost g0 = graph@;
        let node = Node::Constraint(dotted(parent, self.name()));
        let ghost first = seq![Step::Node(node@)];
        graph.add_node(&node);
        proof {
            lemma_apply_push(g0, Seq::empty(), Step::Node(node@));
            assert(Seq::<Step>::empty().push(Step::Node(node@)) =~= first);
        }
        match self {
            TableConstraint::Primary { columns, .. } => {
                add_column_edges(graph, &node, parent, columns, WEIGHT_DEPENDS);
                proof {
                    lemma_apply_concat(g0, first, column_edges(node@, parent@, columns@, 10));
                }
            },
            TableConstraint::Unique { columns, .. } => {
                add_column_edges(graph, &node, parent, columns, WEIGHT_DEPENDS);
                proof {
                    lemma_apply_concat(g0, first, column_edges(node@, parent@, columns@, 10));
                }
            },
            TableConstraint::Foreign { columns, ref_table, ref_columns, .. } => {
                let ghost own_edges = column_edges(node@, parent@, columns@, 10);
                let ghost ref_edges = column_edges(node@, ref_table.text(), ref_columns@, 11);
                add_column_edges(graph, &node, parent, columns, WEIGHT_DEPENDS);
                let referenced = ref_table.to_string();
                add_column_edges(graph, &node, &referenced, ref_columns, WEIGHT_REFERENCES);
                proof {
                    lemma_apply_concat(g0, first, own_edges);
                    lemma_apply_concat(g0, first + own_edges, ref_edges);
                    assert(first + (own_edges + ref_edges) =~= first + own_edges + ref_edges);
                }
            },
            TableConstraint::Check { .. } => {
                proof {
                    assert(first + Seq::<Step>::empty() =~= first);
                }
            },
        }
        node
    }
}

impl TableDefinition {
    /// Adds the table, its schema, its columns and its constraints to the
    /// graph, with their dependencies, and returns the node of the table.
    /// Each constraint depends on the table; the table depends on every
    /// other table that one of its foreign keys refers to.
    pub fn generate_dependencies(&self, graph: &mut DependencyGraph) -> (node: Node)
        requires
            old(graph).wf(),
        ensures
            final(graph).wf(),
            final(graph)@ == apply(old(graph)@, table_steps(*self)),
            node@ == node_id(NodeKind::Table, self.name.text()),
    {
        let ghost g0 = graph@;
        let full_name = self.name.to_string();
        let table_node = Node::Table(full_name.clone());
        let ghost table = full_name@;
        let ghost first = seq![Step::Node(table_node@)];
        let ghost schema = schema_steps(table_node@, self.name.schema);
        graph.add_node(&table_node);
        proof {
            lemma_apply_push(g0, Seq::empty(), Step::Node(table_node@));
            assert(Seq::<Step>::empty().push(Step::Node(table_node@)) =~= first);
        }
        add_schema(graph, &table_node, &self.name.schema);
        proof {
            lemma_apply_concat(g0, first, schema);
        }
        let mut i: usize = 0;
        while i < self.columns.len()
            invariant
                i <= self.columns.len(),
                graph.wf(),
                table == full_name@,
                table == self.name.text(),
                table_node@ == node_id(NodeKind::Table, table),
                graph@ == apply(g0, first + schema + columns_steps(table, self.columns@.take(i as int))),
            decreases self.columns.len() - i,
        {
            let ghost done = first + schema + columns_steps(table, self.columns@.take(i as int));
            let ghost column = self.columns@[i as int];
            let col_node = self.columns[i].generate_dependencies(graph, &full_name);
            graph.add_edge(&col_node, Edge::new(&table_node, WEIGHT_DEPENDS));
            let ghost a = Step::Node(col_node@);
            let ghost b = depends(col_node@, table_node@);
            proof {
                lemma_apply_push(g0, done, a);
                lemma_apply_push(g0, done.push(a), b);
            }
            match &self.columns[i].sql_type {
                SqlType::Custom(q) => {
                    let type_node = Node::Type(q.to_string());
                    graph.add_edge(&table_node, Edge::new(&type_node, WEIGHT_DEPENDS));
                    proof {
                        let c = depends(table_node@, type_node@);
                        lemma_apply_push(g0, done.push(a).push(b), c);
                        assert(column_steps(table, column) =~= seq![a, b, c]);
                        assert(done.push(a).push(b).push(c) =~= done + column_steps(table, column));
                    }
                },
                SqlType::Simple(_) => {
                    proof {
                        assert(column_steps(table, column) =~= seq![a, b]);
                        assert(done.push(a).push(b) =~= done + column_steps(table, column));
                    }
                },
            }
            proof {
                assert(self.columns@.take(i + 1).drop_last() =~= self.columns@.take(i as int));
                assert(self.columns@.take(i + 1).last() == column);
                assert(done + column_steps(table, column) =~= first + schema + columns_steps(
                    table,
                    self.columns@.take(i + 1),
                ));
            }
            i += 1;
        }
        proof {
            assert(self.columns@.take(i as int) =~= self.columns@);
        }
        let ghost columns = columns_steps(table, self.columns@);
        let mut j: usize = 0;
        while j < self.constraints.len()
            invariant
                j <= self.constraints.len(),
                graph.wf(),
                table == full_name@,
                table == self.name.text(),
                table_node@ == node_id(NodeKind::Table, table),
                columns == columns_steps(table, self.columns@),
                graph@ == apply(
                    g0,
                    first + schema + columns + constraints_steps(
                        table,
                        self.name,
                        self.constraints@.take(j as int),
                    ),
                ),
            decreases self.constraints.len() - j,
        {
            let ghost done = first + schema + columns + constraints_steps(
                table,
                self.name,
                self.constraints@.take(j as int),
            );
            let ghost constraint = self.constraints@[j as int];
            let node = self.constraints[j].generate_dependencies(graph, &full_name);
            let ghost inner = constraint_steps(table, constraint);
            let ghost reference = match constraint {
                TableConstraint::Foreign { ref_table, .. } => table_reference(table, self.name, ref_table),
                _ => Seq::empty(),
            };
            proof {
                lemma_apply_concat(g0, done, inner);
            }
            match &self.constraints[j] {
                TableConstraint::Foreign { ref_table, .. } => {
                    if !ref_table.same_as(&self.name) {
                        graph.add_edge(
                            &table_node,
                            Edge::new(&Node::Table(ref_table.to_string()), WEIGHT_REFERENCES),
                        );
                        proof {
                            lemma_apply_push(g0, done + inner, reference[0]);
                            assert((done + inner).push(reference[0]) =~= done + inner + reference);
                        }
                    } else {
                        proof {
                            assert(done + inner + reference =~= done + inner);
                        }
                    }
                },
                _ => {
                    proof {
                        assert(done + inner + reference =~= done + inner);
                    }
                },
            }
            graph.add_edge(&node, Edge::new(&table_node, WEIGHT_DEPENDS));
            proof {
                let last = depends(node@, table_node@);
                lemma_apply_push(g0, done + inner + reference, last);
                assert(self.constraints@.take(j + 1).drop_last() =~= self.constraints@.take(j as int));
                assert(self.constraints@.take(j + 1).last() == constraint);
                assert(ownership_steps(table, self.name, constraint) =~= reference.push(last));
                assert((done + inner + reference).push(last) =~= first + schema + columns + constraints_steps(
                    table,
                    self.name,
                    self.constraints@.take(j + 1),
                ));
            }
            j += 1;
        }
        proof {
            assert(self.constraints@.take(j as int) =~= self.constraints@);
        }
        table_node
    }
}

/// What a package contributes to its graph: its declared types, then its
/// tables, then its functions.
pub open spec fn package_steps(p: Package) -> Seq<Step> {
    types_steps(p.types@) + tables_steps(p.tables@) + functions_steps(p.functions@)
}

/// The message that reports edges to nodes that were never added.
pub open spec fn unresolved_message(unresolved: Seq<NodeId>) -> Seq<char> {
    "Unresolved dependencies detected: "@ + join_spec(unresolved.map_values(|n: NodeId| id_text(n)), ", "@)
}

impl Package {
    /// The dependency graph of the package.
    pub open spec fn graph(&self) -> GraphView {
        apply(GraphView::empty(), package_steps(*self))
    }

    /// Builds the dependency graph of the package.
    fn build_graph(&self) -> (graph: DependencyGraph)
        ensures
            graph.wf(),
            graph@ == self.graph(),
    {
        let mut graph = DependencyGraph::new();
        let ghost g0 = graph@;
        let mut i: usize = 0;
        while i < self.types.len()
            invariant
                i <= self.types.len(),
                graph.wf(),
                g0 == GraphView::empty(),
                graph@ == apply(g0, types_steps(self.types@.take(i as int))),
            decreases self.types.len() - i,
        {
            let ghost done = types_steps(self.types@.take(i as int));
            self.types[i].generate_dependencies(&mut graph);
            proof {
                lemma_apply_concat(g0, done, type_steps(self.types@[i as int]));
                assert(self.types@.take(i + 1).drop_last() =~= self.types@.take(i as int));
            }
            i += 1;
        }
        proof {
            assert(self.types@.take(i as int) =~= self.types@);
        }
        let ghost types = types_steps(self.types@);
        let mut i: usize = 0;
        while i < self.tables.len()
            invariant
                i <= self.tables.len(),
                graph.wf(),
                g0 == GraphView::empty(),
                types == types_steps(self.types@),
                graph@ == apply(g0, types + tables_steps(self.tables@.take(i as int))),
            decreases self.tables.len() - i,
        {
            let ghost done = types + tables_steps(self.tables@.take(i as int));
            self.tables[i].generate_dependencies(&mut graph);
            proof {
                lemma_apply_concat(g0, done, table_steps(self.tables@[i as int]));
                assert(self.tables@.take(i + 1).drop_last() =~= self.tables@.take(i as int));
                assert(done + table_steps(self.tables@[i as int]) =~= types + tables_steps(
                    self.tables@.take(i + 1),
                ));
            }
            i += 1;
        }
        proof {
            assert(self.tables@.take(i as int) =~= self.tables@);
        }
        let ghost tables = tables_steps(self.tables@);
        let mut i: usize = 0;
        while i < self.functions.len()
            invariant
                i <= self.functions.len(),
                graph.wf(),
                g0 == GraphView::empty(),
                types == types_steps(self.types@),
                tables == tables_steps(self.tables@),
                graph@ == apply(g0, types + tables + functions_steps(self.functions@.take(i as int))),
            decreases self.functions.len() - i,
        {
            let ghost done = types + tables + functions_steps(self.functions@.take(i as int));
            self.functions[i].generate_dependencies(&mut graph);
            proof {
                lemma_apply_concat(g0, done, function_steps(self.functions@[i as int]));
                assert(self.functions@.take(i + 1).drop_last() =~= self.functions@.take(i as int));
                assert(done + function_steps(self.functions@[i as int]) =~= types + tables
                    + functions_steps(self.functions@.take(i + 1)));
            }
            i += 1;
        }
        proof {
            assert(self.functions@.take(i as int) =~= self.functions@);
        }
        graph
    }

    /// The build order of the package's graph. The graph is built from the
    /// declared types, the tables and the functions; it must be free of
    /// cycles and of edges to objects that the package does not declare,
    /// else the error says which of the two was found, a cycle first.
    pub fn sorted(&self) -> (r: Result<Vec<Node>, PsqlpackError>)
        ensures
            r is Ok <==> self.graph().valid(),
            r matches Ok(order) ==> {
                &&& self.graph().is_build_order(ids(order@))
                &&& self.graph().is_total(ids(order@))
                &&& self.graph().respects_edges(ids(order@))
            },
            r matches Err(e) ==> {
                &&& e matches PsqlpackError::GenerationError(m)
                &&& m@ == if self.graph().has_cycle() {
                    "Circular reference detected"@
                } else {
                    unresolved_message(self.graph().unresolved())
                }
            },
    {
        let graph = self.build_graph();
        match graph.validate() {
            ValidationResult::Valid => {},
            ValidationResult::CircularReference => {
                return Err(
                    PsqlpackError::GenerationError(String::from_str("Circular reference detected")),
                );
            },
            ValidationResult::UnresolvedDependencies(list) => {
                let mut parts: Vec<String> = Vec::new();
                let mut i: usize = 0;
                while i < list.len()
                    invariant
                        i <= list.len(),
                        parts.len() == i,
                        forall|k: int| 0 <= k < i ==> (#[trigger] parts@[k])@ == id_text(list@[k]@),
                    decreases list.len() - i,
                {
                    parts.push(list[i].describe());
                    i += 1;
                }
                proof {
                    assert(views(parts@) =~= ids(list@).map_values(|n: NodeId| id_text(n)));
                }
                let mut message = String::from_str("Unresolved dependencies detected: ");
                let listed = join(&parts, ", ");
                message.append(listed.as_str());
                return Err(PsqlpackError::GenerationError(message));
            },
        }
        Ok(graph.topological_sort())
    }

    /// Computes the build order of the package and stores it. Where the
    /// graph of the package is not valid, the order stays as it was.
    pub fn generate_dependency_graph(&mut self) -> (r: Result<(), PsqlpackError>)
        ensures
            final(self).extensions == old(self).extensions,
            final(self).functions == old(self).functions,
            final(self).schemas == old(self).schemas,
            final(self).scripts == old(self).scripts,
            final(self).tables == old(self).tables,
            final(self).types == old(self).types,
            r is Ok <==> old(self).graph().valid(),
            r is Ok ==> {
                &&& final(self).order matches Some(order)
                &&& old(self).graph().is_build_order(ids(order@))
                &&& old(self).graph().is_total(ids(order@))
                &&& old(self).graph().respects_edges(ids(order@))
            },
            r matches Err(e) ==> {
                &&& final(self).order == old(self).order
                &&& e matches PsqlpackError::GenerationError(m)
                &&& m@ == if old(self).graph().has_cycle() {
                    "Circular reference detected"@
                } else {
                    unresolved_message(old(self).graph().unresolved())
                }
            },
    {
        match self.sorted() {
            Ok(order) => {
                self.order = Some(order);
                Ok(())
            },
            Err(e) => Err(e),
        }
    }
}

/// What stands in one of two lists stands in the two put together.
proof fn lemma_concat_contains(a: Seq<Step>, b: Seq<Step>, x: Step)
    requires
        a.contains(x) || b.contains(x),
    ensures
        (a + b).contains(x),
{
    if a.contains(x) {
        let k = choose|k: int| 0 <= k < a.len() && a[k] == x;
        assert((a + b)[k] == x);
    } else {
        let k = choose|k: int| 0 <= k < b.len() && b[k] == x;
        assert((a + b)[a.len() + k] == x);
    }
}

/// What one constraint contributes is among what all of them contribute.
proof fn lemma_constraints_contain(table: Seq<char>, own: ObjectName, cs: Seq<TableConstraint>, j: int, x: Step)
    requires
        0 <= j < cs.len(),
        owned_constraint_steps(table, own, cs[j]).contains(x),
    ensures
        constraints_steps(table, own, cs).contains(x),
    decreases cs.len(),
{
    if j < cs.len() - 1 {
        lemma_constraints_contain(table, own, cs.drop_last(), j, x);
    }
    lemma_concat_contains(
        constraints_steps(table, own, cs.drop_last()),
        owned_constraint_steps(table, own, cs.last()),
        x,
    );
}

/// What one table contributes is among what all of them contribute.
proof fn lemma_tables_contain(tables: Seq<TableDefinition>, i: int, x: Step)
    requires
        0 <= i < tables.len(),
        table_steps(tables[i]).contains(x),
    ensures
        tables_steps(tables).contains(x),
    decreases tables.len(),
{
    if i < tables.len() - 1 {
        lemma_tables_contain(tables.drop_last(), i, x);
    }
    lemma_concat_contains(tables_steps(tables.drop_last()), table_steps(tables.last()), x);
}

/// A table with a foreign key to another table depends on that table: the
/// graph of the package has the edge.
pub proof fn lemma_foreign_key_edge(p: Package, i: int, j: int)
    requires
        0 <= i < p.tables.len(),
        0 <= j < p.tables[i].constraints.len(),
        p.tables[i].constraints[j] is Foreign,
        !(p.tables[i].constraints[j]->Foreign_ref_table).same(&p.tables[i].name),
    ensures
        p.graph().has_edge(
            node_id(NodeKind::Table, p.tables[i].name.text()),
            node_id(NodeKind::Table, (p.tables[i].constraints[j]->Foreign_ref_table).text()),
        ),
{
    let t = p.tables[i];
    let c = t.constraints[j];
    let table = t.name.text();
    let from = node_id(NodeKind::Table, table);
    let to = node_id(NodeKind::Table, (c->Foreign_ref_table).text());
    let e = EdgeView { to, weight: 11 };
    let x = Step::Edge(from, e);
    let reference = table_reference(table, t.name, c->Foreign_ref_table);
    assert(reference[0] == x);
    let added = ownership_steps(table, t.name, c);
    assert(added[0] == x);
    assert(added.contains(x));
    lemma_concat_contains(constraint_steps(table, c), added, x);
    lemma_constraints_contain(table, t.name, t.constraints@, j, x);
    let head = seq![Step::Node(from)] + schema_steps(from, t.name.schema) + columns_steps(table, t.columns@);
    lemma_concat_contains(head, constraints_steps(table, t.name, t.constraints@), x);
    lemma_tables_contain(p.tables@, i, x);
    lemma_concat_contains(types_steps(p.types@), tables_steps(p.tables@), x);
    lemma_concat_contains(types_steps(p.types@) + tables_steps(p.tables@), functions_steps(p.functions@), x);
    lemma_apply_has_edge(GraphView::empty(), package_steps(p), from, e);
}

/// In an order that respects the edges of the package's graph, a table
/// that a foreign key of another table refers to stands before that other
/// table.
pub proof fn lemma_referenced_table_first(p: Package, order: Seq<NodeId>, i: int, j: int)
    requires
        0 <= i < p.tables.len(),
        0 <= j < p.tables[i].constraints.len(),
        p.tables[i].constraints[j] is Foreign,
        !(p.tables[i].constraints[j]->Foreign_ref_table).same(&p.tables[i].name),
        p.graph().respects_edges(order),
        order.contains(node_id(NodeKind::Table, p.tables[i].name.text())),
    ensures
        exists|a: int, b: int|
            0 <= a < b < order.len() && order[a] == node_id(
                NodeKind::Table,
                (p.tables[i].constraints[j]->Foreign_ref_table).text(),
            ) && order[b] == node_id(NodeKind::Table, p.tables[i].name.text()),
{
    let from = node_id(NodeKind::Table, p.tables[i].name.text());
    let to = node_id(NodeKind::Table, (p.tables[i].constraints[j]->Foreign_ref_table).text());
    lemma_foreign_key_edge(p, i, j);
    let b = choose|b: int| 0 <= b < order.len() && order[b] == from;
    assert(p.graph().has_edge(order[b], to));
    let a = choose|a: int| 0 <= a < b && order[a] == to;
    assert(0 <= a < b < order.len() && order[a] == to && order[b] == from);
}

/// The graph of a package without declared types, tables and functions has
/// no nodes; it is valid, and its build order is empty.
pub proof fn lemma_empty_package(p: Package)
    requires
        p.types@.len() == 0,
        p.tables@.len() == 0,
        p.functions@.len() == 0,
    ensures
        p.graph() == GraphView::empty(),
        p.graph().valid(),
        forall|order: Seq<NodeId>| p.graph().is_total(order) ==> order.len() == 0,
{
    assert(package_steps(p) =~= Seq::empty());
    let g = GraphView::empty();
    assert(!g.has_cycle()) by {
        if g.has_cycle() {
            let c = choose|c: Seq<NodeId>| g.is_cycle(c);
            let (a, b) = choose|a: int, b: int| #[trigger] g.arc(a, b, c.last(), c[0]);
        }
    }
}

/// An addition keeps the nodes that the graph has.
proof fn lemma_step_keeps_node(g: GraphView, s: Step, n: NodeId)
    requires
        g.nodes.contains(n),
    ensures
        apply_step(g, s).nodes.contains(n),
{
    let at = choose|at: int| 0 <= at < g.nodes.len() && g.nodes[at] == n;
    match s {
        Step::Node(x) => {
            assert(g.with_node(x).nodes[at] == n);
        },
        Step::Edge(u, e) => {
            assert(g.with_node(u).nodes[at] == n);
            assert(g.with_node(u).with_edge(u, e).nodes[at] == n);
        },
    }
}

/// After the additions `steps`, the graph has every node among them.
pub proof fn lemma_apply_has_node(g: GraphView, steps: Seq<Step>, n: NodeId)
    requires
        g.wf(),
        steps.contains(Step::Node(n)),
    ensures
        apply(g, steps).nodes.contains(n),
    decreases steps.len(),
{
    let k = choose|k: int| 0 <= k < steps.len() && steps[k] == Step::Node(n);
    let before = apply(g, steps.drop_last());
    lemma_apply_wf(g, steps.drop_last());
    if k == steps.len() - 1 {
        lemma_with_node_wf(before, n);
    } else {
        assert(steps.drop_last()[k] == Step::Node(n));
        lemma_apply_has_node(g, steps.drop_last(), n);
        lemma_step_keeps_node(before, steps.last(), n);
    }
}

/// What one column contributes is among what all of them contribute.
proof fn lemma_columns_contain(table: Seq<char>, cols: Seq<ColumnDefinition>, j: int, x: Step)
    requires
        0 <= j < cols.len(),
        column_steps(table, cols[j]).contains(x),
    ensures
        columns_steps(table, cols).contains(x),
    decreases cols.len(),
{
    if j < cols.len() - 1 {
        lemma_columns_contain(table, cols.drop_last(), j, x);
    }
    lemma_concat_contains(columns_steps(table, cols.drop_last()), column_steps(table, cols.last()), x);
}

/// What one declared type contributes is among what all of them
/// contribute.
proof fn lemma_types_contain(types: Seq<TypeDefinition>, i: int, x: Step)
    requires
        0 <= i < types.len(),
        type_steps(types[i]).contains(x),
    ensures
        types_steps(types).contains(x),
    decreases types.len(),
{
    if i < types.len() - 1 {
        lemma_types_contain(types.drop_last(), i, x);
    }
    lemma_concat_contains(types_steps(types.drop_last()), type_steps(types.last()), x);
}

/// What one function contributes is among what all of them contribute.
proof fn lemma_functions_contain(functions: Seq<FunctionDefinition>, i: int, x: Step)
    requires
        0 <= i < functions.len(),
        function_steps(functions[i]).contains(x),
    ensures
        functions_steps(functions).contains(x),
    decreases functions.len(),
{
    if i < functions.len() - 1 {
        lemma_functions_contain(functions.drop_last(), i, x);
    }
    lemma_concat_contains(functions_steps(functions.drop_last()), function_steps(functions.last()), x);
}

/// What stands among the steps of a table of the package stands among
/// those of the package.
proof fn lemma_table_step_in_package(p: Package, i: int, x: Step)
    requires
        0 <= i < p.tables.len(),
        table_steps(p.tables[i]).contains(x),
    ensures
        package_steps(p).contains(x),
{
    lemma_tables_contain(p.tables@, i, x);
    lemma_concat_contains(types_steps(p.types@), tables_steps(p.tables@), x);
    lemma_concat_contains(types_steps(p.types@) + tables_steps(p.tables@), functions_steps(p.functions@), x);
}

/// The graph of a package has a node for each of its declared types.
pub proof fn lemma_type_node(p: Package, i: int)
    requires
        0 <= i < p.types.len(),
    ensures
        p.graph().nodes.contains(node_id(NodeKind::Type, p.types[i].name.text())),
{
    let x = Step::Node(node_id(NodeKind::Type, p.types[i].name.text()));
    assert(type_steps(p.types[i])[0] == x);
    lemma_types_contain(p.types@, i, x);
    lemma_concat_contains(types_steps(p.types@), tables_steps(p.tables@), x);
    lemma_concat_contains(types_steps(p.types@) + tables_steps(p.tables@), functions_steps(p.functions@), x);
    lemma_apply_has_node(GraphView::empty(), package_steps(p), node_id(NodeKind::Type, p.types[i].name.text()));
}

/// The graph of a package has a node for each of its functions.
pub proof fn lemma_function_node(p: Package, i: int)
    requires
        0 <= i < p.functions.len(),
    ensures
        p.graph().nodes.contains(node_id(NodeKind::Function, p.functions[i].name.text())),
{
    let n = node_id(NodeKind::Function, p.functions[i].name.text());
    let x = Step::Node(n);
    let own = function_steps(p.functions[i]);
    assert(own[0] == x);
    lemma_functions_contain(p.functions@, i, x);
    lemma_concat_contains(types_steps(p.types@) + tables_steps(p.tables@), functions_steps(p.functions@), x);
    lemma_apply_has_node(GraphView::empty(), package_steps(p), n);
}

/// The graph of a package has a node for each of its tables.
pub proof fn lemma_table_node(p: Package, i: int)
    requires
        0 <= i < p.tables.len(),
    ensures
        p.graph().nodes.contains(node_id(NodeKind::Table, p.tables[i].name.text())),
{
    let n = node_id(NodeKind::Table, p.tables[i].name.text());
    let x = Step::Node(n);
    assert(table_steps(p.tables[i])[0] == x);
    lemma_table_step_in_package(p, i, x);
    lemma_apply_has_node(GraphView::empty(), package_steps(p), n);
}

/// The graph of a package has a node for each column of its tables.
pub proof fn lemma_column_node(p: Package, i: int, j: int)
    requires
        0 <= i < p.tables.len(),
        0 <= j < p.tables[i].columns.len(),
    ensures
        p.graph().nodes.contains(
            node_id(NodeKind::Column, dot(p.tables[i].name.text(), p.tables[i].columns[j].name@)),
        ),
{
    let t = p.tables[i];
    let table = t.name.text();
    let n = node_id(NodeKind::Column, dot(table, t.columns[j].name@));
    let x = Step::Node(n);
    assert(column_steps(table, t.columns[j])[0] == x);
    lemma_columns_contain(table, t.columns@, j, x);
    let from = node_id(NodeKind::Table, table);
    let head = seq![Step::Node(from)] + schema_steps(from, t.name.schema);
    lemma_concat_contains(head, columns_steps(table, t.columns@), x);
    lemma_concat_contains(
        head + columns_steps(table, t.columns@),
        constraints_steps(table, t.name, t.constraints@),
        x,
    );
    lemma_table_step_in_package(p, i, x);
    lemma_apply_has_node(GraphView::empty(), package_steps(p), n);
}

/// The graph of a package has a node for each constraint of its tables,
/// and an edge from it to the node of its table.
pub proof fn lemma_constraint_node(p: Package, i: int, j: int)
    requires
        0 <= i < p.tables.len(),
        0 <= j < p.tables[i].constraints.len(),
    ensures
        p.graph().nodes.contains(
            node_id(
                NodeKind::Constraint,
                dot(p.tables[i].name.text(), p.tables[i].constraints[j].name_spec()@),
            ),
        ),
        p.graph().has_edge(
            node_id(
                NodeKind::Constraint,
                dot(p.tables[i].name.text(), p.tables[i].constraints[j].name_spec()@),
            ),
            node_id(NodeKind::Table, p.tables[i].name.text()),
        ),
{
    let t = p.tables[i];
    let c = t.constraints[j];
    let table = t.name.text();
    let n = node_id(NodeKind::Constraint, dot(table, c.name_spec()@));
    let to = node_id(NodeKind::Table, table);
    let x = Step::Node(n);
    let e = EdgeView { to, weight: 10 };
    let y = Step::Edge(n, e);
    let inner = constraint_steps(table, c);
    let added = ownership_steps(table, t.name, c);
    let own = owned_constraint_steps(table, t.name, c);
    assert(inner[0] == x);
    assert(own[0] == x);
    assert(added.last() == y);
    assert(own[own.len() - 1] == y);
    let head = seq![Step::Node(to)] + schema_steps(to, t.name.schema) + columns_steps(table, t.columns@);
    lemma_constraints_contain(table, t.name, t.constraints@, j, x);
    lemma_concat_contains(head, constraints_steps(table, t.name, t.constraints@), x);
    lemma_table_step_in_package(p, i, x);
    lemma_apply_has_node(GraphView::empty(), package_steps(p), n);
    lemma_constraints_contain(table, t.name, t.constraints@, j, y);
    lemma_concat_contains(head, constraints_steps(table, t.name, t.constraints@), y);
    lemma_table_step_in_package(p, i, y);
    lemma_apply_has_edge(GraphView::empty(), package_steps(p), n, e);
}

} // verus!

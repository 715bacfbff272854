//! Nodes and edges of the dependency graph.

use vstd::prelude::*;
use vstd::std_specs::cmp::PartialEqSpecImpl;
use vstd::string::StringExecFns;
use crate::text::{string_lt, text_lt, lemma_text_lt_total};

verus! {

/// The kind of database object that a node stands for.
#[derive(Clone, Copy, Debug, PartialEq, Eq, Structural)]
pub enum NodeKind {
    Schema,
    Extension,
    Type,
    Table,
    Column,
    Constraint,
    Function,
}

impl NodeKind {
    /// The position of the kind in the order of nodes.
    pub open spec fn rank(self) -> int {
        match self {
            NodeKind::Schema => 0,
            NodeKind::Extension => 1,
            NodeKind::Type => 2,
            NodeKind::Table => 3,
            NodeKind::Column => 4,
            NodeKind::Constraint => 5,
            NodeKind::Function => 6,
        }
    }

    /// The name of the kind.
    pub open spec fn text(self) -> Seq<char> {
        match self {
            NodeKind::Schema => "Schema"@,
            NodeKind::Extension => "Extension"@,
            NodeKind::Type => "Type"@,
            NodeKind::Table => "Table"@,
            NodeKind::Column => "Column"@,
            NodeKind::Constraint => "Constraint"@,
            NodeKind::Function => "Function"@,
        }
    }

    /// The name of the kind.
    pub fn name(&self) -> (s: &'static str)
        ensures
            s@ == self.text(),
    {
        match self {
            NodeKind::Schema => "Schema",
            NodeKind::Extension => "Extension",
            NodeKind::Type => "Type",
            NodeKind::Table => "Table",
            NodeKind::Column => "Column",
            NodeKind::Constraint => "Constraint",
            NodeKind::Function => "Function",
        }
    }

    /// The position of the kind in the order of nodes.
    pub fn rank_of(&self) -> (r: u8)
        ensures
            r == self.rank(),
    {
        match self {
            NodeKind::Schema => 0,
            NodeKind::Extension => 1,
            NodeKind::Type => 2,
            NodeKind::Table => 3,
            NodeKind::Column => 4,
            NodeKind::Constraint => 5,
            NodeKind::Function => 6,
        }
    }
}

/// The identity of a node: its kind and its fully qualified name.
pub struct NodeId {
    pub kind: NodeKind,
    pub name: Seq<char>,
}

/// How a node is written: its kind, and its name in round brackets.
pub open spec fn id_text(n: NodeId) -> Seq<char> {
    n.kind.text() + seq!['('] + n.name + seq![')']
}

/// The order of node identities: by kind first, then by name.
pub open spec fn id_lt(a: NodeId, b: NodeId) -> bool {
    a.kind.rank() < b.kind.rank() || (a.kind == b.kind && text_lt(a.name, b.name))
}

/// Two node identities are equal, or one sorts before the other.
pub proof fn lemma_id_lt_total(a: NodeId, b: NodeId)
    ensures
        a == b || id_lt(a, b) || id_lt(b, a),
{
    lemma_text_lt_total(a.name, b.name);
}

/// No node identity sorts before itself.
pub proof fn lemma_id_lt_irreflexive(a: NodeId)
    ensures
        !id_lt(a, a),
{
    crate::text::lemma_bytes_lt_irreflexive(vstd::utf8::encode_utf8(a.name));
}

/// The order of node identities is transitive.
pub proof fn lemma_id_lt_transitive(a: NodeId, b: NodeId, c: NodeId)
    requires
        id_lt(a, b),
        id_lt(b, c),
    ensures
        id_lt(a, c),
{
    if a.kind == b.kind && b.kind == c.kind {
        crate::text::lemma_bytes_lt_transitive(
            vstd::utf8::encode_utf8(a.name),
            vstd::utf8::encode_utf8(b.name),
            vstd::utf8::encode_utf8(c.name),
        );
    }
}

/// A node of the dependency graph: a database object, named in full.
#[derive(Debug)]
pub enum Node {
    Schema(String),
    Extension(String),
    Type(String),
    Table(String),
    Column(String),
    Constraint(String),
    Function(String),
}

impl View for Node {
    type V = NodeId;

    open spec fn view(&self) -> NodeId {
        match self {
            Node::Schema(n) => NodeId { kind: NodeKind::Schema, name: n@ },
            Node::Extension(n) => NodeId { kind: NodeKind::Extension, name: n@ },
            Node::Type(n) => NodeId { kind: NodeKind::Type, name: n@ },
            Node::Table(n) => NodeId { kind: NodeKind::Table, name: n@ },
            Node::Column(n) => NodeId { kind: NodeKind::Column, name: n@ },
            Node::Constraint(n) => NodeId { kind: NodeKind::Constraint, name: n@ },
            Node::Function(n) => NodeId { kind: NodeKind::Function, name: n@ },
        }
    }
}

impl Node {
    /// The kind of the node.
    pub fn kind(&self) -> (k: NodeKind)
        ensures
            k == self@.kind,
    {
        match self {
            Node::Schema(_) => NodeKind::Schema,
            Node::Extension(_) => NodeKind::Extension,
            Node::Type(_) => NodeKind::Type,
            Node::Table(_) => NodeKind::Table,
            Node::Column(_) => NodeKind::Column,
            Node::Constraint(_) => NodeKind::Constraint,
            Node::Function(_) => NodeKind::Function,
        }
    }

    /// The fully qualified name of the node.
    pub fn name(&self) -> (n: &String)
        ensures
            n@ == self@.name,
    {
        match self {
            Node::Schema(n) => n,
            Node::Extension(n) => n,
            Node::Type(n) => n,
            Node::Table(n) => n,
            Node::Column(n) => n,
            Node::Constraint(n) => n,
            Node::Function(n) => n,
        }
    }

    /// The node as text: its kind, and its name in round brackets.
    pub fn describe(&self) -> (s: String)
        ensures
            s@ == id_text(self@),
    {
        proof {
            reveal_strlit("(");
            reveal_strlit(")");
            assert("("@ =~= seq!['(']);
            assert(")"@ =~= seq![')']);
        }
        let mut s = String::from_str(self.kind().name());
        s.append("(");
        s.append(self.name().as_str());
        s.append(")");
        s
    }

    /// Whether this node sorts strictly before `other`.
    pub fn precedes(&self, other: &Node) -> (r: bool)
        ensures
            r == id_lt(self@, other@),
    {
        let a: u8 = self.kind().rank_of();
        let b: u8 = other.kind().rank_of();
        if a != b {
            a < b
        } else {
            string_lt(self.name(), other.name())
        }
    }
}

impl Clone for Node {
    fn clone(&self) -> (r: Self)
        ensures
            r == *self,
    {
        match self {
            Node::Schema(n) => Node::Schema(n.clone()),
            Node::Extension(n) => Node::Extension(n.clone()),
            Node::Type(n) => Node::Type(n.clone()),
            Node::Table(n) => Node::Table(n.clone()),
            Node::Column(n) => Node::Column(n.clone()),
            Node::Constraint(n) => Node::Constraint(n.clone()),
            Node::Function(n) => Node::Function(n.clone()),
        }
    }
}

impl PartialEq for Node {
    fn eq(&self, other: &Node) -> (r: bool) {
        let a: u8 = self.kind().rank_of();
        let b: u8 = other.kind().rank_of();
        a == b && *self.name() == *other.name()
    }
}

impl PartialEqSpecImpl for Node {
    open spec fn obeys_eq_spec() -> bool {
        true
    }

    open spec fn eq_spec(&self, other: &Node) -> bool {
        self@ == other@
    }
}

impl Eq for Node {
}

/// The weight of an edge whose source needs its destination to exist.
pub const WEIGHT_DEPENDS: u32 = 10;

/// The weight of an edge that reaches into another table.
pub const WEIGHT_REFERENCES: u32 = 11;

/// A dependency on `node`, with a cost. Weights are fixed-point numbers in
/// tenths: a weight of 10 stands for 1.0, one of 11 for 1.1.
#[derive(Debug)]
pub struct Edge {
    pub node: Node,
    pub weight: u32,
}

/// What an edge is, seen from a contract.
pub struct EdgeView {
    pub to: NodeId,
    pub weight: nat,
}

impl View for Edge {
    type V = EdgeView;

    open spec fn view(&self) -> EdgeView {
        EdgeView { to: self.node@, weight: self.weight as nat }
    }
}

impl Edge {
    /// An edge to `node` with the given weight, in tenths.
    pub fn new(node: &Node, weight: u32) -> (e: Edge)
        ensures
            e.node == *node,
            e.weight == weight,
    {
        Edge { node: node.clone(), weight }
    }
}

impl Clone for Edge {
    fn clone(&self) -> (r: Self)
        ensures
            r == *self,
    {
        Edge { node: self.node.clone(), weight: self.weight }
    }
}

} // verus!

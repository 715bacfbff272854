//! The dependency graph of a package: nodes, weighted edges, validation and
//! the build order.

pub mod acyclic;
pub mod dependency;
pub mod model;
pub mod node;
pub mod order;
pub mod search;

pub use self::dependency::{DependencyGraph, ValidationResult};
pub use self::model::GraphView;
pub use self::node::{Edge, EdgeView, Node, NodeId, NodeKind, WEIGHT_DEPENDS, WEIGHT_REFERENCES};

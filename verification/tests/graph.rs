use psqlpack::ast::{
    ColumnDefinition, ForeignConstraintAction, ObjectName, SqlType, TableConstraint,
    TableDefinition,
};
use psqlpack::errors::PsqlpackError;
use psqlpack::graph::{DependencyGraph, Edge, Node, ValidationResult};
use psqlpack::model::{Package, Project};

fn project(default_schema: &str) -> Project {
    Project {
        default_schema: default_schema.to_string(),
        include_paths: vec![],
        pre_deploy_scripts: vec![],
        post_deploy_scripts: vec![],
    }
}

fn column(name: &str, sql_type: &str, not_null: bool) -> ColumnDefinition {
    ColumnDefinition {
        name: name.to_string(),
        sql_type: SqlType::Simple(sql_type.to_string()),
        not_null,
        default: None,
        identity: None,
    }
}

fn table(name: &str, columns: Vec<ColumnDefinition>, constraints: Vec<TableConstraint>) -> TableDefinition {
    TableDefinition {
        name: ObjectName { schema: None, name: name.to_string() },
        columns,
        constraints,
    }
}

fn foreign(name: &str, column: &str, ref_table: &str, ref_column: &str) -> TableConstraint {
    TableConstraint::Foreign {
        name: name.to_string(),
        columns: vec![column.to_string()],
        ref_table: ObjectName { schema: None, name: ref_table.to_string() },
        ref_columns: vec![ref_column.to_string()],
        on_delete: Some(ForeignConstraintAction::Cascade),
        on_update: None,
    }
}

#[test]
fn single_table_in_default_schema() {
    let mut package = Package::new();
    package.push_table(table(
        "users",
        vec![column("id", "int", true), column("name", "varchar(100)", false)],
        vec![],
    ));
    package.set_defaults(&project("app"));
    assert_eq!(package.tables[0].name.schema, Some("app".to_string()));
    assert_eq!(package.tables[0].name.to_string(), "app.users");
    assert_eq!(package.tables[0].columns.len(), 2);
    assert!(package.generate_dependency_graph().is_ok());
    assert_eq!(
        package.order,
        Some(vec![
            Node::Schema("app".to_string()),
            Node::Table("app.users".to_string()),
            Node::Column("app.users.id".to_string()),
            Node::Column("app.users.name".to_string()),
        ])
    );
}

#[test]
fn mutual_foreign_keys_are_a_cycle() {
    let mut package = Package::new();
    package.push_table(table("a", vec![column("id", "int", true)], vec![foreign("fk_a", "id", "b", "id")]));
    package.push_table(table("b", vec![column("id", "int", true)], vec![foreign("fk_b", "id", "a", "id")]));
    package.set_defaults(&project("public"));
    let before = package.order.clone();
    assert_eq!(
        package.generate_dependency_graph(),
        Err(PsqlpackError::GenerationError("Circular reference detected".to_string()))
    );
    assert_eq!(package.order, before);
}

fn position(order: &[Node], node: &Node) -> usize {
    order.iter().position(|n| n == node).unwrap()
}

#[test]
fn referenced_table_sorts_first() {
    for flipped in [false, true] {
        let orders = table(
            "orders",
            vec![column("id", "int", true), column("customer_id", "int", true)],
            vec![foreign("fk_customer", "customer_id", "customers", "id")],
        );
        let customers = table("customers", vec![column("id", "int", true)], vec![]);
        let mut package = Package::new();
        if flipped {
            package.push_table(customers);
            package.push_table(orders);
        } else {
            package.push_table(orders);
            package.push_table(customers);
        }
        package.set_defaults(&project("public"));
        assert!(package.generate_dependency_graph().is_ok());
        let order = package.order.unwrap();
        let customers_at = position(&order, &Node::Table("public.customers".to_string()));
        let orders_at = position(&order, &Node::Table("public.orders".to_string()));
        assert!(customers_at < orders_at);
        assert_eq!(
            order,
            vec![
                Node::Schema("public".to_string()),
                Node::Table("public.customers".to_string()),
                Node::Column("public.customers.id".to_string()),
                Node::Table("public.orders".to_string()),
                Node::Column("public.orders.customer_id".to_string()),
                Node::Column("public.orders.id".to_string()),
                Node::Constraint("public.orders.fk_customer".to_string()),
            ]
        );
    }
}

#[test]
fn referenced_table_sorts_first_against_its_name() {
    let mut package = Package::new();
    package.push_table(table("a", vec![column("b_id", "int", true)], vec![foreign("fk", "b_id", "b", "id")]));
    package.push_table(table("b", vec![column("id", "int", true)], vec![]));
    package.set_defaults(&project("public"));
    assert!(package.generate_dependency_graph().is_ok());
    let order = package.order.unwrap();
    assert!(
        position(&order, &Node::Table("public.b".to_string()))
            < position(&order, &Node::Table("public.a".to_string()))
    );
}

#[test]
fn empty_project_has_only_public_and_an_empty_order() {
    let mut package = Package::new();
    package.set_defaults(&project("public"));
    assert_eq!(package.schemas.len(), 1);
    assert_eq!(package.schemas[0].name, "public");
    assert!(package.tables.is_empty());
    assert!(package.functions.is_empty());
    assert!(package.types.is_empty());
    assert!(package.extensions.is_empty());
    assert!(package.validate().is_ok());
    assert!(package.generate_dependency_graph().is_ok());
    assert_eq!(package.order, Some(vec![]));
}

#[test]
fn unresolved_reference_is_reported_with_its_nodes() {
    let mut package = Package::new();
    package.push_table(table("a", vec![column("b_id", "int", true)], vec![foreign("fk", "b_id", "b", "id")]));
    package.set_defaults(&project("public"));
    assert_eq!(
        package.generate_dependency_graph(),
        Err(PsqlpackError::GenerationError(
            "Unresolved dependencies detected: Table(public.b), Column(public.b.id)".to_string()
        ))
    );
    assert_eq!(package.order, None);
}

#[test]
fn graph_validation_finds_cycles_before_unresolved_edges() {
    let a = Node::Table("a".to_string());
    let b = Node::Table("b".to_string());
    let c = Node::Table("c".to_string());
    let mut graph = DependencyGraph::new();
    graph.add_node(&a);
    graph.add_edge(&a, Edge::new(&c, 10));
    assert_eq!(graph.node_count(), 1);
    assert!(matches!(
        graph.validate(),
        ValidationResult::UnresolvedDependencies(ref list) if list == &vec![c.clone()]
    ));
    graph.add_edge(&a, Edge::new(&b, 10));
    graph.add_edge(&b, Edge::new(&a, 10));
    assert!(matches!(graph.validate(), ValidationResult::CircularReference));
    assert_eq!(graph.topological_sort(), vec![]);
}

#[test]
fn self_loop_is_a_cycle() {
    let a = Node::Table("a".to_string());
    let mut graph = DependencyGraph::new();
    graph.add_edge(&a, Edge::new(&a, 10));
    assert!(matches!(graph.validate(), ValidationResult::CircularReference));
}

#[test]
fn ties_break_by_weight_then_by_identity() {
    let root = Node::Schema("s".to_string());
    let light = Node::Table("z".to_string());
    let heavy = Node::Table("a".to_string());
    let column = Node::Column("a".to_string());
    let mut graph = DependencyGraph::new();
    graph.add_node(&root);
    graph.add_edge(&heavy, Edge::new(&root, 11));
    graph.add_edge(&light, Edge::new(&root, 10));
    graph.add_edge(&column, Edge::new(&root, 10));
    assert!(matches!(graph.validate(), ValidationResult::Valid));
    assert_eq!(graph.topological_sort(), vec![root, light, column, heavy]);
    assert!(graph.contains(&Node::Table("z".to_string())));
    assert!(!graph.contains(&Node::Table("y".to_string())));
}

#[test]
fn node_order_is_by_kind_then_by_name() {
    assert!(Node::Schema("z".to_string()).precedes(&Node::Extension("a".to_string())));
    assert!(Node::Table("a".to_string()).precedes(&Node::Table("ab".to_string())));
    assert!(Node::Table("a".to_string()).precedes(&Node::Table("b".to_string())));
    assert!(!Node::Table("b".to_string()).precedes(&Node::Table("a".to_string())));
    assert!(!Node::Table("a".to_string()).precedes(&Node::Table("a".to_string())));
    assert_eq!(Node::Table("a.b".to_string()).describe(), "Table(a.b)");
}

use psqlpack::ast::{
    ColumnDefinition, ExtensionDefinition, FunctionArgument, FunctionDefinition, ObjectName, SchemaDefinition,
    ScriptDefinition, ScriptStage, SqlType, TableConstraint, TableDefinition, TypeDefinition,
    TypeDefinitionKind, TypeField,
};
use psqlpack::errors::PsqlpackError;
use psqlpack::model::inspect::{parse_function_arguments, parse_return_type};
use psqlpack::model::{Package, Project};

fn project(default_schema: &str) -> Project {
    Project {
        default_schema: default_schema.to_string(),
        include_paths: vec![],
        pre_deploy_scripts: vec![],
        post_deploy_scripts: vec![],
    }
}

fn local(name: &str) -> ObjectName {
    ObjectName { schema: None, name: name.to_string() }
}

fn qualified(schema: &str, name: &str) -> ObjectName {
    ObjectName { schema: Some(schema.to_string()), name: name.to_string() }
}

fn column(name: &str) -> ColumnDefinition {
    ColumnDefinition {
        name: name.to_string(),
        sql_type: SqlType::Simple("int".to_string()),
        not_null: false,
        default: None,
        identity: None,
    }
}

fn table(name: ObjectName, columns: Vec<ColumnDefinition>, constraints: Vec<TableConstraint>) -> TableDefinition {
    TableDefinition { name, columns, constraints }
}

fn foreign(name: &str, ref_table: ObjectName) -> TableConstraint {
    TableConstraint::Foreign {
        name: name.to_string(),
        columns: vec!["id".to_string()],
        ref_table,
        ref_columns: vec!["id".to_string()],
        on_delete: None,
        on_update: None,
    }
}

fn generation(message: &str) -> Result<(), PsqlpackError> {
    Err(PsqlpackError::GenerationError(message.to_string()))
}

#[test]
fn new_package_is_empty() {
    let p = Package::new();
    assert!(p.extensions.is_empty() && p.functions.is_empty() && p.schemas.is_empty());
    assert!(p.scripts.is_empty() && p.tables.is_empty() && p.types.is_empty());
    assert_eq!(p.order, None);
    assert!(p.validate().is_ok());
}

#[test]
fn pushes_append_to_the_collection_of_their_kind() {
    let mut p = Package::new();
    p.push_extension(ExtensionDefinition { name: "e1".to_string() });
    p.push_extension(ExtensionDefinition { name: "e2".to_string() });
    p.push_schema(SchemaDefinition { name: "s".to_string() });
    p.push_script(ScriptDefinition { name: "x".to_string(), stage: ScriptStage::Pre, body: "b".to_string() });
    p.push_table(table(local("t"), vec![], vec![]));
    p.push_type(TypeDefinition { name: local("y"), kind: TypeDefinitionKind::Enum(vec![]) });
    p.push_function(FunctionDefinition {
        name: local("f"),
        arguments: vec![],
        return_type: SqlType::Simple("int".to_string()),
        language: "sql".to_string(),
        body: "".to_string(),
        volatility: None,
    });
    assert_eq!(p.extensions.iter().map(|e| e.name.as_str()).collect::<Vec<_>>(), vec!["e1", "e2"]);
    assert_eq!(
        (p.schemas.len(), p.scripts.len(), p.tables.len(), p.types.len(), p.functions.len()),
        (1, 1, 1, 1, 1)
    );
    assert_eq!(p.find_table(&local("t")), Some(0));
    assert_eq!(p.find_table(&qualified("public", "t")), None);
}

#[test]
fn defaults_qualify_every_name_and_keep_what_is_qualified() {
    let mut p = Package::new();
    p.push_schema(SchemaDefinition { name: "Public".to_string() });
    p.push_table(table(
        local("a"),
        vec![ColumnDefinition { sql_type: SqlType::Custom(local("mood")), ..column("m") }, column("n")],
        vec![
            foreign("fk1", local("b")),
            foreign("fk2", qualified("other", "c")),
            TableConstraint::Unique { name: "u".to_string(), columns: vec!["n".to_string()] },
        ],
    ));
    p.push_table(table(qualified("other", "c"), vec![column("id")], vec![]));
    p.push_type(TypeDefinition {
        name: local("pair"),
        kind: TypeDefinitionKind::Composite(vec![TypeField {
            name: "m".to_string(),
            sql_type: SqlType::Custom(local("mood")),
        }]),
    });
    p.push_type(TypeDefinition { name: local("alias"), kind: TypeDefinitionKind::Alias(SqlType::Custom(local("mood"))) });
    p.push_type(TypeDefinition {
        name: qualified("other", "d"),
        kind: TypeDefinitionKind::Domain(SqlType::Custom(local("mood")), vec!["true".to_string()]),
    });
    p.push_function(FunctionDefinition {
        name: local("f"),
        arguments: vec![FunctionArgument { name: "a".to_string(), sql_type: SqlType::Custom(local("mood")) }],
        return_type: SqlType::Custom(qualified("other", "d")),
        language: "sql".to_string(),
        body: "".to_string(),
        volatility: None,
    });
    p.set_defaults(&project("app"));
    let mood = SqlType::Custom(qualified("app", "mood"));
    assert_eq!(p.schemas.len(), 1);
    assert_eq!(p.tables[0].name, qualified("app", "a"));
    assert_eq!(p.tables[0].columns[0].sql_type, mood);
    assert_eq!(p.tables[0].columns[1], column("n"));
    assert_eq!(
        p.tables[0].constraints,
        vec![
            foreign("fk1", qualified("app", "b")),
            foreign("fk2", qualified("other", "c")),
            TableConstraint::Unique { name: "u".to_string(), columns: vec!["n".to_string()] },
        ]
    );
    assert_eq!(p.tables[1].name, qualified("other", "c"));
    assert_eq!(p.types[0].name, qualified("app", "pair"));
    assert_eq!(
        p.types[0].kind,
        TypeDefinitionKind::Composite(vec![TypeField { name: "m".to_string(), sql_type: mood.clone() }])
    );
    assert_eq!(p.types[1].kind, TypeDefinitionKind::Alias(mood.clone()));
    assert_eq!(p.types[2].name, qualified("other", "d"));
    assert_eq!(p.types[2].kind, TypeDefinitionKind::Domain(mood.clone(), vec!["true".to_string()]));
    assert_eq!(p.functions[0].name, qualified("app", "f"));
    assert_eq!(p.functions[0].arguments[0].sql_type, mood);
    assert_eq!(p.functions[0].return_type, SqlType::Custom(qualified("other", "d")));
    let again = format!("{:?}", p);
    p.set_defaults(&project("elsewhere"));
    assert_eq!(format!("{:?}", p), again);
}

#[test]
fn validation_reports_duplicate_names() {
    let mut p = Package::new();
    p.push_table(table(qualified("app", "t"), vec![column("a")], vec![]));
    p.push_table(table(qualified("other", "t"), vec![column("a")], vec![]));
    assert!(p.validate().is_ok());
    p.push_table(table(qualified("app", "t"), vec![], vec![]));
    assert_eq!(p.validate(), generation("Duplicate object name detected"));

    let mut p = Package::new();
    p.push_table(table(qualified("app", "t"), vec![column("a"), column("b"), column("a")], vec![]));
    assert_eq!(p.validate(), generation("Duplicate object name detected"));

    let mut p = Package::new();
    let unique = |name: &str| TableConstraint::Unique { name: name.to_string(), columns: vec![] };
    p.push_table(table(qualified("app", "t"), vec![], vec![unique("u"), unique("u")]));
    assert_eq!(p.validate(), generation("Duplicate object name detected"));

    let mut p = Package::new();
    p.push_extension(ExtensionDefinition { name: "e".to_string() });
    p.push_extension(ExtensionDefinition { name: "e".to_string() });
    assert_eq!(p.validate(), generation("Duplicate object name detected"));

    let mut p = Package::new();
    p.push_schema(SchemaDefinition { name: "s".to_string() });
    p.push_schema(SchemaDefinition { name: "S".to_string() });
    assert!(p.validate().is_ok());
    p.push_schema(SchemaDefinition { name: "s".to_string() });
    assert_eq!(p.validate(), generation("Duplicate object name detected"));
}

#[test]
fn validation_reports_unqualified_names_and_unresolved_references() {
    let mut p = Package::new();
    p.push_table(table(local("t"), vec![], vec![]));
    assert_eq!(p.validate(), generation("Unqualified object name detected"));
    p.set_defaults(&project("app"));
    assert!(p.validate().is_ok());

    let mut p = Package::new();
    p.push_table(table(qualified("app", "a"), vec![column("id")], vec![foreign("fk", qualified("app", "b"))]));
    assert_eq!(p.validate(), generation("Unresolved table reference detected"));
    p.push_table(table(qualified("app", "b"), vec![column("id")], vec![]));
    assert!(p.validate().is_ok());
    let matches = p.tables.iter().filter(|t| t.name == qualified("app", "b")).count();
    assert_eq!(matches, 1);

    let mut p = Package::new();
    p.push_table(table(local("a"), vec![], vec![]));
    p.push_table(table(local("a"), vec![], vec![foreign("fk", local("zz"))]));
    assert_eq!(p.validate(), generation("Duplicate object name detected"));
}

#[test]
fn function_descriptions_are_read() {
    assert_eq!(parse_function_arguments(""), Ok(vec![]));
    assert_eq!(
        parse_function_arguments("a integer, b character varying(10), c app.mood"),
        Ok(vec![
            FunctionArgument { name: "a".to_string(), sql_type: SqlType::Simple("integer".to_string()) },
            FunctionArgument {
                name: "b".to_string(),
                sql_type: SqlType::Simple("character varying(10)".to_string()),
            },
            FunctionArgument { name: "c".to_string(), sql_type: SqlType::Custom(qualified("app", "mood")) },
        ])
    );
    for bad in ["a", "a int,", "a int) (", "a ? int", "a int 5"] {
        assert_eq!(
            parse_function_arguments(bad),
            Err(PsqlpackError::PackageFunctionArgsInspectError(bad.to_string())),
            "{}",
            bad
        );
    }
    assert_eq!(
        parse_return_type("timestamp with time zone"),
        Ok(SqlType::Simple("timestamp with time zone".to_string()))
    );
    assert_eq!(parse_return_type("mood"), Ok(SqlType::Custom(local("mood"))));
    for bad in ["", "int,", "numeric(1", "table", "int )"] {
        assert_eq!(
            parse_return_type(bad),
            Err(PsqlpackError::PackageFunctionReturnTypeInspectError(bad.to_string())),
            "{}",
            bad
        );
    }
}

#[test]
fn a_foreign_key_adds_its_node_and_its_column_edges_only() {
    let key = TableConstraint::Foreign {
        name: "fk_orders_customers".to_string(),
        columns: vec!["customer_id".to_string()],
        ref_table: qualified("app", "customers"),
        ref_columns: vec!["id".to_string()],
        on_delete: None,
        on_update: None,
    };
    let mut graph = psqlpack::graph::DependencyGraph::new();
    let node = key.generate_dependencies(&mut graph, &"app.orders".to_string());
    assert_eq!(node, psqlpack::graph::Node::Constraint("app.orders.fk_orders_customers".to_string()));
    assert_eq!(graph.node_count(), 1);
    assert!(graph.contains(&node));
    assert!(!graph.contains(&psqlpack::graph::Node::Table("app.orders".to_string())));
    match graph.validate() {
        psqlpack::graph::ValidationResult::UnresolvedDependencies(missing) => assert_eq!(
            missing,
            vec![
                psqlpack::graph::Node::Column("app.orders.customer_id".to_string()),
                psqlpack::graph::Node::Column("app.customers.id".to_string()),
            ]
        ),
        other => panic!("{:?}", other),
    }
}

#[test]
fn a_table_depends_on_the_table_that_its_foreign_key_refers_to() {
    let key = TableConstraint::Foreign {
        name: "fk".to_string(),
        columns: vec!["customer_id".to_string()],
        ref_table: qualified("app", "customers"),
        ref_columns: vec!["id".to_string()],
        on_delete: None,
        on_update: None,
    };
    let orders = table(qualified("app", "orders"), vec![column("customer_id")], vec![key]);
    let mut graph = psqlpack::graph::DependencyGraph::new();
    orders.generate_dependencies(&mut graph);
    match graph.validate() {
        psqlpack::graph::ValidationResult::UnresolvedDependencies(missing) => {
            assert_eq!(missing.len(), 2);
            assert!(missing.contains(&psqlpack::graph::Node::Column("app.customers.id".to_string())));
            assert!(missing.contains(&psqlpack::graph::Node::Table("app.customers".to_string())));
        }
        other => panic!("{:?}", other),
    }
    let own = TableConstraint::Foreign {
        name: "fk".to_string(),
        columns: vec!["parent".to_string()],
        ref_table: qualified("app", "tree"),
        ref_columns: vec!["id".to_string()],
        on_delete: None,
        on_update: None,
    };
    let tree = table(qualified("app", "tree"), vec![column("id"), column("parent")], vec![own]);
    let mut graph = psqlpack::graph::DependencyGraph::new();
    tree.generate_dependencies(&mut graph);
    assert!(matches!(graph.validate(), psqlpack::graph::ValidationResult::Valid));
}

#[test]
fn a_schema_that_is_the_empty_text_does_not_pass_validation() {
    let mut package = Package::new();
    package.push_table(table(qualified("", "t"), vec![column("id")], vec![]));
    package.set_defaults(&project("app"));
    assert_eq!(
        package.validate(),
        Err(PsqlpackError::GenerationError("Unqualified object name detected".to_string()))
    );
    let mut package = Package::new();
    package.push_table(table(local("t"), vec![column("id")], vec![]));
    package.set_defaults(&project(""));
    assert_eq!(
        package.validate(),
        Err(PsqlpackError::GenerationError("Unqualified object name detected".to_string()))
    );
    let mut package = Package::new();
    package.push_table(table(local("t"), vec![column("id")], vec![]));
    package.set_defaults(&project("app"));
    assert_eq!(package.validate(), Ok(()));
}

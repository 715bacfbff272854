use psqlpack::ast::{
    ColumnDefinition, ExtensionDefinition, ForeignConstraintAction, FunctionArgument, FunctionDefinition,
    ObjectName, SchemaDefinition, SqlType, TableConstraint, TableDefinition, TypeDefinition,
    TypeDefinitionKind, Volatility,
};
use psqlpack::errors::PsqlpackError;
use psqlpack::model::snapshot::{attach, cell, list_of, name_in, push_column, push_label, CatalogRows};
use psqlpack::model::Package;

fn row(cells: &[&str]) -> Vec<Option<String>> {
    cells.iter().map(|c| Some(c.to_string())).collect()
}

fn no_rows() -> CatalogRows {
    CatalogRows {
        extensions: vec![],
        schemas: vec![],
        enums: vec![],
        functions: vec![],
        columns: vec![],
        constraints: vec![],
    }
}

fn named(schema: &str, name: &str) -> ObjectName {
    ObjectName { schema: Some(schema.to_string()), name: name.to_string() }
}

fn simple(text: &str) -> SqlType {
    SqlType::Simple(text.to_string())
}

fn column(name: &str, sql_type: &str, not_null: bool, default: Option<&str>) -> ColumnDefinition {
    ColumnDefinition {
        name: name.to_string(),
        sql_type: simple(sql_type),
        not_null,
        default: default.map(str::to_string),
        identity: None,
    }
}

#[test]
fn no_rows_give_an_empty_snapshot() {
    let p = Package::from_rows(&no_rows()).unwrap();
    assert_eq!(p, Package::new());
    assert_eq!(p.order, None);
}

#[test]
fn cells_that_are_missing_read_as_empty() {
    let r = vec![Some("a".to_string()), None];
    assert_eq!(cell(&r, 0), "a");
    assert_eq!(cell(&r, 1), "");
    assert_eq!(cell(&r, 2), "");
    assert_eq!(name_in(&r, 0), named("a", ""));
    assert_eq!(name_in(&r, 1), named("", ""));
}

#[test]
fn extensions_and_schemas_come_one_for_each_row() {
    let mut rows = no_rows();
    rows.extensions = vec![row(&["hstore"]), row(&["postgis"])];
    rows.schemas = vec![row(&["app"]), row(&["public"]), vec![None]];
    let p = Package::from_rows(&rows).unwrap();
    assert_eq!(
        p.extensions,
        vec![
            ExtensionDefinition { name: "hstore".to_string() },
            ExtensionDefinition { name: "postgis".to_string() },
        ]
    );
    assert_eq!(
        p.schemas,
        vec![
            SchemaDefinition { name: "app".to_string() },
            SchemaDefinition { name: "public".to_string() },
            SchemaDefinition { name: String::new() },
        ]
    );
}

#[test]
fn labels_of_one_enumeration_are_gathered() {
    let mut rows = no_rows();
    rows.enums = vec![
        row(&["app", "mood", "sad"]),
        row(&["app", "mood", "ok"]),
        row(&["app", "size", "small"]),
        row(&["app", "mood", "happy"]),
    ];
    let p = Package::from_rows(&rows).unwrap();
    assert_eq!(
        p.types,
        vec![
            TypeDefinition {
                name: named("app", "mood"),
                kind: TypeDefinitionKind::Enum(vec!["sad".to_string(), "ok".to_string()]),
            },
            TypeDefinition { name: named("app", "size"), kind: TypeDefinitionKind::Enum(vec!["small".to_string()]) },
            TypeDefinition { name: named("app", "mood"), kind: TypeDefinitionKind::Enum(vec!["happy".to_string()]) },
        ]
    );
}

#[test]
fn a_label_starts_a_new_enumeration_behind_a_type_of_another_kind() {
    let mut types =
        vec![TypeDefinition { name: named("app", "mood"), kind: TypeDefinitionKind::Alias(simple("text")) }];
    push_label(&mut types, named("app", "mood"), "sad".to_string());
    assert_eq!(
        types,
        vec![
            TypeDefinition { name: named("app", "mood"), kind: TypeDefinitionKind::Alias(simple("text")) },
            TypeDefinition { name: named("app", "mood"), kind: TypeDefinitionKind::Enum(vec!["sad".to_string()]) },
        ]
    );
}

#[test]
fn functions_are_read_from_their_descriptions() {
    let mut rows = no_rows();
    rows.functions = vec![
        row(&["app", "add", "a integer, b integer", "integer", "sql", "select a + b", "i"]),
        row(&["app", "now", "", "timestamp with time zone", "plpgsql", "begin end", "x"]),
    ];
    let p = Package::from_rows(&rows).unwrap();
    assert_eq!(
        p.functions,
        vec![
            FunctionDefinition {
                name: named("app", "add"),
                arguments: vec![
                    FunctionArgument { name: "a".to_string(), sql_type: simple("integer") },
                    FunctionArgument { name: "b".to_string(), sql_type: simple("integer") },
                ],
                return_type: simple("integer"),
                language: "sql".to_string(),
                body: "select a + b".to_string(),
                volatility: Some(Volatility::Immutable),
            },
            FunctionDefinition {
                name: named("app", "now"),
                arguments: vec![],
                return_type: simple("timestamp with time zone"),
                language: "plpgsql".to_string(),
                body: "begin end".to_string(),
                volatility: None,
            },
        ]
    );
}

#[test]
fn the_codes_of_volatility_are_read() {
    for (code, expected) in [
        ("i", Some(Volatility::Immutable)),
        ("s", Some(Volatility::Stable)),
        ("v", Some(Volatility::Volatile)),
        ("", None),
        ("iv", None),
        ("I", None),
    ] {
        let mut rows = no_rows();
        rows.functions = vec![row(&["app", "f", "", "integer", "sql", "select 1", code])];
        let p = Package::from_rows(&rows).unwrap();
        assert_eq!(p.functions[0].volatility, expected, "{}", code);
    }
}

#[test]
fn arguments_that_cannot_be_read_fail_the_snapshot() {
    let mut rows = no_rows();
    rows.functions = vec![
        row(&["app", "ok", "a integer", "integer", "sql", "select 1", "i"]),
        row(&["app", "bad", "a ? int", "integer", "sql", "select 1", "i"]),
        row(&["app", "worse", "a", "", "sql", "select 1", "i"]),
    ];
    rows.columns = vec![row(&["app", "t", "c", "", "NO"])];
    assert_eq!(Package::from_rows(&rows), Err(PsqlpackError::PackageFunctionArgsInspectError("a ? int".to_string())));
}

#[test]
fn a_result_type_that_cannot_be_read_fails_the_snapshot() {
    let mut rows = no_rows();
    rows.functions = vec![row(&["app", "bad", "a integer", "numeric(1", "sql", "select 1", "i"])];
    assert_eq!(
        Package::from_rows(&rows),
        Err(PsqlpackError::PackageFunctionReturnTypeInspectError("numeric(1".to_string()))
    );
}

#[test]
fn a_column_type_that_cannot_be_read_fails_the_snapshot() {
    let mut rows = no_rows();
    rows.columns = vec![row(&["app", "t", "a", "integer", "NO"]), row(&["app", "t", "b", "int,", "YES"])];
    assert_eq!(Package::from_rows(&rows), Err(PsqlpackError::PackageQueryTablesError));
}

#[test]
fn columns_of_one_table_are_gathered() {
    let mut rows = no_rows();
    rows.columns = vec![
        row(&["app", "users", "id", "integer", "NO", "nextval('users_id_seq')"]),
        vec![
            Some("app".to_string()),
            Some("users".to_string()),
            Some("name".to_string()),
            Some("character varying(100)".to_string()),
            Some("YES".to_string()),
            None,
        ],
        row(&["app", "orders", "id", "bigint", "no"]),
    ];
    let p = Package::from_rows(&rows).unwrap();
    assert_eq!(
        p.tables,
        vec![
            TableDefinition {
                name: named("app", "users"),
                columns: vec![
                    column("id", "integer", true, Some("nextval('users_id_seq')")),
                    column("name", "character varying(100)", false, None),
                ],
                constraints: vec![],
            },
            TableDefinition {
                name: named("app", "orders"),
                columns: vec![column("id", "bigint", false, None)],
                constraints: vec![],
            },
        ]
    );
}

#[test]
fn a_column_joins_the_last_table_only() {
    let mut tables: Vec<TableDefinition> = vec![];
    push_column(&mut tables, named("a", "t"), column("x", "int", false, None));
    push_column(&mut tables, named("a", "u"), column("y", "int", false, None));
    push_column(&mut tables, named("a", "t"), column("z", "int", false, None));
    push_column(&mut tables, named("a", "t"), column("w", "int", false, None));
    let names: Vec<(String, Vec<String>)> =
        tables.iter().map(|t| (t.name.to_string(), t.columns.iter().map(|c| c.name.clone()).collect())).collect();
    assert_eq!(
        names,
        vec![
            ("a.t".to_string(), vec!["x".to_string()]),
            ("a.u".to_string(), vec!["y".to_string()]),
            ("a.t".to_string(), vec!["z".to_string(), "w".to_string()]),
        ]
    );
}

#[test]
fn names_are_listed_between_commas() {
    assert_eq!(list_of(&"a,b".to_string()), vec!["a".to_string(), "b".to_string()]);
    assert_eq!(list_of(&"a,,b,".to_string()), vec!["a".to_string(), "b".to_string()]);
    assert_eq!(list_of(&"".to_string()), Vec::<String>::new());
    assert_eq!(list_of(&",".to_string()), Vec::<String>::new());
    assert_eq!(list_of(&"one".to_string()), vec!["one".to_string()]);
}

#[test]
fn constraints_go_to_their_tables() {
    let mut rows = no_rows();
    rows.columns = vec![
        row(&["app", "customers", "id", "integer", "NO"]),
        row(&["app", "orders", "id", "integer", "NO"]),
        row(&["app", "orders", "customer_id", "integer", "NO"]),
    ];
    rows.constraints = vec![
        row(&["app", "orders", "orders_pkey", "p", "id", "", "", "", "", "", ""]),
        row(&["app", "customers", "customers_pkey", "p", "id"]),
        row(&["app", "orders", "orders_customer", "f", "customer_id", "app", "customers", "id", "c", "a", ""]),
        row(&["app", "orders", "orders_id_key", "u", "id,customer_id"]),
        row(&["app", "orders", "orders_positive", "c", "id", "", "", "", "", "", "(id > 0)"]),
        row(&["app", "orders", "orders_trigger", "t", "id"]),
        row(&["app", "missing", "missing_pkey", "p", "id"]),
    ];
    let p = Package::from_rows(&rows).unwrap();
    assert_eq!(p.tables.len(), 2);
    assert_eq!(
        p.tables[0].constraints,
        vec![TableConstraint::Primary {
            name: "customers_pkey".to_string(),
            columns: vec!["id".to_string()],
            parameters: None,
        }]
    );
    assert_eq!(
        p.tables[1].constraints,
        vec![
            TableConstraint::Primary {
                name: "orders_pkey".to_string(),
                columns: vec!["id".to_string()],
                parameters: None,
            },
            TableConstraint::Foreign {
                name: "orders_customer".to_string(),
                columns: vec!["customer_id".to_string()],
                ref_table: named("app", "customers"),
                ref_columns: vec!["id".to_string()],
                on_delete: Some(ForeignConstraintAction::Cascade),
                on_update: Some(ForeignConstraintAction::NoAction),
            },
            TableConstraint::Unique {
                name: "orders_id_key".to_string(),
                columns: vec!["id".to_string(), "customer_id".to_string()],
            },
            TableConstraint::Check { name: "orders_positive".to_string(), expression: "(id > 0)".to_string() },
        ]
    );
    assert_eq!(p.tables[1].columns.len(), 2);
}

#[test]
fn the_codes_of_actions_are_read() {
    for (code, expected) in [
        ("a", Some(ForeignConstraintAction::NoAction)),
        ("r", Some(ForeignConstraintAction::Restrict)),
        ("c", Some(ForeignConstraintAction::Cascade)),
        ("n", Some(ForeignConstraintAction::SetNull)),
        ("d", Some(ForeignConstraintAction::SetDefault)),
        ("", None),
        ("x", None),
    ] {
        let mut rows = no_rows();
        rows.columns = vec![row(&["app", "t", "id", "integer", "NO"])];
        rows.constraints = vec![row(&["app", "t", "fk", "f", "id", "app", "u", "id", code, code])];
        let p = Package::from_rows(&rows).unwrap();
        match &p.tables[0].constraints[0] {
            TableConstraint::Foreign { on_delete, on_update, .. } => {
                assert_eq!(*on_delete, expected, "{}", code);
                assert_eq!(*on_update, expected, "{}", code);
            }
            other => panic!("{:?}", other),
        }
    }
}

#[test]
fn a_constraint_goes_to_the_first_table_of_the_name() {
    let mut tables = vec![
        TableDefinition { name: named("a", "t"), columns: vec![], constraints: vec![] },
        TableDefinition { name: named("a", "u"), columns: vec![], constraints: vec![] },
        TableDefinition { name: named("a", "u"), columns: vec![], constraints: vec![] },
    ];
    let unique = TableConstraint::Unique { name: "k".to_string(), columns: vec!["x".to_string()] };
    attach(&mut tables, &named("a", "u"), unique.clone());
    attach(&mut tables, &named("b", "u"), unique.clone());
    attach(&mut tables, &ObjectName { schema: None, name: "u".to_string() }, unique.clone());
    assert_eq!(tables[0].constraints, vec![]);
    assert_eq!(tables[1].constraints, vec![unique]);
    assert_eq!(tables[2].constraints, vec![]);
    assert_eq!(tables[1].name, named("a", "u"));
}

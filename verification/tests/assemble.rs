use psqlpack::ast::{ObjectName, ScriptDefinition, ScriptStage, SqlType, Statement};
use psqlpack::errors::{ParseError, PsqlpackError};
use psqlpack::graph::Node;
use psqlpack::model::assemble::{is_sql_file, parse_source, parse_sources, SourceFile};
use psqlpack::model::{Package, Project};

fn project(default_schema: &str) -> Project {
    Project::from_manifest(Some(default_schema.to_string()), Some(vec!["./sql".to_string()]), None, None).unwrap()
}

fn source(path: &str, contents: &str) -> SourceFile {
    SourceFile { path: path.to_string(), contents: contents.to_string() }
}

#[test]
fn single_table_in_the_default_schema_from_source() {
    let sources = vec![source("users.sql", "CREATE TABLE Users (Id INT NOT NULL, Name VARCHAR(100));")];
    let package = project("app").assemble(&sources, vec![]).unwrap();
    assert_eq!(package.tables.len(), 1);
    assert_eq!(package.tables[0].name, ObjectName { schema: Some("app".to_string()), name: "users".to_string() });
    assert_eq!(package.tables[0].columns.len(), 2);
    assert_eq!(package.tables[0].columns[0].name, "id");
    assert!(package.tables[0].columns[0].not_null);
    assert_eq!(package.tables[0].columns[1].sql_type, SqlType::Simple("varchar(100)".to_string()));
    assert_eq!(package.schemas.len(), 1);
    assert_eq!(package.schemas[0].name, "public");
    assert_eq!(
        package.order,
        Some(vec![
            Node::Schema("app".to_string()),
            Node::Table("app.users".to_string()),
            Node::Column("app.users.id".to_string()),
            Node::Column("app.users.name".to_string()),
        ])
    );
    assert!(package.validate().is_ok());
}

#[test]
fn empty_project_assembles_to_the_public_schema_alone() {
    let package = project("public").assemble(&vec![], vec![]).unwrap();
    assert_eq!(package.schemas.len(), 1);
    assert_eq!(package.schemas[0].name, "public");
    assert!(package.tables.is_empty() && package.functions.is_empty() && package.types.is_empty());
    assert!(package.extensions.is_empty() && package.scripts.is_empty());
    assert_eq!(package.order, Some(vec![]));
}

#[test]
fn declared_public_schema_is_not_added_again() {
    let sources = vec![source("a.sql", "create schema \"PUBLIC\"; create schema app;")];
    let package = project("app").assemble(&sources, vec![]).unwrap();
    let names: Vec<&str> = package.schemas.iter().map(|s| s.name.as_str()).collect();
    assert_eq!(names, vec!["PUBLIC", "app"]);
}

#[test]
fn mutual_foreign_keys_in_source_are_a_cycle() {
    let sources = vec![
        source("a.sql", "create table a (id int primary key, b_id int references b (id));"),
        source("b.sql", "create table b (id int primary key, a_id int references a (id));"),
    ];
    assert_eq!(
        project("public").assemble(&sources, vec![]),
        Err(PsqlpackError::GenerationError("Circular reference detected".to_string()))
    );
}

#[test]
fn referenced_table_sorts_first_whatever_the_order_of_the_files() {
    let orders = source("orders.sql", "create table orders (id int, customer_id int references customers (id));");
    let customers = source("customers.sql", "create table customers (id int primary key);");
    for sources in [vec![orders.clone(), customers.clone()], vec![customers, orders]] {
        let package = project("public").assemble(&sources, vec![]).unwrap();
        let order = package.order.unwrap();
        let at = |n: &Node| order.iter().position(|x| x == n).unwrap();
        assert!(at(&Node::Table("public.customers".to_string())) < at(&Node::Table("public.orders".to_string())));
    }
}

#[test]
fn names_and_references_get_the_default_schema() {
    let sources = vec![source(
        "a.sql",
        "create type mood as enum ('ok'); create table other.t (m mood, n other.kind); create table u (t_id \
         int references other.t (m), v int references v); create table v (id int); create function f(a mood) \
         returns mood as 'x' language sql; create type kind as (m mood); create type other.kind as enum ();",
    )];
    let package = project("app").assemble(&sources, vec![]).unwrap();
    let qualified = |schema: &str, local: &str| ObjectName { schema: Some(schema.to_string()), name: local.to_string() };
    assert_eq!(package.types[0].name, qualified("app", "mood"));
    assert_eq!(package.tables[0].name, qualified("other", "t"));
    assert_eq!(package.tables[0].columns[0].sql_type, SqlType::Custom(qualified("app", "mood")));
    assert_eq!(package.tables[0].columns[1].sql_type, SqlType::Custom(qualified("other", "kind")));
    assert_eq!(package.tables[1].name, qualified("app", "u"));
    assert_eq!(package.functions[0].name, qualified("app", "f"));
    assert_eq!(package.functions[0].arguments[0].sql_type, SqlType::Custom(qualified("app", "mood")));
    assert_eq!(package.functions[0].return_type, SqlType::Custom(qualified("app", "mood")));
    let refs: Vec<ObjectName> = package.tables[1]
        .constraints
        .iter()
        .map(|c| match c {
            psqlpack::ast::TableConstraint::Foreign { ref_table, .. } => ref_table.clone(),
            other => panic!("{:?}", other),
        })
        .collect();
    assert_eq!(refs, vec![qualified("other", "t"), qualified("app", "v")]);
    assert!(package.validate().is_ok());
}

#[test]
fn scripts_are_attached_in_order() {
    let scripts = vec![
        ScriptDefinition { name: "pre".to_string(), stage: ScriptStage::Pre, body: "select 1".to_string() },
        ScriptDefinition { name: "post".to_string(), stage: ScriptStage::Post, body: "select 2".to_string() },
    ];
    let package = project("public").assemble(&vec![source("a.sql", "create schema s;")], scripts.clone()).unwrap();
    assert_eq!(package.scripts, scripts);
}

#[test]
fn errors_of_all_files_are_returned_together() {
    let sources = vec![
        source("good.sql", "create schema s;"),
        source("lex.sql", "create table t (a int);\ncreate ? x;"),
        source("parse.sql", "create tabel t (a int); create schema;"),
        source("cycle.sql", "create table a (b int references a2 (x));"),
    ];
    let Err(PsqlpackError::MultipleErrors(errors)) = project("public").assemble(&sources, vec![]) else {
        panic!()
    };
    assert_eq!(errors.len(), 2);
    assert_eq!(
        errors[0],
        PsqlpackError::SyntaxError {
            file: "lex.sql".to_string(),
            line: "create ? x;".to_string(),
            line_number: 2,
            start: 7,
            end: 8,
        }
    );
    let PsqlpackError::ParseError(file, parse_errors) = &errors[1] else { panic!() };
    assert_eq!(file, "parse.sql");
    assert_eq!(parse_errors.len(), 2);
    assert!(matches!(&parse_errors[1], ParseError::UnrecognizedToken { token: Some(t), .. } if t.text == ";"));
    assert!(matches!(
        parse_sources(&sources[..1].to_vec()),
        Ok(ref statements) if statements.len() == 1 && matches!(statements[0], Statement::Schema(_))
    ));
    assert!(parse_source(&sources[1]).is_err());
}

#[test]
fn unresolved_references_fail_the_assembly() {
    let sources = vec![source("a.sql", "create table a (b_id int references b (id));")];
    assert_eq!(
        project("public").assemble(&sources, vec![]),
        Err(PsqlpackError::GenerationError(
            "Unresolved dependencies detected: Table(public.b), Column(public.b.id)".to_string()
        ))
    );
}

#[test]
fn statements_go_to_the_collection_of_their_kind() {
    let statements = psqlpack::sql::parse_statement_list(
        &psqlpack::lexer::tokenize(
            "create schema a; create table t (); create extension e; create schema b; create type y as enum \
             (); create function f() returns int as '' language sql; create table u ();",
        )
        .unwrap(),
    )
    .unwrap();
    let p = Package::from_statements(statements);
    assert_eq!(p.schemas.iter().map(|s| s.name.as_str()).collect::<Vec<_>>(), vec!["a", "b"]);
    assert_eq!(p.tables.iter().map(|t| t.name.to_string()).collect::<Vec<_>>(), vec!["t", "u"]);
    assert_eq!(p.extensions.len(), 1);
    assert_eq!(p.types.len(), 1);
    assert_eq!(p.functions.len(), 1);
    assert_eq!(p.order, None);
}

#[test]
fn only_sql_files_are_sources() {
    assert!(is_sql_file("a.sql"));
    assert!(is_sql_file("dir/sub/tables.v2.sql"));
    assert!(!is_sql_file(".sql"));
    assert!(!is_sql_file("dir/.sql"));
    assert!(!is_sql_file("a.SQL"));
    assert!(!is_sql_file("a.sql.bak"));
    assert!(!is_sql_file("sql"));
    assert!(!is_sql_file(""));
}

#[test]
fn a_default_schema_that_is_the_empty_text_is_refused() {
    assert_eq!(
        Project::from_manifest(Some(String::new()), None, None, None),
        Err(PsqlpackError::ProjectError("Missing default_schema".to_string()))
    );
    let bare = Project {
        default_schema: String::new(),
        include_paths: vec![],
        pre_deploy_scripts: vec![],
        post_deploy_scripts: vec![],
    };
    let sources =
        vec![SourceFile { path: "a.sql".to_string(), contents: "create table t (id int);".to_string() }];
    assert_eq!(
        bare.assemble(&sources, vec![]),
        Err(PsqlpackError::ProjectError("Missing default_schema".to_string()))
    );
    let faulty = vec![SourceFile { path: "a.sql".to_string(), contents: "create ?".to_string() }];
    assert_eq!(
        bare.assemble(&faulty, vec![]),
        Err(PsqlpackError::ProjectError("Missing default_schema".to_string()))
    );
}

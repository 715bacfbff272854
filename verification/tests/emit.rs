use psqlpack::ast::{
    ColumnDefinition, ExtensionDefinition, ForeignConstraintAction, FunctionArgument, FunctionDefinition,
    Identity, IndexParameter, ObjectName, SchemaDefinition, ScriptDefinition, ScriptStage, SqlType,
    TableConstraint, TableDefinition, TypeDefinition, TypeDefinitionKind, TypeField, Volatility,
};
use psqlpack::model::delta::{ChangeInstruction, ColumnChange};
use psqlpack::model::emit::changes_sql;

fn name(schema: &str, local: &str) -> ObjectName {
    ObjectName { schema: Some(schema.to_string()), name: local.to_string() }
}

fn simple(text: &str) -> SqlType {
    SqlType::Simple(text.to_string())
}

fn strings(items: &[&str]) -> Vec<String> {
    items.iter().map(|s| s.to_string()).collect()
}

#[test]
fn tables_and_columns() {
    let table = TableDefinition {
        name: name("app", "Users"),
        columns: vec![
            ColumnDefinition {
                name: "id".to_string(),
                sql_type: simple("bigint"),
                not_null: true,
                default: None,
                identity: Some(Identity::Always),
            },
            ColumnDefinition {
                name: "table".to_string(),
                sql_type: SqlType::Custom(name("app", "mood")),
                not_null: false,
                default: Some("'ok'".to_string()),
                identity: None,
            },
        ],
        constraints: vec![TableConstraint::Unique { name: "u".to_string(), columns: strings(&["id"]) }],
    };
    assert_eq!(
        ChangeInstruction::CreateTable(&table).to_sql(),
        "CREATE TABLE app.\"Users\" (\n  id bigint NOT NULL GENERATED ALWAYS AS IDENTITY,\n  \"table\" \
         app.mood DEFAULT 'ok'\n);"
    );
    let empty = TableDefinition { name: name("app", "e"), columns: vec![], constraints: vec![] };
    assert_eq!(ChangeInstruction::CreateTable(&empty).to_sql(), "CREATE TABLE app.e (\n);");
    assert_eq!(ChangeInstruction::DropTable(&table.name).to_sql(), "DROP TABLE app.\"Users\";");
    assert_eq!(
        ChangeInstruction::AddColumn(&table.name, &table.columns[1]).to_sql(),
        "ALTER TABLE app.\"Users\" ADD COLUMN \"table\" app.mood DEFAULT 'ok';"
    );
    assert_eq!(
        ChangeInstruction::DropColumn(&table.name, &table.columns[0].name).to_sql(),
        "ALTER TABLE app.\"Users\" DROP COLUMN id;"
    );
    let by_default = ColumnDefinition {
        name: "n".to_string(),
        sql_type: simple("int"),
        not_null: false,
        default: None,
        identity: Some(Identity::ByDefault),
    };
    assert_eq!(
        ChangeInstruction::AddColumn(&empty.name, &by_default).to_sql(),
        "ALTER TABLE app.e ADD COLUMN n int GENERATED BY DEFAULT AS IDENTITY;"
    );
}

#[test]
fn column_alterations() {
    let table = ObjectName { schema: None, name: "t".to_string() };
    let with = ColumnDefinition {
        name: "c".to_string(),
        sql_type: simple("numeric(10,2)"),
        not_null: true,
        default: Some("0".to_string()),
        identity: None,
    };
    let without = ColumnDefinition { not_null: false, default: None, ..with.clone() };
    let sql = |c: &ColumnDefinition, change| ChangeInstruction::AlterColumn(&table, c, change).to_sql();
    assert_eq!(sql(&with, ColumnChange::Type), "ALTER TABLE t ALTER COLUMN c TYPE numeric(10,2);");
    assert_eq!(sql(&with, ColumnChange::Nullability), "ALTER TABLE t ALTER COLUMN c SET NOT NULL;");
    assert_eq!(sql(&without, ColumnChange::Nullability), "ALTER TABLE t ALTER COLUMN c DROP NOT NULL;");
    assert_eq!(sql(&with, ColumnChange::Default), "ALTER TABLE t ALTER COLUMN c SET DEFAULT 0;");
    assert_eq!(sql(&without, ColumnChange::Default), "ALTER TABLE t ALTER COLUMN c DROP DEFAULT;");
}

#[test]
fn constraints() {
    let table = name("app", "orders");
    let add = |c: &TableConstraint| ChangeInstruction::AddConstraint(&table, c).to_sql();
    assert_eq!(
        add(&TableConstraint::Primary {
            name: "pk".to_string(),
            columns: strings(&["a", "B"]),
            parameters: Some(vec![IndexParameter::FillFactor(70)]),
        }),
        "ALTER TABLE app.orders ADD CONSTRAINT pk PRIMARY KEY (a, \"B\") WITH (FILLFACTOR = 70);"
    );
    assert_eq!(
        add(&TableConstraint::Primary { name: "pk".to_string(), columns: strings(&["a"]), parameters: None }),
        "ALTER TABLE app.orders ADD CONSTRAINT pk PRIMARY KEY (a);"
    );
    assert_eq!(
        add(&TableConstraint::Foreign {
            name: "fk".to_string(),
            columns: strings(&["customer_id"]),
            ref_table: name("app", "customers"),
            ref_columns: strings(&["id"]),
            on_delete: Some(ForeignConstraintAction::Cascade),
            on_update: Some(ForeignConstraintAction::SetNull),
        }),
        "ALTER TABLE app.orders ADD CONSTRAINT fk FOREIGN KEY (customer_id) REFERENCES app.customers (id) ON \
         DELETE CASCADE ON UPDATE SET NULL;"
    );
    assert_eq!(
        add(&TableConstraint::Foreign {
            name: "fk".to_string(),
            columns: strings(&["a", "b"]),
            ref_table: name("app", "t"),
            ref_columns: vec![],
            on_delete: None,
            on_update: Some(ForeignConstraintAction::NoAction),
        }),
        "ALTER TABLE app.orders ADD CONSTRAINT fk FOREIGN KEY (a, b) REFERENCES app.t ON UPDATE NO ACTION;"
    );
    assert_eq!(
        add(&TableConstraint::Unique { name: "u".to_string(), columns: strings(&["a", "b"]) }),
        "ALTER TABLE app.orders ADD CONSTRAINT u UNIQUE (a, b);"
    );
    assert_eq!(
        add(&TableConstraint::Check { name: "positive".to_string(), expression: "total >= 0".to_string() }),
        "ALTER TABLE app.orders ADD CONSTRAINT positive CHECK (total >= 0);"
    );
    let dropped = "fk".to_string();
    assert_eq!(
        ChangeInstruction::DropConstraint(&table, &dropped).to_sql(),
        "ALTER TABLE app.orders DROP CONSTRAINT fk;"
    );
}

#[test]
fn types() {
    let mood = TypeDefinition {
        name: name("app", "mood"),
        kind: TypeDefinitionKind::Enum(strings(&["sad", "it's ok"])),
    };
    assert_eq!(
        ChangeInstruction::CreateType(&mood).to_sql(),
        "CREATE TYPE app.mood AS ENUM ('sad', 'it''s ok');"
    );
    assert_eq!(
        ChangeInstruction::AlterType(&mood).to_sql(),
        "DROP TYPE app.mood;\nCREATE TYPE app.mood AS ENUM ('sad', 'it''s ok');"
    );
    assert_eq!(ChangeInstruction::DropType(&mood.name).to_sql(), "DROP TYPE app.mood;");
    let pair = TypeDefinition {
        name: name("app", "pair"),
        kind: TypeDefinitionKind::Composite(vec![
            TypeField { name: "a".to_string(), sql_type: simple("int") },
            TypeField { name: "b".to_string(), sql_type: SqlType::Custom(name("app", "mood")) },
        ]),
    };
    assert_eq!(ChangeInstruction::CreateType(&pair).to_sql(), "CREATE TYPE app.pair AS (a int, b app.mood);");
    let alias = TypeDefinition { name: name("app", "id"), kind: TypeDefinitionKind::Alias(simple("bigint")) };
    assert_eq!(ChangeInstruction::CreateType(&alias).to_sql(), "CREATE TYPE app.id AS bigint;");
    let domain = TypeDefinition {
        name: name("app", "email"),
        kind: TypeDefinitionKind::Domain(simple("text"), strings(&["value <> ''", "true"])),
    };
    assert_eq!(
        ChangeInstruction::CreateType(&domain).to_sql(),
        "CREATE DOMAIN app.email AS text CHECK (value <> '') CHECK (true);"
    );
}

#[test]
fn functions_extensions_schemas_and_scripts() {
    let f = FunctionDefinition {
        name: name("app", "add"),
        arguments: vec![
            FunctionArgument { name: "a".to_string(), sql_type: simple("int") },
            FunctionArgument { name: "b".to_string(), sql_type: simple("double precision") },
        ],
        return_type: simple("int"),
        language: "sql".to_string(),
        body: "select 'x'".to_string(),
        volatility: Some(Volatility::Stable),
    };
    assert_eq!(
        ChangeInstruction::CreateOrReplaceFunction(&f).to_sql(),
        "CREATE OR REPLACE FUNCTION app.add(a int, b double precision) RETURNS int AS 'select ''x''' LANGUAGE \
         sql STABLE;"
    );
    assert_eq!(ChangeInstruction::DropFunction(&f).to_sql(), "DROP FUNCTION app.add(int, double precision);");
    let e = ExtensionDefinition { name: "uuid-ossp".to_string() };
    assert_eq!(
        ChangeInstruction::EnableExtension(&e).to_sql(),
        "CREATE EXTENSION IF NOT EXISTS \"uuid-ossp\";"
    );
    let s = SchemaDefinition { name: "app".to_string() };
    assert_eq!(ChangeInstruction::CreateSchema(&s).to_sql(), "CREATE SCHEMA app;");
    let open = ScriptDefinition { name: "a".to_string(), stage: ScriptStage::Pre, body: "select 1".to_string() };
    let closed =
        ScriptDefinition { name: "b".to_string(), stage: ScriptStage::Post, body: "select 2;\n".to_string() };
    assert_eq!(ChangeInstruction::RunScript(&open).to_sql(), "select 1;");
    assert_eq!(ChangeInstruction::RunScript(&closed).to_sql(), "select 2;\n");
    assert_eq!(
        changes_sql(&vec![
            ChangeInstruction::RunScript(&open),
            ChangeInstruction::CreateSchema(&s),
            ChangeInstruction::RunScript(&closed),
        ]),
        "select 1;CREATE SCHEMA app;select 2;\n"
    );
    assert_eq!(changes_sql(&vec![]), "");
}

#[test]
fn emitted_definitions_are_read_back_by_the_parser() {
    let source = "create table app.\"Users\" (id bigint not null generated always as identity, \"table\" \
                  app.mood default 'ok');create type app.mood as enum ('sad', 'it''s ok');create function \
                  app.add(a int, b double precision) returns int as 'select ''x''' language sql \
                  stable;create schema app;create extension \"uuid-ossp\";create domain app.email as text \
                  check (value <> '');";
    let parsed = psqlpack::sql::parse_statement_list(&psqlpack::lexer::tokenize(source).unwrap()).unwrap();
    let mut emitted = String::new();
    for s in &parsed {
        let sql = match s {
            psqlpack::ast::Statement::Table(t) => ChangeInstruction::CreateTable(t).to_sql(),
            psqlpack::ast::Statement::Type(t) => ChangeInstruction::CreateType(t).to_sql(),
            psqlpack::ast::Statement::Function(f) => ChangeInstruction::CreateOrReplaceFunction(f).to_sql(),
            psqlpack::ast::Statement::Schema(s) => ChangeInstruction::CreateSchema(s).to_sql(),
            psqlpack::ast::Statement::Extension(e) => ChangeInstruction::EnableExtension(e).to_sql(),
            psqlpack::ast::Statement::Script(s) => ChangeInstruction::RunScript(s).to_sql(),
        };
        emitted.push_str(&sql);
        emitted.push('\n');
    }
    let again = psqlpack::sql::parse_statement_list(&psqlpack::lexer::tokenize(&emitted).unwrap()).unwrap();
    assert_eq!(again, parsed);
}

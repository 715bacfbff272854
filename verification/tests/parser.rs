use psqlpack::ast::{
    ColumnDefinition, ExtensionDefinition, ForeignConstraintAction, FunctionArgument, FunctionDefinition,
    Identity, IndexParameter, ObjectName, SchemaDefinition, SqlType, Statement, TableConstraint,
    TableDefinition, TypeDefinition, TypeDefinitionKind, TypeField, Volatility,
};
use psqlpack::errors::ParseError;
use psqlpack::lexer::{tokenize, TokenKind};
use psqlpack::sql::parse_statement_list;

fn parse(source: &str) -> Result<Vec<Statement>, Vec<ParseError>> {
    parse_statement_list(&tokenize(source).unwrap())
}

fn local(name: &str) -> ObjectName {
    ObjectName { schema: None, name: name.to_string() }
}

fn simple(text: &str) -> SqlType {
    SqlType::Simple(text.to_string())
}

fn column(name: &str, sql_type: SqlType, not_null: bool) -> ColumnDefinition {
    ColumnDefinition { name: name.to_string(), sql_type, not_null, default: None, identity: None }
}

fn strings(items: &[&str]) -> Vec<String> {
    items.iter().map(|s| s.to_string()).collect()
}

#[test]
fn single_table_with_two_columns() {
    assert_eq!(
        parse("CREATE TABLE Users (Id INT NOT NULL, Name VARCHAR(100));"),
        Ok(vec![Statement::Table(TableDefinition {
            name: local("users"),
            columns: vec![column("id", simple("int"), true), column("name", simple("varchar(100)"), false)],
            constraints: vec![],
        })])
    );
}

#[test]
fn types_are_read_greedily() {
    let parsed = parse(
        "create table t (a numeric(10, 2), b timestamp with time zone, c double precision, d mood, \
         e app.mood, f character varying(20) null, g timestamp(3) with time zone, h time without time zone);",
    )
    .unwrap();
    let Statement::Table(t) = &parsed[0] else { panic!() };
    let types: Vec<SqlType> = t.columns.iter().map(|c| c.sql_type.clone()).collect();
    assert_eq!(
        types,
        vec![
            simple("numeric(10,2)"),
            simple("timestamp with time zone"),
            simple("double precision"),
            SqlType::Custom(local("mood")),
            SqlType::Custom(ObjectName { schema: Some("app".to_string()), name: "mood".to_string() }),
            simple("character varying(20)"),
            simple("timestamp(3) with time zone"),
            simple("time without time zone"),
        ]
    );
}

#[test]
fn column_options_and_inline_constraints() {
    let parsed = parse(
        "create table app.orders (\n  id bigint generated always as identity primary key,\n  customer_id int \
         not null references customers (id) on delete cascade on update no action,\n  code text default \
         'x''y' unique,\n  total numeric(10,2) default 0 not null constraint positive check (total >= 0),\n  \
         created timestamp default now() null,\n  n int generated by default as identity\n);",
    )
    .unwrap();
    assert_eq!(
        parsed,
        vec![Statement::Table(TableDefinition {
            name: ObjectName { schema: Some("app".to_string()), name: "orders".to_string() },
            columns: vec![
                ColumnDefinition {
                    name: "id".to_string(),
                    sql_type: simple("bigint"),
                    not_null: false,
                    default: None,
                    identity: Some(Identity::Always),
                },
                column("customer_id", simple("int"), true),
                ColumnDefinition {
                    name: "code".to_string(),
                    sql_type: simple("text"),
                    not_null: false,
                    default: Some("'x''y'".to_string()),
                    identity: None,
                },
                ColumnDefinition {
                    name: "total".to_string(),
                    sql_type: simple("numeric(10,2)"),
                    not_null: true,
                    default: Some("0".to_string()),
                    identity: None,
                },
                ColumnDefinition {
                    name: "created".to_string(),
                    sql_type: simple("timestamp"),
                    not_null: false,
                    default: Some("now()".to_string()),
                    identity: None,
                },
                ColumnDefinition {
                    name: "n".to_string(),
                    sql_type: simple("int"),
                    not_null: false,
                    default: None,
                    identity: Some(Identity::ByDefault),
                },
            ],
            constraints: vec![
                TableConstraint::Primary {
                    name: "orders_pkey".to_string(),
                    columns: strings(&["id"]),
                    parameters: None,
                },
                TableConstraint::Foreign {
                    name: "orders_customer_id_fkey".to_string(),
                    columns: strings(&["customer_id"]),
                    ref_table: local("customers"),
                    ref_columns: strings(&["id"]),
                    on_delete: Some(ForeignConstraintAction::Cascade),
                    on_update: Some(ForeignConstraintAction::NoAction),
                },
                TableConstraint::Unique { name: "orders_code_key".to_string(), columns: strings(&["code"]) },
                TableConstraint::Check { name: "positive".to_string(), expression: "total >= 0".to_string() },
            ],
        })]
    );
}

#[test]
fn table_constraints() {
    let parsed = parse(
        "create table t (a int, b int, constraint pk primary key (a, b) with (fillfactor = 70), foreign key \
         (a) references other.u on delete set null on update set default, unique (b, a), check (a < b), \
         constraint fk2 foreign key (a, b) references v (x, y) on delete restrict, primary key (a));",
    )
    .unwrap();
    let Statement::Table(t) = &parsed[0] else { panic!() };
    assert_eq!(t.columns.len(), 2);
    assert_eq!(
        t.constraints,
        vec![
            TableConstraint::Primary {
                name: "pk".to_string(),
                columns: strings(&["a", "b"]),
                parameters: Some(vec![IndexParameter::FillFactor(70)]),
            },
            TableConstraint::Foreign {
                name: "t_a_fkey".to_string(),
                columns: strings(&["a"]),
                ref_table: ObjectName { schema: Some("other".to_string()), name: "u".to_string() },
                ref_columns: vec![],
                on_delete: Some(ForeignConstraintAction::SetNull),
                on_update: Some(ForeignConstraintAction::SetDefault),
            },
            TableConstraint::Unique { name: "t_b_a_key".to_string(), columns: strings(&["b", "a"]) },
            TableConstraint::Check { name: "t_check".to_string(), expression: "a < b".to_string() },
            TableConstraint::Foreign {
                name: "fk2".to_string(),
                columns: strings(&["a", "b"]),
                ref_table: local("v"),
                ref_columns: strings(&["x", "y"]),
                on_delete: Some(ForeignConstraintAction::Restrict),
                on_update: None,
            },
            TableConstraint::Primary { name: "t_pkey".to_string(), columns: strings(&["a"]), parameters: None },
        ]
    );
    assert_eq!(
        parse("create table e ();"),
        Ok(vec![Statement::Table(TableDefinition { name: local("e"), columns: vec![], constraints: vec![] })])
    );
}

#[test]
fn expressions_keep_their_tokens() {
    let parsed = parse(
        "create table t (a int default ( 1  *  2 ), b text check (\"B\" <> 'it''s' and b <> $$x$$ and \
         \"select\" = \"table\"));",
    )
    .unwrap();
    let Statement::Table(t) = &parsed[0] else { panic!() };
    assert_eq!(t.columns[0].default, Some("( 1 * 2 )".to_string()));
    assert_eq!(
        t.constraints,
        vec![TableConstraint::Check {
            name: "t_b_check".to_string(),
            expression: "\"B\" <> 'it''s' and b <> 'x' and select = \"table\"".to_string(),
        }]
    );
}

#[test]
fn schemas_extensions_and_types() {
    assert_eq!(
        parse(
            "CREATE SCHEMA app; create extension citext; create extension if not exists \"uuid-ossp\";\n\
             create type mood as enum ('sad', 'ok'); create type empty as enum (); create type pair as (a \
             int, b app.mood); create type id as bigint; create domain app.email as text check (value <> '') \
             check (true);"
        ),
        Ok(vec![
            Statement::Schema(SchemaDefinition { name: "app".to_string() }),
            Statement::Extension(ExtensionDefinition { name: "citext".to_string() }),
            Statement::Extension(ExtensionDefinition { name: "uuid-ossp".to_string() }),
            Statement::Type(TypeDefinition {
                name: local("mood"),
                kind: TypeDefinitionKind::Enum(strings(&["sad", "ok"])),
            }),
            Statement::Type(TypeDefinition { name: local("empty"), kind: TypeDefinitionKind::Enum(vec![]) }),
            Statement::Type(TypeDefinition {
                name: local("pair"),
                kind: TypeDefinitionKind::Composite(vec![
                    TypeField { name: "a".to_string(), sql_type: simple("int") },
                    TypeField {
                        name: "b".to_string(),
                        sql_type: SqlType::Custom(ObjectName {
                            schema: Some("app".to_string()),
                            name: "mood".to_string(),
                        }),
                    },
                ]),
            }),
            Statement::Type(TypeDefinition { name: local("id"), kind: TypeDefinitionKind::Alias(simple("bigint")) }),
            Statement::Type(TypeDefinition {
                name: ObjectName { schema: Some("app".to_string()), name: "email".to_string() },
                kind: TypeDefinitionKind::Domain(simple("text"), strings(&["value <> ''", "true"])),
            }),
        ])
    );
}

#[test]
fn functions() {
    assert_eq!(
        parse(
            "create or replace function app.add(a int, b int) returns int as $$ select a + b $$ language sql \
             immutable; create function f() returns text language plpgsql as 'begin end' stable volatile;"
        ),
        Err(vec![]).or_else(|_: Vec<ParseError>| -> Result<Vec<Statement>, Vec<ParseError>> {
            Ok(vec![
                Statement::Function(FunctionDefinition {
                    name: ObjectName { schema: Some("app".to_string()), name: "add".to_string() },
                    arguments: vec![
                        FunctionArgument { name: "a".to_string(), sql_type: simple("int") },
                        FunctionArgument { name: "b".to_string(), sql_type: simple("int") },
                    ],
                    return_type: simple("int"),
                    language: "sql".to_string(),
                    body: " select a + b ".to_string(),
                    volatility: Some(Volatility::Immutable),
                }),
                Statement::Function(FunctionDefinition {
                    name: local("f"),
                    arguments: vec![],
                    return_type: simple("text"),
                    language: "plpgsql".to_string(),
                    body: "begin end".to_string(),
                    volatility: Some(Volatility::Volatile),
                }),
            ])
        })
    );
}

fn unexpected(errors: &[ParseError]) -> Vec<(Option<String>, Vec<String>)> {
    errors
        .iter()
        .map(|e| match e {
            ParseError::UnrecognizedToken { token, expected } => {
                (token.as_ref().map(|t| t.describe()), expected.clone())
            }
            other => panic!("{:?}", other),
        })
        .collect()
}

#[test]
fn errors_are_collected_statement_by_statement() {
    let errors = parse(
        "create tabel a (x int);\ncreate table b (x int, );\ncreate schema ok;\ncreate table c (x int) \
         create schema lost;\ncreate function f() returns int language sql;\ncreate table d (x",
    )
    .unwrap_err();
    assert_eq!(
        unexpected(&errors),
        vec![
            (
                Some("Identifier(tabel)".to_string()),
                strings(&["TABLE", "SCHEMA", "EXTENSION", "TYPE", "DOMAIN", "FUNCTION", "OR"])
            ),
            (Some("RightParen".to_string()), strings(&["identifier"])),
            (Some("Keyword(create)".to_string()), strings(&[";"])),
            (Some("Semicolon".to_string()), strings(&["AS"])),
            (None, strings(&["type"])),
        ]
    );
    let ParseError::UnrecognizedToken { token: Some(t), .. } = &errors[1] else { panic!() };
    assert_eq!((t.kind, t.line, t.start, t.end), (TokenKind::RightParen, 2, 23, 24));
}

#[test]
fn recovery_skips_semicolons_inside_brackets() {
    let errors = parse("create table a (x int default (1;2) y); create schema s").unwrap_err();
    assert_eq!(
        unexpected(&errors),
        vec![(Some("Semicolon".to_string()), strings(&[",", ")"])), (None, strings(&[";"]))]
    );
    assert_eq!(parse(";;"), Ok(vec![]));
    assert_eq!(parse(""), Ok(vec![]));
}

#[test]
fn fill_factor_must_fit() {
    assert!(parse("create table t (a int, primary key (a) with (fillfactor = 4294967295));").is_ok());
    let errors = parse("create table t (a int, primary key (a) with (fillfactor = 4294967296));").unwrap_err();
    assert_eq!(unexpected(&errors), vec![(Some("Number(4294967296)".to_string()), strings(&["number"]))]);
    let errors = parse("create table t (a int, primary key (a) with (fillfactor = 1.5));").unwrap_err();
    assert_eq!(unexpected(&errors), vec![(Some("Number(1.5)".to_string()), strings(&["number"]))]);
}

use psqlpack::ast::{
    ColumnDefinition, ExtensionDefinition, ForeignConstraintAction, FunctionDefinition, ObjectName,
    SchemaDefinition, ScriptDefinition, ScriptStage, SqlType, TableConstraint, TableDefinition,
    TypeDefinition, TypeDefinitionKind,
};
use psqlpack::errors::PsqlpackError;
use psqlpack::model::delta::{plan, ChangeInstruction, ColumnChange};
use psqlpack::model::{GenerationOptions, Package, Project, PublishProfile};

fn project() -> Project {
    Project {
        default_schema: "public".to_string(),
        include_paths: vec![],
        pre_deploy_scripts: vec![],
        post_deploy_scripts: vec![],
    }
}

fn profile(allow_drops: bool) -> PublishProfile {
    PublishProfile {
        version: "1.0".to_string(),
        allow_drops,
        generation_options: GenerationOptions {
            always_recreate_function: false,
            force_extension_upgrade: false,
        },
    }
}

fn name(local: &str) -> ObjectName {
    ObjectName { schema: Some("public".to_string()), name: local.to_string() }
}

fn column(name: &str, sql_type: &str) -> ColumnDefinition {
    ColumnDefinition {
        name: name.to_string(),
        sql_type: SqlType::Simple(sql_type.to_string()),
        not_null: false,
        default: None,
        identity: None,
    }
}

fn table(local: &str, columns: Vec<ColumnDefinition>, constraints: Vec<TableConstraint>) -> TableDefinition {
    TableDefinition { name: name(local), columns, constraints }
}

fn function(local: &str, body: &str) -> FunctionDefinition {
    FunctionDefinition {
        name: name(local),
        arguments: vec![],
        return_type: SqlType::Simple("int".to_string()),
        language: "sql".to_string(),
        body: body.to_string(),
        volatility: None,
    }
}

fn finalized(mut package: Package) -> Package {
    package.set_defaults(&project());
    package.generate_dependency_graph().unwrap();
    package
}

fn with_tables(tables: Vec<TableDefinition>) -> Package {
    let mut package = Package::new();
    for t in tables {
        package.push_table(t);
    }
    finalized(package)
}

#[test]
fn added_column_is_the_whole_plan() {
    let declared = with_tables(vec![table(
        "users",
        vec![column("id", "int"), column("name", "text"), column("email", "text")],
        vec![],
    )]);
    let live = with_tables(vec![table("users", vec![column("id", "int"), column("name", "text")], vec![])]);
    let changes = plan(&declared, &live, &profile(false)).unwrap();
    assert_eq!(
        changes,
        vec![ChangeInstruction::AddColumn(&declared.tables[0].name, &declared.tables[0].columns[2])]
    );
}

#[test]
fn drop_is_blocked_without_allow_drops() {
    let declared = with_tables(vec![table("users", vec![column("id", "int")], vec![])]);
    let live = with_tables(vec![table("users", vec![column("id", "int"), column("legacy", "text")], vec![])]);
    assert_eq!(
        plan(&declared, &live, &profile(false)),
        Err(PsqlpackError::GenerationError(
            "Drops are required but not allowed by the publish profile".to_string()
        ))
    );
    assert_eq!(
        plan(&declared, &live, &profile(true)),
        Ok(vec![ChangeInstruction::DropColumn(&live.tables[0].name, &live.tables[0].columns[1].name)])
    );
}

#[test]
fn changed_function_body_is_replaced_once() {
    let mut declared = Package::new();
    declared.push_function(function("f", "select 1"));
    let declared = finalized(declared);
    let mut live = Package::new();
    live.push_function(function("f", "select 2"));
    let live = finalized(live);
    assert_eq!(
        plan(&declared, &live, &profile(false)),
        Ok(vec![ChangeInstruction::CreateOrReplaceFunction(&declared.functions[0])])
    );
}

#[test]
fn function_body_is_compared_trimmed() {
    let mut declared = Package::new();
    declared.push_function(function("f", "  select 1\n"));
    let declared = finalized(declared);
    let mut live = Package::new();
    live.push_function(function("f", "select 1"));
    let live = finalized(live);
    assert_eq!(plan(&declared, &live, &profile(false)), Ok(vec![]));
    let mut always = profile(false);
    always.generation_options.always_recreate_function = true;
    assert_eq!(
        plan(&declared, &live, &always),
        Ok(vec![ChangeInstruction::CreateOrReplaceFunction(&declared.functions[0])])
    );
}

fn rich_package() -> Package {
    let mut package = Package::new();
    package.push_extension(ExtensionDefinition { name: "citext".to_string() });
    package.push_schema(SchemaDefinition { name: "app".to_string() });
    package.push_type(TypeDefinition {
        name: name("mood"),
        kind: TypeDefinitionKind::Enum(vec!["sad".to_string(), "happy".to_string()]),
    });
    package.push_table(table(
        "customers",
        vec![column("id", "int"), ColumnDefinition {
            name: "mood".to_string(),
            sql_type: SqlType::Custom(ObjectName { schema: None, name: "mood".to_string() }),
            not_null: true,
            default: Some("'happy'".to_string()),
            identity: None,
        }],
        vec![TableConstraint::Primary {
            name: "pk_customers".to_string(),
            columns: vec!["id".to_string()],
            parameters: None,
        }],
    ));
    package.push_table(table(
        "orders",
        vec![column("id", "int"), column("customer_id", "int")],
        vec![TableConstraint::Foreign {
            name: "fk_orders_customers".to_string(),
            columns: vec!["customer_id".to_string()],
            ref_table: ObjectName { schema: None, name: "customers".to_string() },
            ref_columns: vec!["id".to_string()],
            on_delete: Some(ForeignConstraintAction::Cascade),
            on_update: None,
        }],
    ));
    package.push_function(function("f", "select 1"));
    package.push_script(ScriptDefinition {
        name: "before".to_string(),
        stage: ScriptStage::Pre,
        body: "select 'pre'".to_string(),
    });
    package.push_script(ScriptDefinition {
        name: "after".to_string(),
        stage: ScriptStage::Post,
        body: "select 'post'".to_string(),
    });
    finalized(package)
}

#[test]
fn plan_against_itself_runs_only_the_scripts() {
    let declared = rich_package();
    let live = rich_package();
    assert!(declared.validate().is_ok());
    assert_eq!(
        plan(&declared, &live, &profile(false)),
        Ok(vec![
            ChangeInstruction::RunScript(&declared.scripts[0]),
            ChangeInstruction::RunScript(&declared.scripts[1]),
        ])
    );
}

#[test]
fn plan_against_an_empty_database_creates_in_build_order() {
    let declared = rich_package();
    let live = finalized(Package::new());
    let changes = plan(&declared, &live, &profile(false)).unwrap();
    let customers = &declared.tables[0];
    let orders = &declared.tables[1];
    assert_eq!(
        changes,
        vec![
            ChangeInstruction::RunScript(&declared.scripts[0]),
            ChangeInstruction::EnableExtension(&declared.extensions[0]),
            ChangeInstruction::CreateSchema(&declared.schemas[0]),
            ChangeInstruction::CreateType(&declared.types[0]),
            ChangeInstruction::CreateOrReplaceFunction(&declared.functions[0]),
            ChangeInstruction::CreateTable(customers),
            ChangeInstruction::AddConstraint(&customers.name, &customers.constraints[0]),
            ChangeInstruction::CreateTable(orders),
            ChangeInstruction::AddConstraint(&orders.name, &orders.constraints[0]),
            ChangeInstruction::RunScript(&declared.scripts[1]),
        ]
    );
}

#[test]
fn plan_from_a_full_database_drops_bottom_up() {
    let declared = finalized(Package::new());
    let live = rich_package();
    let changes = plan(&declared, &live, &profile(true)).unwrap();
    assert_eq!(
        changes,
        vec![
            ChangeInstruction::DropTable(&live.tables[1].name),
            ChangeInstruction::DropTable(&live.tables[0].name),
            ChangeInstruction::DropFunction(&live.functions[0]),
            ChangeInstruction::DropType(&live.types[0].name),
        ]
    );
    assert!(changes.iter().all(|c| c.is_drop()));
    assert!(plan(&declared, &live, &profile(false)).is_err());
}

#[test]
fn altered_column_gives_one_instruction_for_each_difference() {
    let declared = with_tables(vec![table(
        "t",
        vec![ColumnDefinition {
            name: "a".to_string(),
            sql_type: SqlType::Simple("BIGINT".to_string()),
            not_null: true,
            default: Some("0".to_string()),
            identity: None,
        }, column("b", "INT"), column("c", " numeric(10,\t2) ")],
        vec![],
    )]);
    let live = with_tables(vec![table(
        "t",
        vec![column("a", "int"), column("b", "integer"), column("c", "NUMERIC(10, 2)")],
        vec![],
    )]);
    let t = &declared.tables[0];
    assert_eq!(
        plan(&declared, &live, &profile(false)),
        Ok(vec![
            ChangeInstruction::AlterColumn(&t.name, &t.columns[0], ColumnChange::Type),
            ChangeInstruction::AlterColumn(&t.name, &t.columns[0], ColumnChange::Nullability),
            ChangeInstruction::AlterColumn(&t.name, &t.columns[0], ColumnChange::Default),
        ])
    );
}

#[test]
fn changed_constraint_is_dropped_and_added() {
    let declared = with_tables(vec![table(
        "t",
        vec![column("a", "int"), column("b", "int")],
        vec![TableConstraint::Unique { name: "u".to_string(), columns: vec!["a".to_string(), "b".to_string()] }],
    )]);
    let live = with_tables(vec![table(
        "t",
        vec![column("a", "int"), column("b", "int")],
        vec![TableConstraint::Unique { name: "u".to_string(), columns: vec!["a".to_string()] }],
    )]);
    let t = &declared.tables[0];
    assert_eq!(
        plan(&declared, &live, &profile(true)),
        Ok(vec![
            ChangeInstruction::DropConstraint(&live.tables[0].name, live.tables[0].constraints[0].name()),
            ChangeInstruction::AddConstraint(&t.name, &t.constraints[0]),
        ])
    );
    assert!(plan(&declared, &live, &profile(false)).is_err());
}

#[test]
fn package_without_order_is_ordered_by_its_graph() {
    let mut declared = Package::new();
    declared.push_table(table("a", vec![column("id", "int")], vec![]));
    declared.set_defaults(&project());
    let live = finalized(Package::new());
    assert_eq!(declared.order, None);
    assert_eq!(
        plan(&declared, &live, &profile(false)),
        Ok(vec![ChangeInstruction::CreateTable(&declared.tables[0])])
    );
    let mut broken = Package::new();
    broken.push_table(table(
        "a",
        vec![column("id", "int")],
        vec![TableConstraint::Foreign {
            name: "fk".to_string(),
            columns: vec!["id".to_string()],
            ref_table: name("missing"),
            ref_columns: vec![],
            on_delete: None,
            on_update: None,
        }],
    ));
    assert_eq!(
        plan(&broken, &live, &profile(false)),
        Err(PsqlpackError::GenerationError(
            "Unresolved dependencies detected: Table(public.missing)".to_string()
        ))
    );
}

#[test]
fn default_profile_allows_no_drops() {
    let p = PublishProfile::default();
    assert!(!p.allow_drops);
    assert!(!p.generation_options.always_recreate_function);
    assert!(!p.generation_options.force_extension_upgrade);
    assert_eq!(p.version, "");
    assert_eq!(GenerationOptions::default(), p.generation_options);
}

#[test]
fn replanning_after_the_plan_is_empty() {
    let mut declared = Package::new();
    declared.push_extension(ExtensionDefinition { name: "citext".to_string() });
    declared.push_type(TypeDefinition {
        name: name("mood"),
        kind: TypeDefinitionKind::Enum(vec!["sad".to_string(), "happy".to_string()]),
    });
    declared.push_table(table(
        "users",
        vec![column("id", "INT"), ColumnDefinition {
            name: "email".to_string(),
            sql_type: SqlType::Simple("text".to_string()),
            not_null: true,
            default: Some("''".to_string()),
            identity: None,
        }],
        vec![TableConstraint::Unique { name: "u".to_string(), columns: vec!["email".to_string()] }],
    ));
    declared.push_function(function("f", "select 1"));
    let declared = finalized(declared);

    let mut live = Package::new();
    live.push_type(TypeDefinition { name: name("mood"), kind: TypeDefinitionKind::Enum(vec!["sad".to_string()]) });
    live.push_type(TypeDefinition { name: name("gone"), kind: TypeDefinitionKind::Enum(vec![]) });
    live.push_table(table(
        "users",
        vec![column("id", "integer"), column("email", "varchar(10)"), column("legacy", "int")],
        vec![TableConstraint::Unique { name: "u".to_string(), columns: vec!["id".to_string()] }],
    ));
    live.push_table(table("old", vec![column("id", "int")], vec![]));
    live.push_function(function("f", "select 2"));
    live.push_function(function("g", "select 3"));
    let live = finalized(live);

    let changes = plan(&declared, &live, &profile(true)).unwrap();
    let users = &declared.tables[0];
    assert_eq!(
        changes,
        vec![
            ChangeInstruction::DropConstraint(&live.tables[0].name, live.tables[0].constraints[0].name()),
            ChangeInstruction::DropFunction(&live.functions[1]),
            ChangeInstruction::DropColumn(&live.tables[0].name, &live.tables[0].columns[2].name),
            ChangeInstruction::DropTable(&live.tables[1].name),
            ChangeInstruction::DropType(&live.types[1].name),
            ChangeInstruction::EnableExtension(&declared.extensions[0]),
            ChangeInstruction::AlterType(&declared.types[0]),
            ChangeInstruction::AlterColumn(&users.name, &users.columns[1], ColumnChange::Type),
            ChangeInstruction::AlterColumn(&users.name, &users.columns[1], ColumnChange::Nullability),
            ChangeInstruction::AlterColumn(&users.name, &users.columns[1], ColumnChange::Default),
            ChangeInstruction::CreateOrReplaceFunction(&declared.functions[0]),
            ChangeInstruction::AddConstraint(&users.name, &users.constraints[0]),
        ]
    );

    // What the database holds once these changes are carried out: the
    // column that needed no change keeps the spelling of its type.
    let mut after = Package::new();
    after.push_extension(ExtensionDefinition { name: "citext".to_string() });
    after.push_type(declared.types[0].clone());
    after.push_table(table(
        "users",
        vec![column("id", "integer"), declared.tables[0].columns[1].clone()],
        vec![declared.tables[0].constraints[0].clone()],
    ));
    after.push_function(function("f", "select 1"));
    let after = finalized(after);
    assert_eq!(plan(&declared, &after, &profile(true)), Ok(vec![]));
    assert_eq!(plan(&declared, &after, &profile(false)), Ok(vec![]));
}

#[test]
fn a_profile_takes_what_its_file_lacks_as_off() {
    assert_eq!(PublishProfile::from_options(None, None, None, None), PublishProfile::default());
    assert_eq!(
        PublishProfile::from_options(Some("1.0".to_string()), Some(true), Some(false), Some(true)),
        PublishProfile {
            version: "1.0".to_string(),
            allow_drops: true,
            generation_options: GenerationOptions { always_recreate_function: false, force_extension_upgrade: true },
        }
    );
    assert_eq!(
        PublishProfile::from_options(None, Some(false), Some(true), None),
        PublishProfile {
            version: String::new(),
            allow_drops: false,
            generation_options: GenerationOptions { always_recreate_function: true, force_extension_upgrade: false },
        }
    );
}

use psqlpack::ast::{
    ExtensionDefinition, FunctionDefinition, ObjectName, SchemaDefinition, ScriptDefinition, ScriptStage,
    SqlType, TableDefinition, TypeDefinition, TypeDefinitionKind,
};
use psqlpack::model::archive::{entry_kind, entry_path, ArchiveEntry, EntryContent, EntryKind};
use psqlpack::model::Package;

fn name(schema: &str, local: &str) -> ObjectName {
    ObjectName { schema: Some(schema.to_string()), name: local.to_string() }
}

fn package() -> Package {
    let mut p = Package::new();
    p.push_extension(ExtensionDefinition { name: "citext".to_string() });
    p.push_function(FunctionDefinition {
        name: name("app", "f"),
        arguments: vec![],
        return_type: SqlType::Simple("int".to_string()),
        language: "sql".to_string(),
        body: "select 1".to_string(),
        volatility: None,
    });
    p.push_schema(SchemaDefinition { name: "app".to_string() });
    p.push_script(ScriptDefinition { name: "seed".to_string(), stage: ScriptStage::Post, body: "x".to_string() });
    p.push_table(TableDefinition { name: name("app", "users"), columns: vec![], constraints: vec![] });
    p.push_table(TableDefinition { name: name("app", "orders"), columns: vec![], constraints: vec![] });
    p.push_type(TypeDefinition { name: name("app", "mood"), kind: TypeDefinitionKind::Enum(vec![]) });
    p
}

fn entry(path: &str, content: EntryContent) -> ArchiveEntry {
    ArchiveEntry { path: path.to_string(), content }
}

#[test]
fn layout_lists_each_kind_under_its_directory() {
    let mut p = package();
    let expected = vec![
        entry("extensions/", EntryContent::Directory),
        entry("extensions/citext.json", EntryContent::Extension(0)),
        entry("functions/", EntryContent::Directory),
        entry("functions/app.f.json", EntryContent::Function(0)),
        entry("schemas/", EntryContent::Directory),
        entry("schemas/app.json", EntryContent::Schema(0)),
        entry("scripts/", EntryContent::Directory),
        entry("scripts/seed.json", EntryContent::Script(0)),
        entry("tables/", EntryContent::Directory),
        entry("tables/app.users.json", EntryContent::Table(0)),
        entry("tables/app.orders.json", EntryContent::Table(1)),
        entry("types/", EntryContent::Directory),
        entry("types/app.mood.json", EntryContent::Type(0)),
    ];
    assert_eq!(p.archive_layout(), expected);
    p.generate_dependency_graph().unwrap();
    let mut with_order = expected;
    with_order.push(entry("order.json", EntryContent::Order));
    assert_eq!(p.archive_layout(), with_order);
}

#[test]
fn entries_are_read_into_the_collection_of_their_directory() {
    assert_eq!(entry_kind("extensions/citext.json", 10), EntryKind::Extension);
    assert_eq!(entry_kind("functions/app.f.json", 10), EntryKind::Function);
    assert_eq!(entry_kind("schemas/app.json", 10), EntryKind::Schema);
    assert_eq!(entry_kind("scripts/seed.json", 10), EntryKind::Script);
    assert_eq!(entry_kind("tables/app.users.json", 10), EntryKind::Table);
    assert_eq!(entry_kind("types/app.mood.json", 10), EntryKind::Type);
    assert_eq!(entry_kind("order.json", 10), EntryKind::Order);
}

#[test]
fn empty_and_unknown_entries_are_ignored() {
    assert_eq!(entry_kind("tables/", 0), EntryKind::Ignored);
    assert_eq!(entry_kind("tables/app.users.json", 0), EntryKind::Ignored);
    assert_eq!(entry_kind("order.json", 0), EntryKind::Ignored);
    assert_eq!(entry_kind("views/app.v.json", 10), EntryKind::Ignored);
    assert_eq!(entry_kind("order.jsonx", 10), EntryKind::Ignored);
    assert_eq!(entry_kind("table", 10), EntryKind::Ignored);
    assert_eq!(entry_kind("", 10), EntryKind::Ignored);
}

#[test]
fn every_laid_out_file_is_read_back_into_its_collection() {
    let mut p = package();
    p.generate_dependency_graph().unwrap();
    for e in p.archive_layout() {
        let expected = match e.content {
            EntryContent::Directory => EntryKind::Ignored,
            EntryContent::Extension(_) => EntryKind::Extension,
            EntryContent::Function(_) => EntryKind::Function,
            EntryContent::Schema(_) => EntryKind::Schema,
            EntryContent::Script(_) => EntryKind::Script,
            EntryContent::Table(_) => EntryKind::Table,
            EntryContent::Type(_) => EntryKind::Type,
            EntryContent::Order => EntryKind::Order,
        };
        let size = if e.content == EntryContent::Directory { 0 } else { 2 };
        assert_eq!(entry_kind(&e.path, size), expected);
    }
    assert_eq!(entry_path("tables/", "app.users"), "tables/app.users.json");
}

//! The schema model: the objects that SQL sources declare.

use vstd::prelude::*;
use crate::text::{dotted, views};

verus! {

/// The name of a schema-scoped object. The schema is absent until the
/// package is normalized.
#[derive(Clone, Debug, PartialEq, Eq)]
pub struct ObjectName {
    pub schema: Option<String>,
    pub name: String,
}

/// The characters of a qualified name: the schema, a dot and the local name,
/// or the local name alone where there is no schema.
pub open spec fn qualified(schema: Option<String>, name: Seq<char>) -> Seq<char> {
    match schema {
        Some(s) => s@ + seq!['.'] + name,
        None => name,
    }
}

impl ObjectName {
    /// The characters of the name in full.
    pub open spec fn text(&self) -> Seq<char> {
        qualified(self.schema, self.name@)
    }

    /// Both names have the same schema, or both none, and the same local
    /// name.
    pub open spec fn same(&self, other: &ObjectName) -> bool {
        &&& self.name@ == other.name@
        &&& self.schema is Some <==> other.schema is Some
        &&& self.schema is Some ==> self.schema->0@ == other.schema->0@
    }

    /// The name in full: the schema, a dot and the local name, or the local
    /// name alone where there is no schema.
    pub fn to_string(&self) -> (s: String)
        ensures
            s@ == self.text(),
    {
        match &self.schema {
            Some(schema) => dotted(schema, &self.name),
            None => self.name.clone(),
        }
    }

    /// Whether both names have the same schema, or both none, and the same
    /// local name.
    pub fn same_as(&self, other: &ObjectName) -> (r: bool)
        ensures
            r == self.same(other),
    {
        if self.name != other.name {
            return false;
        }
        match (&self.schema, &other.schema) {
            (Some(a), Some(b)) => *a == *b,
            (None, None) => true,
            _ => false,
        }
    }
}

/// A database extension to enable.
#[derive(Clone, Debug, PartialEq, Eq)]
pub struct ExtensionDefinition {
    pub name: String,
}

/// A namespace.
#[derive(Clone, Debug, PartialEq, Eq)]
pub struct SchemaDefinition {
    pub name: String,
}

/// The type of a column, an argument or a result: one that the database
/// brings along, as written, or one that the project declares.
#[derive(Clone, Debug, PartialEq, Eq)]
pub enum SqlType {
    Simple(String),
    Custom(ObjectName),
}

/// A field of a composite type.
#[derive(Clone, Debug, PartialEq, Eq)]
pub struct TypeField {
    pub name: String,
    pub sql_type: SqlType,
}

/// What a declared type is made of.
#[derive(Clone, Debug, PartialEq, Eq)]
pub enum TypeDefinitionKind {
    Enum(Vec<String>),
    Composite(Vec<TypeField>),
    Alias(SqlType),
    Domain(SqlType, Vec<String>),
}

/// A type that the project declares.
#[derive(Clone, Debug, PartialEq, Eq)]
pub struct TypeDefinition {
    pub name: ObjectName,
    pub kind: TypeDefinitionKind,
}

/// How an identity column gets its values.
#[derive(Clone, Copy, Debug, PartialEq, Eq, Structural)]
pub enum Identity {
    Always,
    ByDefault,
}

/// A column of a table.
#[derive(Clone, Debug, PartialEq, Eq)]
pub struct ColumnDefinition {
    pub name: String,
    pub sql_type: SqlType,
    pub not_null: bool,
    pub default: Option<String>,
    pub identity: Option<Identity>,
}

/// What happens to a referencing row when the row it refers to goes or
/// changes.
#[derive(Clone, Copy, Debug, PartialEq, Eq, Structural)]
pub enum ForeignConstraintAction {
    NoAction,
    Restrict,
    Cascade,
    SetNull,
    SetDefault,
}

/// A storage parameter of the index behind a primary key.
#[derive(Clone, Copy, Debug, PartialEq, Eq, Structural)]
pub enum IndexParameter {
    FillFactor(u32),
}

/// A constraint of a table.
#[derive(Clone, Debug, PartialEq, Eq)]
pub enum TableConstraint {
    Primary { name: String, columns: Vec<String>, parameters: Option<Vec<IndexParameter>> },
    Foreign {
        name: String,
        columns: Vec<String>,
        ref_table: ObjectName,
        ref_columns: Vec<String>,
        on_delete: Option<ForeignConstraintAction>,
        on_update: Option<ForeignConstraintAction>,
    },
    Unique { name: String, columns: Vec<String> },
    Check { name: String, expression: String },
}

impl TableConstraint {
    /// The name of the constraint.
    pub open spec fn name_spec(&self) -> String {
        match self {
            TableConstraint::Primary { name, .. } => *name,
            TableConstraint::Foreign { name, .. } => *name,
            TableConstraint::Unique { name, .. } => *name,
            TableConstraint::Check { name, .. } => *name,
        }
    }

    /// The name of the constraint.
    pub fn name(&self) -> (n: &String)
        ensures
            *n == self.name_spec(),
    {
        match self {
            TableConstraint::Primary { name, .. } => name,
            TableConstraint::Foreign { name, .. } => name,
            TableConstraint::Unique { name, .. } => name,
            TableConstraint::Check { name, .. } => name,
        }
    }
}

/// A table.
#[derive(Clone, Debug, PartialEq, Eq)]
pub struct TableDefinition {
    pub name: ObjectName,
    pub columns: Vec<ColumnDefinition>,
    pub constraints: Vec<TableConstraint>,
}

/// An argument of a function.
#[derive(Clone, Debug, PartialEq, Eq)]
pub struct FunctionArgument {
    pub name: String,
    pub sql_type: SqlType,
}

/// How far the database may assume that a function gives the same result
/// again.
#[derive(Clone, Copy, Debug, PartialEq, Eq, Structural)]
pub enum Volatility {
    Immutable,
    Stable,
    Volatile,
}

/// A function.
#[derive(Clone, Debug, PartialEq, Eq)]
pub struct FunctionDefinition {
    pub name: ObjectName,
    pub arguments: Vec<FunctionArgument>,
    pub return_type: SqlType,
    pub language: String,
    pub body: String,
    pub volatility: Option<Volatility>,
}

/// When a script runs: before the changes or after them.
#[derive(Clone, Copy, Debug, PartialEq, Eq, Structural)]
pub enum ScriptStage {
    Pre,
    Post,
}

/// Free-form SQL that runs whenever the package is published.
#[derive(Clone, Debug, PartialEq, Eq)]
pub struct ScriptDefinition {
    pub name: String,
    pub stage: ScriptStage,
    pub body: String,
}

/// One statement of a source file.
#[derive(Clone, Debug, PartialEq, Eq)]
pub enum Statement {
    Table(TableDefinition),
    Function(FunctionDefinition),
    Schema(SchemaDefinition),
    Type(TypeDefinition),
    Extension(ExtensionDefinition),
    Script(ScriptDefinition),
}

/// A name as contracts see it.
pub struct NameView {
    pub schema: Option<Seq<char>>,
    pub name: Seq<char>,
}

impl View for ObjectName {
    type V = NameView;

    open spec fn view(&self) -> NameView {
        NameView {
            schema: match self.schema {
                Some(s) => Some(s@),
                None => None,
            },
            name: self.name@,
        }
    }
}

/// A type as contracts see it.
pub enum TypeView {
    Simple(Seq<char>),
    Custom(NameView),
}

impl View for SqlType {
    type V = TypeView;

    open spec fn view(&self) -> TypeView {
        match self {
            SqlType::Simple(t) => TypeView::Simple(t@),
            SqlType::Custom(n) => TypeView::Custom(n@),
        }
    }
}

/// A name with a type, as contracts see a field or an argument.
pub struct FieldView {
    pub name: Seq<char>,
    pub sql_type: TypeView,
}

impl View for TypeField {
    type V = FieldView;

    open spec fn view(&self) -> FieldView {
        FieldView { name: self.name@, sql_type: self.sql_type@ }
    }
}

impl View for FunctionArgument {
    type V = FieldView;

    open spec fn view(&self) -> FieldView {
        FieldView { name: self.name@, sql_type: self.sql_type@ }
    }
}

/// What a declared type is made of, as contracts see it.
pub enum KindView {
    Enum(Seq<Seq<char>>),
    Composite(Seq<FieldView>),
    Alias(TypeView),
    Domain(TypeView, Seq<Seq<char>>),
}

impl View for TypeDefinitionKind {
    type V = KindView;

    open spec fn view(&self) -> KindView {
        match self {
            TypeDefinitionKind::Enum(values) => KindView::Enum(views(values@)),
            TypeDefinitionKind::Composite(fields) => KindView::Composite(
                fields@.map_values(|f: TypeField| f@),
            ),
            TypeDefinitionKind::Alias(base) => KindView::Alias(base@),
            TypeDefinitionKind::Domain(base, checks) => KindView::Domain(base@, views(checks@)),
        }
    }
}

/// A declared type as contracts see it.
pub struct TypeDefinitionView {
    pub name: NameView,
    pub kind: KindView,
}

impl View for TypeDefinition {
    type V = TypeDefinitionView;

    open spec fn view(&self) -> TypeDefinitionView {
        TypeDefinitionView { name: self.name@, kind: self.kind@ }
    }
}

/// A column as contracts see it.
pub struct ColumnView {
    pub name: Seq<char>,
    pub sql_type: TypeView,
    pub not_null: bool,
    pub default: Option<Seq<char>>,
    pub identity: Option<Identity>,
}

impl View for ColumnDefinition {
    type V = ColumnView;

    open spec fn view(&self) -> ColumnView {
        ColumnView {
            name: self.name@,
            sql_type: self.sql_type@,
            not_null: self.not_null,
            default: match self.default {
                Some(d) => Some(d@),
                None => None,
            },
            identity: self.identity,
        }
    }
}

/// A constraint as contracts see it.
pub enum ConstraintView {
    Primary { name: Seq<char>, columns: Seq<Seq<char>>, parameters: Option<Seq<IndexParameter>> },
    Foreign {
        name: Seq<char>,
        columns: Seq<Seq<char>>,
        ref_table: NameView,
        ref_columns: Seq<Seq<char>>,
        on_delete: Option<ForeignConstraintAction>,
        on_update: Option<ForeignConstraintAction>,
    },
    Unique { name: Seq<char>, columns: Seq<Seq<char>> },
    Check { name: Seq<char>, expression: Seq<char> },
}

impl View for TableConstraint {
    type V = ConstraintView;

    open spec fn view(&self) -> ConstraintView {
        match self {
            TableConstraint::Primary { name, columns, parameters } => ConstraintView::Primary {
                name: name@,
                columns: views(columns@),
                parameters: match parameters {
                    Some(p) => Some(p@),
                    None => None,
                },
            },
            TableConstraint::Foreign { name, columns, ref_table, ref_columns, on_delete, on_update } => {
                ConstraintView::Foreign {
                    name: name@,
                    columns: views(columns@),
                    ref_table: ref_table@,
                    ref_columns: views(ref_columns@),
                    on_delete: *on_delete,
                    on_update: *on_update,
                }
            },
            TableConstraint::Unique { name, columns } => ConstraintView::Unique {
                name: name@,
                columns: views(columns@),
            },
            TableConstraint::Check { name, expression } => ConstraintView::Check {
                name: name@,
                expression: expression@,
            },
        }
    }
}

/// A table as contracts see it.
pub struct TableView {
    pub name: NameView,
    pub columns: Seq<ColumnView>,
    pub constraints: Seq<ConstraintView>,
}

impl View for TableDefinition {
    type V = TableView;

    open spec fn view(&self) -> TableView {
        TableView {
            name: self.name@,
            columns: self.columns@.map_values(|c: ColumnDefinition| c@),
            constraints: self.constraints@.map_values(|c: TableConstraint| c@),
        }
    }
}

/// A function as contracts see it.
pub struct FunctionView {
    pub name: NameView,
    pub arguments: Seq<FieldView>,
    pub return_type: TypeView,
    pub language: Seq<char>,
    pub body: Seq<char>,
    pub volatility: Option<Volatility>,
}

impl View for FunctionDefinition {
    type V = FunctionView;

    open spec fn view(&self) -> FunctionView {
        FunctionView {
            name: self.name@,
            arguments: self.arguments@.map_values(|a: FunctionArgument| a@),
            return_type: self.return_type@,
            language: self.language@,
            body: self.body@,
            volatility: self.volatility,
        }
    }
}

/// A script as contracts see it.
pub struct ScriptView {
    pub name: Seq<char>,
    pub stage: ScriptStage,
    pub body: Seq<char>,
}

impl View for ScriptDefinition {
    type V = ScriptView;

    open spec fn view(&self) -> ScriptView {
        ScriptView { name: self.name@, stage: self.stage, body: self.body@ }
    }
}

/// A statement as contracts see it.
pub enum StatementView {
    Table(TableView),
    Function(FunctionView),
    Schema(Seq<char>),
    Type(TypeDefinitionView),
    Extension(Seq<char>),
    Script(ScriptView),
}

impl View for Statement {
    type V = StatementView;

    open spec fn view(&self) -> StatementView {
        match self {
            Statement::Table(t) => StatementView::Table(t@),
            Statement::Function(f) => StatementView::Function(f@),
            Statement::Schema(s) => StatementView::Schema(s.name@),
            Statement::Type(t) => StatementView::Type(t@),
            Statement::Extension(e) => StatementView::Extension(e.name@),
            Statement::Script(s) => StatementView::Script(s@),
        }
    }
}

} // verus!

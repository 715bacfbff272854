//! Normalization of names: every name that lacks a schema gets the default
//! schema of the project.

use vstd::prelude::*;
use crate::ast::{
    ColumnDefinition, FunctionArgument, FunctionDefinition, ObjectName, SqlType, TableConstraint,
    TableDefinition, TypeDefinition, TypeDefinitionKind, TypeField,
};

verus! {

/// `after` is `before`, with `default` as its schema if it had none.
pub open spec fn name_defaulted(before: ObjectName, after: ObjectName, default: String) -> bool {
    &&& after.name == before.name
    &&& after.schema == match before.schema {
        Some(s) => Some(s),
        None => Some(default),
    }
}

/// `after` is `before`, with the name of a declared type normalized.
pub open spec fn type_defaulted(before: SqlType, after: SqlType, default: String) -> bool {
    match before {
        SqlType::Simple(_) => after == before,
        SqlType::Custom(q) => after matches SqlType::Custom(q2) && name_defaulted(q, q2, default),
    }
}

/// `after` is `before`, with its type normalized.
pub open spec fn column_defaulted(
    before: ColumnDefinition,
    after: ColumnDefinition,
    default: String,
) -> bool {
    &&& after.name == before.name
    &&& type_defaulted(before.sql_type, after.sql_type, default)
    &&& after.not_null == before.not_null
    &&& after.default == before.default
    &&& after.identity == before.identity
}

/// `after` is `before`, with the table that a foreign key refers to
/// normalized.
pub open spec fn constraint_defaulted(
    before: TableConstraint,
    after: TableConstraint,
    default: String,
) -> bool {
    match before {
        TableConstraint::Foreign { name, columns, ref_table, ref_columns, on_delete, on_update } => {
            &&& after matches TableConstraint::Foreign {
                name: name2,
                columns: columns2,
                ref_table: ref_table2,
                ref_columns: ref_columns2,
                on_delete: on_delete2,
                on_update: on_update2,
            }
            &&& name2 == name
            &&& columns2 == columns
            &&& name_defaulted(ref_table, ref_table2, default)
            &&& ref_columns2 == ref_columns
            &&& on_delete2 == on_delete
            &&& on_update2 == on_update
        },
        _ => after == before,
    }
}

/// `after` is `before`, with its own name and the names in its columns and
/// constraints normalized.
pub open spec fn table_defaulted(before: TableDefinition, after: TableDefinition, default: String) -> bool {
    &&& name_defaulted(before.name, after.name, default)
    &&& after.columns.len() == before.columns.len()
    &&& forall|i: int|
        0 <= i < before.columns.len() ==> column_defaulted(
            before.columns[i],
            #[trigger] after.columns[i],
            default,
        )
    &&& after.constraints.len() == before.constraints.len()
    &&& forall|i: int|
        0 <= i < before.constraints.len() ==> constraint_defaulted(
            before.constraints[i],
            #[trigger] after.constraints[i],
            default,
        )
}

/// `after` is `before`, with its type normalized.
pub open spec fn argument_defaulted(
    before: FunctionArgument,
    after: FunctionArgument,
    default: String,
) -> bool {
    &&& after.name == before.name
    &&& type_defaulted(before.sql_type, after.sql_type, default)
}

/// `after` is `before`, with its own name and the types of its arguments
/// and result normalized.
pub open spec fn function_defaulted(
    before: FunctionDefinition,
    after: FunctionDefinition,
    default: String,
) -> bool {
    &&& name_defaulted(before.name, after.name, default)
    &&& after.arguments.len() == before.arguments.len()
    &&& forall|i: int|
        0 <= i < before.arguments.len() ==> argument_defaulted(
            before.arguments[i],
            #[trigger] after.arguments[i],
            default,
        )
    &&& type_defaulted(before.return_type, after.return_type, default)
    &&& after.language == before.language
    &&& after.body == before.body
    &&& after.volatility == before.volatility
}

/// `after` is `before`, with its type normalized.
pub open spec fn field_defaulted(before: TypeField, after: TypeField, default: String) -> bool {
    &&& after.name == before.name
    &&& type_defaulted(before.sql_type, after.sql_type, default)
}

/// `after` is `before`, with the types that it is made of normalized.
pub open spec fn kind_defaulted(
    before: TypeDefinitionKind,
    after: TypeDefinitionKind,
    default: String,
) -> bool {
    match before {
        TypeDefinitionKind::Enum(_) => after == before,
        TypeDefinitionKind::Composite(fields) => {
            &&& after matches TypeDefinitionKind::Composite(fields2)
            &&& fields2.len() == fields.len()
            &&& forall|i: int|
                0 <= i < fields.len() ==> field_defaulted(fields[i], #[trigger] fields2[i], default)
        },
        TypeDefinitionKind::Alias(base) => {
            &&& after matches TypeDefinitionKind::Alias(base2)
            &&& type_defaulted(base, base2, default)
        },
        TypeDefinitionKind::Domain(base, checks) => {
            &&& after matches TypeDefinitionKind::Domain(base2, checks2)
            &&& type_defaulted(base, base2, default)
            &&& checks2 == checks
        },
    }
}

/// `after` is `before`, with its own name and the types that it is made of
/// normalized.
pub open spec fn typedef_defaulted(before: TypeDefinition, after: TypeDefinition, default: String) -> bool {
    &&& name_defaulted(before.name, after.name, default)
    &&& kind_defaulted(before.kind, after.kind, default)
}

/// The type names no declared type, or one with a schema.
pub open spec fn type_qualified(t: SqlType) -> bool {
    t matches SqlType::Custom(q) ==> q.schema is Some
}

/// The table that a foreign key refers to has a schema.
pub open spec fn constraint_qualified(c: TableConstraint) -> bool {
    c matches TableConstraint::Foreign { ref_table, .. } ==> ref_table.schema is Some
}

/// Every name in the table has a schema.
pub open spec fn table_qualified(t: TableDefinition) -> bool {
    &&& t.name.schema is Some
    &&& forall|i: int| 0 <= i < t.columns.len() ==> type_qualified((#[trigger] t.columns[i]).sql_type)
    &&& forall|i: int| 0 <= i < t.constraints.len() ==> constraint_qualified(#[trigger] t.constraints[i])
}

/// Every name in the function has a schema.
pub open spec fn function_qualified(f: FunctionDefinition) -> bool {
    &&& f.name.schema is Some
    &&& forall|i: int| 0 <= i < f.arguments.len() ==> type_qualified((#[trigger] f.arguments[i]).sql_type)
    &&& type_qualified(f.return_type)
}

/// Every name in the declared type has a schema.
pub open spec fn typedef_qualified(t: TypeDefinition) -> bool {
    &&& t.name.schema is Some
    &&& match t.kind {
        TypeDefinitionKind::Enum(_) => true,
        TypeDefinitionKind::Composite(fields) => forall|i: int|
            0 <= i < fields.len() ==> type_qualified((#[trigger] fields[i]).sql_type),
        TypeDefinitionKind::Alias(base) => type_qualified(base),
        TypeDefinitionKind::Domain(base, _) => type_qualified(base),
    }
}

/// Gives `name` the schema `default` if it has none.
pub fn default_name(name: &mut ObjectName, default: &String)
    ensures
        name_defaulted(*old(name), *final(name), *default),
        final(name).schema is Some,
{
    if name.schema.is_none() {
        name.schema = Some(default.clone());
    }
}

/// Normalizes the name of a declared type.
pub fn default_type(t: &mut SqlType, default: &String)
    ensures
        type_defaulted(*old(t), *final(t), *default),
        type_qualified(*final(t)),
{
    match t {
        SqlType::Simple(_) => {},
        SqlType::Custom(q) => {
            default_name(q, default);
        },
    }
}

/// Normalizes the names in a table.
pub fn default_table(table: &mut TableDefinition, default: &String)
    ensures
        table_defaulted(*old(table), *final(table), *default),
        table_qualified(*final(table)),
{
    default_name(&mut table.name, default);
    let mut i: usize = 0;
    while i < table.columns.len()
        invariant
            i <= table.columns.len(),
            name_defaulted(old(table).name, table.name, *default),
            table.name.schema is Some,
            table.constraints == old(table).constraints,
            table.columns.len() == old(table).columns.len(),
            forall|k: int|
                0 <= k < i ==> column_defaulted(old(table).columns[k], #[trigger] table.columns[k], *default),
            forall|k: int| 0 <= k < i ==> type_qualified((#[trigger] table.columns[k]).sql_type),
            forall|k: int| i <= k < table.columns.len() ==> old(table).columns[k] == #[trigger] table.columns[k],
        decreases table.columns.len() - i,
    {
        default_type(&mut table.columns[i].sql_type, default);
        i += 1;
    }
    let mut j: usize = 0;
    while j < table.constraints.len()
        invariant
            j <= table.constraints.len(),
            name_defaulted(old(table).name, table.name, *default),
            table.name.schema is Some,
            table.columns.len() == old(table).columns.len(),
            forall|k: int|
                0 <= k < table.columns.len() ==> column_defaulted(
                    old(table).columns[k],
                    #[trigger] table.columns[k],
                    *default,
                ),
            forall|k: int|
                0 <= k < table.columns.len() ==> type_qualified((#[trigger] table.columns[k]).sql_type),
            table.constraints.len() == old(table).constraints.len(),
            forall|k: int|
                0 <= k < j ==> constraint_defaulted(
                    old(table).constraints[k],
                    #[trigger] table.constraints[k],
                    *default,
                ),
            forall|k: int| 0 <= k < j ==> constraint_qualified(#[trigger] table.constraints[k]),
            forall|k: int|
                j <= k < table.constraints.len() ==> old(table).constraints[k]
                    == #[trigger] table.constraints[k],
        decreases table.constraints.len() - j,
    {
        match &mut table.constraints[j] {
            TableConstraint::Foreign { ref_table, .. } => {
                default_name(ref_table, default);
            },
            _ => {},
        }
        j += 1;
    }
}

/// Normalizes the names in a function.
pub fn default_function(function: &mut FunctionDefinition, default: &String)
    ensures
        function_defaulted(*old(function), *final(function), *default),
        function_qualified(*final(function)),
{
    default_name(&mut function.name, default);
    default_type(&mut function.return_type, default);
    let mut i: usize = 0;
    while i < function.arguments.len()
        invariant
            i <= function.arguments.len(),
            name_defaulted(old(function).name, function.name, *default),
            function.name.schema is Some,
            type_defaulted(old(function).return_type, function.return_type, *default),
            type_qualified(function.return_type),
            function.language == old(function).language,
            function.body == old(function).body,
            function.volatility == old(function).volatility,
            function.arguments.len() == old(function).arguments.len(),
            forall|k: int|
                0 <= k < i ==> argument_defaulted(
                    old(function).arguments[k],
                    #[trigger] function.arguments[k],
                    *default,
                ),
            forall|k: int| 0 <= k < i ==> type_qualified((#[trigger] function.arguments[k]).sql_type),
            forall|k: int|
                i <= k < function.arguments.len() ==> old(function).arguments[k]
                    == #[trigger] function.arguments[k],
        decreases function.arguments.len() - i,
    {
        default_type(&mut function.arguments[i].sql_type, default);
        i += 1;
    }
}

/// Normalizes the names in a declared type.
pub fn default_typedef(def: &mut TypeDefinition, default: &String)
    ensures
        typedef_defaulted(*old(def), *final(def), *default),
        typedef_qualified(*final(def)),
{
    default_name(&mut def.name, default);
    match &mut def.kind {
        TypeDefinitionKind::Enum(_) => {},
        TypeDefinitionKind::Composite(fields) => {
            let ghost before = *fields;
            let mut i: usize = 0;
            while i < fields.len()
                invariant
                    i <= fields.len(),
                    fields.len() == before.len(),
                    forall|k: int| 0 <= k < i ==> field_defaulted(before[k], #[trigger] fields[k], *default),
                    forall|k: int| 0 <= k < i ==> type_qualified((#[trigger] fields[k]).sql_type),
                    forall|k: int| i <= k < fields.len() ==> before[k] == #[trigger] fields[k],
                decreases fields.len() - i,
            {
                default_type(&mut fields[i].sql_type, default);
                i += 1;
            }
        },
        TypeDefinitionKind::Alias(base) => {
            default_type(base, default);
        },
        TypeDefinitionKind::Domain(base, _) => {
            default_type(base, default);
        },
    }
}

/// The name has no schema, or one that is not the empty text.
pub open spec fn name_sound(n: ObjectName) -> bool {
    n.schema matches Some(s) ==> s@.len() > 0
}

/// The type names no declared type, or one whose name is sound.
pub open spec fn type_sound(t: SqlType) -> bool {
    t matches SqlType::Custom(q) ==> name_sound(q)
}

/// The name has a schema that is not the empty text.
pub open spec fn name_full(n: ObjectName) -> bool {
    n.schema matches Some(s) && s@.len() > 0
}

/// The type names no declared type, or one whose name is full.
pub open spec fn type_full(t: SqlType) -> bool {
    t matches SqlType::Custom(q) ==> name_full(q)
}

/// A name that is sound, with a default that is not the empty text, is
/// full.
pub proof fn lemma_name_full(before: ObjectName, after: ObjectName, default: String)
    requires
        name_defaulted(before, after, default),
        name_sound(before),
        default@.len() > 0,
    ensures
        name_full(after),
{
}

/// A type whose name is sound, with a default that is not the empty text,
/// is full.
pub proof fn lemma_type_full(before: SqlType, after: SqlType, default: String)
    requires
        type_defaulted(before, after, default),
        type_sound(before),
        default@.len() > 0,
    ensures
        type_full(after),
{
    match before {
        SqlType::Simple(_) => {},
        SqlType::Custom(q) => {
            lemma_name_full(q, after->Custom_0, default);
        },
    }
}

} // verus!

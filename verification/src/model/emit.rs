//! SQL emission: the statements that carry out a change.

use vstd::prelude::*;
use vstd::string::StringExecFns;
use crate::ast::{
    ColumnDefinition, ForeignConstraintAction, FunctionArgument, FunctionDefinition, Identity,
    IndexParameter, ObjectName, ScriptDefinition, SqlType, TableConstraint, TableDefinition,
    TypeDefinition, TypeDefinitionKind, TypeField, Volatility,
};
use crate::model::delta::{ChangeInstruction, ColumnChange};
use crate::sql::expr::{identifier, push_identifier, push_quoted, quoted};
use crate::text::{decimal, push_decimal, trim_spec, trimmed, chars_of};

verus! {

/// A name in SQL: the schema and the local name as identifiers, with a
/// point between them.
pub open spec fn name_sql(n: ObjectName) -> Seq<char> {
    match n.schema {
        Some(s) => identifier(s@) + "."@ + identifier(n.name@),
        None => identifier(n.name@),
    }
}

/// Appends a name.
pub fn write_name(out: &mut String, n: &ObjectName)
    ensures
        final(out)@ == old(out)@ + name_sql(*n),
{
    match &n.schema {
        Some(s) => {
            push_identifier(out, s.as_str());
            out.append(".");
            push_identifier(out, n.name.as_str());
            proof {
                assert(out@ =~= old(out)@ + name_sql(*n));
            }
        },
        None => {
            push_identifier(out, n.name.as_str());
        },
    }
}

/// A type in SQL: a built-in type as it is written, a declared type by
/// its name.
pub open spec fn type_sql(t: SqlType) -> Seq<char> {
    match t {
        SqlType::Simple(text) => text@,
        SqlType::Custom(n) => name_sql(n),
    }
}

/// Appends a type.
pub fn write_type(out: &mut String, t: &SqlType)
    ensures
        final(out)@ == old(out)@ + type_sql(*t),
{
    match t {
        SqlType::Simple(text) => {
            out.append(text.as_str());
        },
        SqlType::Custom(n) => {
            write_name(out, n);
        },
    }
}

/// Identifiers in a row, with a comma and a blank between each two.
pub open spec fn idents_sql(names: Seq<String>) -> Seq<char>
    decreases names.len(),
{
    if names.len() == 0 {
        Seq::empty()
    } else if names.len() == 1 {
        identifier(names[0]@)
    } else {
        idents_sql(names.drop_last()) + ", "@ + identifier(names.last()@)
    }
}

/// Appends identifiers with a comma and a blank between each two.
pub fn write_idents(out: &mut String, names: &Vec<String>)
    ensures
        final(out)@ == old(out)@ + idents_sql(names@),
{
    let mut i: usize = 0;
    assert(out@ =~= old(out)@ + idents_sql(names@.take(0)));
    while i < names.len()
        invariant
            i <= names.len(),
            out@ == old(out)@ + idents_sql(names@.take(i as int)),
        decreases names.len() - i,
    {
        proof {
            assert(names@.take(i + 1).drop_last() =~= names@.take(i as int));
        }
        if i > 0 {
            out.append(", ");
        }
        push_identifier(out, names[i].as_str());
        proof {
            assert(out@ =~= old(out)@ + idents_sql(names@.take(i + 1)));
        }
        i += 1;
    }
    proof {
        assert(names@.take(i as int) =~= names@);
    }
}

/// How an identity column gets its values, in SQL.
pub open spec fn identity_sql(i: Option<Identity>) -> Seq<char> {
    match i {
        Some(Identity::Always) => " GENERATED ALWAYS AS IDENTITY"@,
        Some(Identity::ByDefault) => " GENERATED BY DEFAULT AS IDENTITY"@,
        None => Seq::empty(),
    }
}

/// A column in SQL: its name, its type, and what it has of `NOT NULL`, a
/// default and an identity.
pub open spec fn column_sql(c: ColumnDefinition) -> Seq<char> {
    identifier(c.name@) + " "@ + type_sql(c.sql_type) + (if c.not_null {
        " NOT NULL"@
    } else {
        Seq::empty()
    }) + (match c.default {
        Some(d) => " DEFAULT "@ + d@,
        None => Seq::empty(),
    }) + identity_sql(c.identity)
}

/// Appends a column.
pub fn write_column(out: &mut String, c: &ColumnDefinition)
    ensures
        final(out)@ == old(out)@ + column_sql(*c),
{
    push_identifier(out, c.name.as_str());
    out.append(" ");
    write_type(out, &c.sql_type);
    if c.not_null {
        out.append(" NOT NULL");
    }
    match &c.default {
        Some(d) => {
            out.append(" DEFAULT ");
            out.append(d.as_str());
        },
        None => {},
    }
    match c.identity {
        Some(Identity::Always) => {
            out.append(" GENERATED ALWAYS AS IDENTITY");
        },
        Some(Identity::ByDefault) => {
            out.append(" GENERATED BY DEFAULT AS IDENTITY");
        },
        None => {},
    }
    proof {
        assert(out@ =~= old(out)@ + column_sql(*c));
    }
}

/// The columns of a table in SQL, one on each line.
pub open spec fn columns_sql(cs: Seq<ColumnDefinition>) -> Seq<char>
    decreases cs.len(),
{
    if cs.len() == 0 {
        Seq::empty()
    } else if cs.len() == 1 {
        "\n  "@ + column_sql(cs[0])
    } else {
        columns_sql(cs.drop_last()) + ",\n  "@ + column_sql(cs.last())
    }
}

/// The statement that creates a table with its columns. Its constraints
/// are added by statements of their own.
pub open spec fn create_table_sql(t: TableDefinition) -> Seq<char> {
    "CREATE TABLE "@ + name_sql(t.name) + " ("@ + columns_sql(t.columns@) + "\n);"@
}

/// Appends the statement that creates a table.
pub fn write_create_table(out: &mut String, t: &TableDefinition)
    ensures
        final(out)@ == old(out)@ + create_table_sql(*t),
{
    out.append("CREATE TABLE ");
    write_name(out, &t.name);
    out.append(" (");
    let ghost head = out@;
    let mut i: usize = 0;
    assert(out@ =~= head + columns_sql(t.columns@.take(0)));
    while i < t.columns.len()
        invariant
            i <= t.columns.len(),
            out@ == head + columns_sql(t.columns@.take(i as int)),
        decreases t.columns.len() - i,
    {
        proof {
            assert(t.columns@.take(i + 1).drop_last() =~= t.columns@.take(i as int));
        }
        if i > 0 {
            out.append(",\n  ");
        } else {
            out.append("\n  ");
        }
        write_column(out, &t.columns[i]);
        proof {
            assert(out@ =~= head + columns_sql(t.columns@.take(i + 1)));
        }
        i += 1;
    }
    proof {
        assert(t.columns@.take(i as int) =~= t.columns@);
    }
    out.append("\n);");
    proof {
        assert(out@ =~= old(out)@ + create_table_sql(*t));
    }
}

/// What is to happen to a referencing row, in SQL.
pub open spec fn action_sql(a: ForeignConstraintAction) -> Seq<char> {
    match a {
        ForeignConstraintAction::NoAction => "NO ACTION"@,
        ForeignConstraintAction::Restrict => "RESTRICT"@,
        ForeignConstraintAction::Cascade => "CASCADE"@,
        ForeignConstraintAction::SetNull => "SET NULL"@,
        ForeignConstraintAction::SetDefault => "SET DEFAULT"@,
    }
}

/// What is to happen to a referencing row, in SQL.
pub fn action_text(a: ForeignConstraintAction) -> (s: &'static str)
    ensures
        s@ == action_sql(a),
{
    match a {
        ForeignConstraintAction::NoAction => "NO ACTION",
        ForeignConstraintAction::Restrict => "RESTRICT",
        ForeignConstraintAction::Cascade => "CASCADE",
        ForeignConstraintAction::SetNull => "SET NULL",
        ForeignConstraintAction::SetDefault => "SET DEFAULT",
    }
}

/// The storage parameters of a primary key, in SQL.
pub open spec fn parameters_sql(p: Option<Vec<IndexParameter>>) -> Seq<char> {
    match p {
        Some(list) => if list.len() > 0 {
            match list[0] {
                IndexParameter::FillFactor(n) => " WITH (FILLFACTOR = "@ + decimal(n as nat) + ")"@,
            }
        } else {
            Seq::empty()
        },
        None => Seq::empty(),
    }
}

/// A primary key in SQL, from its name on.
pub open spec fn primary_sql(name: String, columns: Vec<String>, parameters: Option<Vec<IndexParameter>>) -> Seq<
    char,
> {
    identifier(name@) + " PRIMARY KEY ("@ + idents_sql(columns@) + ")"@ + parameters_sql(parameters)
}

/// The columns that a foreign key refers to, in SQL; nothing where it
/// names none.
pub open spec fn ref_columns_sql(ref_columns: Vec<String>) -> Seq<char> {
    if ref_columns.len() > 0 {
        " ("@ + idents_sql(ref_columns@) + ")"@
    } else {
        Seq::empty()
    }
}

/// What is to happen to the rows of a foreign key, in SQL.
pub open spec fn actions_sql(on_delete: Option<ForeignConstraintAction>, on_update: Option<ForeignConstraintAction>) -> Seq<
    char,
> {
    (match on_delete {
        Some(a) => " ON DELETE "@ + action_sql(a),
        None => Seq::empty(),
    }) + (match on_update {
        Some(a) => " ON UPDATE "@ + action_sql(a),
        None => Seq::empty(),
    })
}

/// A foreign key in SQL, from its name on.
pub open spec fn foreign_sql(
    name: String,
    columns: Vec<String>,
    ref_table: ObjectName,
    ref_columns: Vec<String>,
    on_delete: Option<ForeignConstraintAction>,
    on_update: Option<ForeignConstraintAction>,
) -> Seq<char> {
    identifier(name@) + " FOREIGN KEY ("@ + idents_sql(columns@) + ") REFERENCES "@ + name_sql(ref_table)
        + ref_columns_sql(ref_columns) + actions_sql(on_delete, on_update)
}

/// A constraint in SQL, from its name on.
pub open spec fn constraint_sql(c: TableConstraint) -> Seq<char> {
    match c {
        TableConstraint::Primary { name, columns, parameters } => primary_sql(name, columns, parameters),
        TableConstraint::Foreign { name, columns, ref_table, ref_columns, on_delete, on_update } => {
            foreign_sql(name, columns, ref_table, ref_columns, on_delete, on_update)
        },
        TableConstraint::Unique { name, columns } => identifier(name@) + " UNIQUE ("@ + idents_sql(
            columns@,
        ) + ")"@,
        TableConstraint::Check { name, expression } => identifier(name@) + " CHECK ("@ + expression@
            + ")"@,
    }
}

/// Appends the storage parameters of a primary key.
fn write_parameters(out: &mut String, parameters: &Option<Vec<IndexParameter>>)
    ensures
        final(out)@ == old(out)@ + parameters_sql(*parameters),
{
    match parameters {
        Some(list) => {
            if list.len() > 0 {
                match list[0] {
                    IndexParameter::FillFactor(n) => {
                        out.append(" WITH (FILLFACTOR = ");
                        push_decimal(out, n as usize);
                        out.append(")");
                        proof {
                            assert(out@ =~= old(out)@ + parameters_sql(*parameters));
                        }
                    },
                }
            } else {
                proof {
                    assert(out@ =~= old(out)@ + parameters_sql(*parameters));
                }
            }
        },
        None => {
            proof {
                assert(out@ =~= old(out)@ + parameters_sql(*parameters));
            }
        },
    }
}

/// Appends what is to happen to the rows of a foreign key.
fn write_actions(out: &mut String, on_delete: &Option<ForeignConstraintAction>, on_update: &Option<ForeignConstraintAction>)
    ensures
        final(out)@ == old(out)@ + actions_sql(*on_delete, *on_update),
{
    match on_delete {
        Some(a) => {
            out.append(" ON DELETE ");
            out.append(action_text(*a));
        },
        None => {},
    }
    match on_update {
        Some(a) => {
            out.append(" ON UPDATE ");
            out.append(action_text(*a));
        },
        None => {},
    }
    proof {
        assert(out@ =~= old(out)@ + actions_sql(*on_delete, *on_update));
    }
}

/// Appends the columns that a foreign key refers to.
fn write_ref_columns(out: &mut String, ref_columns: &Vec<String>)
    ensures
        final(out)@ == old(out)@ + ref_columns_sql(*ref_columns),
{
    if ref_columns.len() > 0 {
        out.append(" (");
        write_idents(out, ref_columns);
        out.append(")");
    }
    proof {
        assert(out@ =~= old(out)@ + ref_columns_sql(*ref_columns));
    }
}

/// Appends a constraint, from its name on.
pub fn write_constraint(out: &mut String, c: &TableConstraint)
    ensures
        final(out)@ == old(out)@ + constraint_sql(*c),
{
    match c {
        TableConstraint::Primary { name, columns, parameters } => {
            push_identifier(out, name.as_str());
            out.append(" PRIMARY KEY (");
            write_idents(out, columns);
            out.append(")");
            write_parameters(out, parameters);
            proof {
                assert(out@ =~= old(out)@ + primary_sql(*name, *columns, *parameters));
            }
        },
        TableConstraint::Foreign { name, columns, ref_table, ref_columns, on_delete, on_update } => {
            push_identifier(out, name.as_str());
            out.append(" FOREIGN KEY (");
            write_idents(out, columns);
            out.append(") REFERENCES ");
            write_name(out, ref_table);
            write_ref_columns(out, ref_columns);
            write_actions(out, on_delete, on_update);
            proof {
                assert(out@ =~= old(out)@ + foreign_sql(
                    *name,
                    *columns,
                    *ref_table,
                    *ref_columns,
                    *on_delete,
                    *on_update,
                ));
            }
        },
        TableConstraint::Unique { name, columns } => {
            push_identifier(out, name.as_str());
            out.append(" UNIQUE (");
            write_idents(out, columns);
            out.append(")");
            proof {
                assert(out@ =~= old(out)@ + constraint_sql(*c));
            }
        },
        TableConstraint::Check { name, expression } => {
            push_identifier(out, name.as_str());
            out.append(" CHECK (");
            out.append(expression.as_str());
            out.append(")");
            proof {
                assert(out@ =~= old(out)@ + constraint_sql(*c));
            }
        },
    }
}

/// Strings as literals in a row, with a comma and a blank between each
/// two.
pub open spec fn literals_sql(values: Seq<String>) -> Seq<char>
    decreases values.len(),
{
    if values.len() == 0 {
        Seq::empty()
    } else if values.len() == 1 {
        quoted(values[0]@)
    } else {
        literals_sql(values.drop_last()) + ", "@ + quoted(values.last()@)
    }
}

/// Names with their types in a row, with a comma and a blank between each
/// two.
pub open spec fn fields_sql(fields: Seq<(String, SqlType)>) -> Seq<char>
    decreases fields.len(),
{
    if fields.len() == 0 {
        Seq::empty()
    } else if fields.len() == 1 {
        identifier(fields[0].0@) + " "@ + type_sql(fields[0].1)
    } else {
        fields_sql(fields.drop_last()) + ", "@ + identifier(fields.last().0@) + " "@ + type_sql(
            fields.last().1,
        )
    }
}

/// The fields of a composite type as names with their types.
pub open spec fn field_pairs(fields: Seq<TypeField>) -> Seq<(String, SqlType)> {
    fields.map_values(|f: TypeField| (f.name, f.sql_type))
}

/// The arguments of a function as names with their types.
pub open spec fn argument_pairs(arguments: Seq<FunctionArgument>) -> Seq<(String, SqlType)> {
    arguments.map_values(|a: FunctionArgument| (a.name, a.sql_type))
}

/// The checks of a domain in SQL.
pub open spec fn checks_sql(checks: Seq<String>) -> Seq<char>
    decreases checks.len(),
{
    if checks.len() == 0 {
        Seq::empty()
    } else {
        checks_sql(checks.drop_last()) + " CHECK ("@ + checks.last()@ + ")"@
    }
}

/// The statement that creates a declared type.
pub open spec fn create_type_sql(t: TypeDefinition) -> Seq<char> {
    match t.kind {
        TypeDefinitionKind::Enum(values) => "CREATE TYPE "@ + name_sql(t.name) + " AS ENUM ("@
            + literals_sql(values@) + ");"@,
        TypeDefinitionKind::Composite(fields) => "CREATE TYPE "@ + name_sql(t.name) + " AS ("@
            + fields_sql(field_pairs(fields@)) + ");"@,
        TypeDefinitionKind::Alias(base) => "CREATE TYPE "@ + name_sql(t.name) + " AS "@ + type_sql(base)
            + ";"@,
        TypeDefinitionKind::Domain(base, checks) => "CREATE DOMAIN "@ + name_sql(t.name) + " AS "@
            + type_sql(base) + checks_sql(checks@) + ";"@,
    }
}

/// The statement that drops a declared type.
pub open spec fn drop_type_sql(n: ObjectName) -> Seq<char> {
    "DROP TYPE "@ + name_sql(n) + ";"@
}

/// Appends the statement that creates a declared type.
pub fn write_create_type(out: &mut String, t: &TypeDefinition)
    ensures
        final(out)@ == old(out)@ + create_type_sql(*t),
{
    match &t.kind {
        TypeDefinitionKind::Enum(values) => {
            out.append("CREATE TYPE ");
            write_name(out, &t.name);
            out.append(" AS ENUM (");
            let ghost head = out@;
            let mut i: usize = 0;
            assert(out@ =~= head + literals_sql(values@.take(0)));
            while i < values.len()
                invariant
                    i <= values.len(),
                    out@ == head + literals_sql(values@.take(i as int)),
                decreases values.len() - i,
            {
                proof {
                    assert(values@.take(i + 1).drop_last() =~= values@.take(i as int));
                }
                if i > 0 {
                    out.append(", ");
                }
                push_quoted(out, values[i].as_str());
                proof {
                    assert(out@ =~= head + literals_sql(values@.take(i + 1)));
                }
                i += 1;
            }
            proof {
                assert(values@.take(i as int) =~= values@);
            }
            out.append(");");
        },
        TypeDefinitionKind::Composite(fields) => {
            out.append("CREATE TYPE ");
            write_name(out, &t.name);
            out.append(" AS (");
            let ghost head = out@;
            let ghost pairs = field_pairs(fields@);
            let mut i: usize = 0;
            assert(out@ =~= head + fields_sql(pairs.take(0)));
            while i < fields.len()
                invariant
                    i <= fields.len(),
                    pairs == field_pairs(fields@),
                    out@ == head + fields_sql(pairs.take(i as int)),
                decreases fields.len() - i,
            {
                proof {
                    assert(pairs.take(i + 1).drop_last() =~= pairs.take(i as int));
                }
                if i > 0 {
                    out.append(", ");
                }
                push_identifier(out, fields[i].name.as_str());
                out.append(" ");
                write_type(out, &fields[i].sql_type);
                proof {
                    assert(out@ =~= head + fields_sql(pairs.take(i + 1)));
                }
                i += 1;
            }
            proof {
                assert(pairs.take(i as int) =~= pairs);
            }
            out.append(");");
        },
        TypeDefinitionKind::Alias(base) => {
            out.append("CREATE TYPE ");
            write_name(out, &t.name);
            out.append(" AS ");
            write_type(out, base);
            out.append(";");
        },
        TypeDefinitionKind::Domain(base, checks) => {
            out.append("CREATE DOMAIN ");
            write_name(out, &t.name);
            out.append(" AS ");
            write_type(out, base);
            let ghost head = out@;
            let mut i: usize = 0;
            assert(out@ =~= head + checks_sql(checks@.take(0)));
            while i < checks.len()
                invariant
                    i <= checks.len(),
                    out@ == head + checks_sql(checks@.take(i as int)),
                decreases checks.len() - i,
            {
                proof {
                    assert(checks@.take(i + 1).drop_last() =~= checks@.take(i as int));
                }
                out.append(" CHECK (");
                out.append(checks[i].as_str());
                out.append(")");
                proof {
                    assert(out@ =~= head + checks_sql(checks@.take(i + 1)));
                }
                i += 1;
            }
            proof {
                assert(checks@.take(i as int) =~= checks@);
            }
            out.append(";");
        },
    }
    proof {
        assert(out@ =~= old(out)@ + create_type_sql(*t));
    }
}

/// How far the result of a function may be assumed to stay the same, in
/// SQL.
pub open spec fn volatility_sql(v: Option<Volatility>) -> Seq<char> {
    match v {
        Some(Volatility::Immutable) => " IMMUTABLE"@,
        Some(Volatility::Stable) => " STABLE"@,
        Some(Volatility::Volatile) => " VOLATILE"@,
        None => Seq::empty(),
    }
}

/// The statement that creates or replaces a function.
pub open spec fn function_sql(f: FunctionDefinition) -> Seq<char> {
    "CREATE OR REPLACE FUNCTION "@ + name_sql(f.name) + "("@ + fields_sql(argument_pairs(f.arguments@))
        + ") RETURNS "@ + type_sql(f.return_type) + " AS "@ + quoted(f.body@) + " LANGUAGE "@
        + identifier(f.language@) + volatility_sql(f.volatility) + ";"@
}

/// The types in a row, with a comma and a blank between each two.
pub open spec fn types_sql(types: Seq<SqlType>) -> Seq<char>
    decreases types.len(),
{
    if types.len() == 0 {
        Seq::empty()
    } else if types.len() == 1 {
        type_sql(types[0])
    } else {
        types_sql(types.drop_last()) + ", "@ + type_sql(types.last())
    }
}

/// The statement that drops a function, which names it by the types of its
/// arguments.
pub open spec fn drop_function_sql(f: FunctionDefinition) -> Seq<char> {
    "DROP FUNCTION "@ + name_sql(f.name) + "("@ + types_sql(
        f.arguments@.map_values(|a: FunctionArgument| a.sql_type),
    ) + ");"@
}

/// Appends the statement that creates or replaces a function.
pub fn write_function(out: &mut String, f: &FunctionDefinition)
    ensures
        final(out)@ == old(out)@ + function_sql(*f),
{
    out.append("CREATE OR REPLACE FUNCTION ");
    write_name(out, &f.name);
    out.append("(");
    let ghost head = out@;
    let ghost pairs = argument_pairs(f.arguments@);
    let mut i: usize = 0;
    assert(out@ =~= head + fields_sql(pairs.take(0)));
    while i < f.arguments.len()
        invariant
            i <= f.arguments.len(),
            pairs == argument_pairs(f.arguments@),
            out@ == head + fields_sql(pairs.take(i as int)),
        decreases f.arguments.len() - i,
    {
        proof {
            assert(pairs.take(i + 1).drop_last() =~= pairs.take(i as int));
        }
        if i > 0 {
            out.append(", ");
        }
        push_identifier(out, f.arguments[i].name.as_str());
        out.append(" ");
        write_type(out, &f.arguments[i].sql_type);
        proof {
            assert(out@ =~= head + fields_sql(pairs.take(i + 1)));
        }
        i += 1;
    }
    proof {
        assert(pairs.take(i as int) =~= pairs);
    }
    out.append(") RETURNS ");
    write_type(out, &f.return_type);
    out.append(" AS ");
    push_quoted(out, f.body.as_str());
    out.append(" LANGUAGE ");
    push_identifier(out, f.language.as_str());
    match f.volatility {
        Some(Volatility::Immutable) => {
            out.append(" IMMUTABLE");
        },
        Some(Volatility::Stable) => {
            out.append(" STABLE");
        },
        Some(Volatility::Volatile) => {
            out.append(" VOLATILE");
        },
        None => {},
    }
    out.append(";");
    proof {
        assert(out@ =~= old(out)@ + function_sql(*f));
    }
}

/// Appends the statement that drops a function.
pub fn write_drop_function(out: &mut String, f: &FunctionDefinition)
    ensures
        final(out)@ == old(out)@ + drop_function_sql(*f),
{
    out.append("DROP FUNCTION ");
    write_name(out, &f.name);
    out.append("(");
    let ghost head = out@;
    let ghost types = f.arguments@.map_values(|a: FunctionArgument| a.sql_type);
    let mut i: usize = 0;
    assert(out@ =~= head + types_sql(types.take(0)));
    while i < f.arguments.len()
        invariant
            i <= f.arguments.len(),
            types == f.arguments@.map_values(|a: FunctionArgument| a.sql_type),
            out@ == head + types_sql(types.take(i as int)),
        decreases f.arguments.len() - i,
    {
        proof {
            assert(types.take(i + 1).drop_last() =~= types.take(i as int));
        }
        if i > 0 {
            out.append(", ");
        }
        write_type(out, &f.arguments[i].sql_type);
        proof {
            assert(out@ =~= head + types_sql(types.take(i + 1)));
        }
        i += 1;
    }
    proof {
        assert(types.take(i as int) =~= types);
    }
    out.append(");");
    proof {
        assert(out@ =~= old(out)@ + drop_function_sql(*f));
    }
}

/// The text of a script as it is run: as it stands, with a semicolon
/// behind it unless what it holds beside white space ends in one.
pub open spec fn script_sql(s: ScriptDefinition) -> Seq<char> {
    let t = trim_spec(s.body@);
    if t.len() > 0 && t.last() == ';' {
        s.body@
    } else {
        s.body@ + ";"@
    }
}

/// The statement that changes one thing about a column.
pub open spec fn alter_column_sql(table: ObjectName, c: ColumnDefinition, change: ColumnChange) -> Seq<char> {
    "ALTER TABLE "@ + name_sql(table) + " ALTER COLUMN "@ + identifier(c.name@) + (match change {
        ColumnChange::Type => " TYPE "@ + type_sql(c.sql_type),
        ColumnChange::Nullability => if c.not_null {
            " SET NOT NULL"@
        } else {
            " DROP NOT NULL"@
        },
        ColumnChange::Default => match c.default {
            Some(d) => " SET DEFAULT "@ + d@,
            None => " DROP DEFAULT"@,
        },
    }) + ";"@
}

/// The SQL that carries out the change: one statement, or two where a
/// declared type is altered, which is done by dropping and creating it.
/// Each statement ends with a semicolon.
pub open spec fn instruction_sql(c: ChangeInstruction) -> Seq<char> {
    match c {
        ChangeInstruction::RunScript(s) => script_sql(*s),
        ChangeInstruction::EnableExtension(e) => "CREATE EXTENSION IF NOT EXISTS "@ + identifier(e.name@)
            + ";"@,
        ChangeInstruction::CreateSchema(s) => "CREATE SCHEMA "@ + identifier(s.name@) + ";"@,
        ChangeInstruction::CreateType(t) => create_type_sql(*t),
        ChangeInstruction::AlterType(t) => drop_type_sql(t.name) + "\n"@ + create_type_sql(*t),
        ChangeInstruction::DropType(n) => drop_type_sql(*n),
        ChangeInstruction::CreateTable(t) => create_table_sql(*t),
        ChangeInstruction::DropTable(n) => "DROP TABLE "@ + name_sql(*n) + ";"@,
        ChangeInstruction::AddColumn(table, c) => "ALTER TABLE "@ + name_sql(*table) + " ADD COLUMN "@
            + column_sql(*c) + ";"@,
        ChangeInstruction::AlterColumn(table, c, change) => alter_column_sql(*table, *c, change),
        ChangeInstruction::DropColumn(table, name) => "ALTER TABLE "@ + name_sql(*table)
            + " DROP COLUMN "@ + identifier(name@) + ";"@,
        ChangeInstruction::AddConstraint(table, c) => "ALTER TABLE "@ + name_sql(*table)
            + " ADD CONSTRAINT "@ + constraint_sql(*c) + ";"@,
        ChangeInstruction::DropConstraint(table, name) => "ALTER TABLE "@ + name_sql(*table)
            + " DROP CONSTRAINT "@ + identifier(name@) + ";"@,
        ChangeInstruction::CreateOrReplaceFunction(f) => function_sql(*f),
        ChangeInstruction::DropFunction(f) => drop_function_sql(*f),
    }
}

impl<'a> ChangeInstruction<'a> {
    /// Appends the SQL that carries out the change.
    pub fn write_sql(&self, out: &mut String)
        ensures
            final(out)@ == old(out)@ + instruction_sql(*self),
    {
        match self {
            ChangeInstruction::RunScript(s) => {
                out.append(s.body.as_str());
                let t = trimmed(&chars_of(s.body.as_str()));
                if !(t.len() > 0 && t[t.len() - 1] == ';') {
                    out.append(";");
                }
            },
            ChangeInstruction::EnableExtension(e) => {
                out.append("CREATE EXTENSION IF NOT EXISTS ");
                push_identifier(out, e.name.as_str());
                out.append(";");
            },
            ChangeInstruction::CreateSchema(s) => {
                out.append("CREATE SCHEMA ");
                push_identifier(out, s.name.as_str());
                out.append(";");
            },
            ChangeInstruction::CreateType(t) => {
                write_create_type(out, t);
            },
            ChangeInstruction::AlterType(t) => {
                out.append("DROP TYPE ");
                write_name(out, &t.name);
                out.append(";");
                out.append("\n");
                write_create_type(out, t);
            },
            ChangeInstruction::DropType(n) => {
                out.append("DROP TYPE ");
                write_name(out, n);
                out.append(";");
            },
            ChangeInstruction::CreateTable(t) => {
                write_create_table(out, t);
            },
            ChangeInstruction::DropTable(n) => {
                out.append("DROP TABLE ");
                write_name(out, n);
                out.append(";");
            },
            ChangeInstruction::AddColumn(table, c) => {
                out.append("ALTER TABLE ");
                write_name(out, table);
                out.append(" ADD COLUMN ");
                write_column(out, c);
                out.append(";");
            },
            ChangeInstruction::AlterColumn(table, c, change) => {
                out.append("ALTER TABLE ");
                write_name(out, table);
                out.append(" ALTER COLUMN ");
                push_identifier(out, c.name.as_str());
                match change {
                    ColumnChange::Type => {
                        out.append(" TYPE ");
                        write_type(out, &c.sql_type);
                    },
                    ColumnChange::Nullability => {
                        if c.not_null {
                            out.append(" SET NOT NULL");
                        } else {
                            out.append(" DROP NOT NULL");
                        }
                    },
                    ColumnChange::Default => match &c.default {
                        Some(d) => {
                            out.append(" SET DEFAULT ");
                            out.append(d.as_str());
                        },
                        None => {
                            out.append(" DROP DEFAULT");
                        },
                    },
                }
                out.append(";");
            },
            ChangeInstruction::DropColumn(table, name) => {
                out.append("ALTER TABLE ");
                write_name(out, table);
                out.append(" DROP COLUMN ");
                push_identifier(out, name.as_str());
                out.append(";");
            },
            ChangeInstruction::AddConstraint(table, c) => {
                out.append("ALTER TABLE ");
                write_name(out, table);
                out.append(" ADD CONSTRAINT ");
                write_constraint(out, c);
                out.append(";");
            },
            ChangeInstruction::DropConstraint(table, name) => {
                out.append("ALTER TABLE ");
                write_name(out, table);
                out.append(" DROP CONSTRAINT ");
                push_identifier(out, name.as_str());
                out.append(";");
            },
            ChangeInstruction::CreateOrReplaceFunction(f) => {
                write_function(out, f);
            },
            ChangeInstruction::DropFunction(f) => {
                write_drop_function(out, f);
            },
        }
        proof {
            assert(out@ =~= old(out)@ + instruction_sql(*self));
        }
    }

    /// The SQL that carries out the change.
    pub fn to_sql(&self) -> (s: String)
        ensures
            s@ == instruction_sql(*self),
    {
        let mut s = String::new();
        self.write_sql(&mut s);
        proof {
            assert(Seq::<char>::empty() + instruction_sql(*self) =~= instruction_sql(*self));
        }
        s
    }
}

/// The SQL of a plan: that of each change, one behind the other with
/// nothing between them.
pub open spec fn plan_sql(changes: Seq<ChangeInstruction>) -> Seq<char>
    decreases changes.len(),
{
    if changes.len() == 0 {
        Seq::empty()
    } else {
        plan_sql(changes.drop_last()) + instruction_sql(changes.last())
    }
}

/// The SQL of a plan: what [`ChangeInstruction::to_sql`] gives for each
/// change, in the order of the plan.
pub fn changes_sql(changes: &Vec<ChangeInstruction>) -> (s: String)
    ensures
        s@ == plan_sql(changes@),
{
    let mut s = String::new();
    let mut i: usize = 0;
    assert(s@ =~= plan_sql(changes@.take(0)));
    while i < changes.len()
        invariant
            i <= changes.len(),
            s@ == plan_sql(changes@.take(i as int)),
        decreases changes.len() - i,
    {
        proof {
            assert(changes@.take(i + 1).drop_last() =~= changes@.take(i as int));
        }
        changes[i].write_sql(&mut s);
        i += 1;
    }
    proof {
        assert(changes@.take(i as int) =~= changes@);
    }
    s
}

} // verus!

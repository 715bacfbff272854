//! The snapshot of a live database: the rows that its catalog gives,
//! read into a package without an order.

use vstd::prelude::*;
use crate::ast::{
    ColumnDefinition, ColumnView, ConstraintView, ExtensionDefinition, ForeignConstraintAction,
    FunctionDefinition, FunctionView, KindView, NameView, ObjectName, SchemaDefinition,
    TableConstraint, TableDefinition, TableView, TypeDefinition, TypeDefinitionKind,
    TypeDefinitionView, Volatility,
};
use crate::errors::PsqlpackError;
use crate::model::inspect::{
    described_arguments, described_type, parse_function_arguments, parse_return_type,
};
use crate::model::lookup::{
    extension_names, find_table, is_first_name, lemma_first_name, schema_names, table_names,
};
use crate::model::package::Package;
use crate::text::{char_views, chars_of, collect, split, split_spec, views};

verus! {

/// The text of the cell `i` of a row: empty where the row has no such cell
/// or holds nothing there.
pub open spec fn cell_text(row: Vec<Option<String>>, i: int) -> Seq<char> {
    if 0 <= i < row.len() {
        match row[i] {
            Some(s) => s@,
            None => Seq::empty(),
        }
    } else {
        Seq::empty()
    }
}

/// The name whose schema is the cell `i` of a row and whose local name is
/// the cell behind it.
pub open spec fn cell_name(row: Vec<Option<String>>, i: int) -> NameView {
    NameView { schema: Some(cell_text(row, i)), name: cell_text(row, i + 1) }
}

/// The text of the cell `i` of a row.
pub fn cell(row: &Vec<Option<String>>, i: usize) -> (r: String)
    ensures
        r@ == cell_text(*row, i as int),
{
    if i < row.len() {
        match &row[i] {
            Some(s) => s.clone(),
            None => String::new(),
        }
    } else {
        String::new()
    }
}

/// The name that the cells `i` and `i + 1` of a row give.
pub fn name_in(row: &Vec<Option<String>>, i: usize) -> (r: ObjectName)
    requires
        i < usize::MAX,
    ensures
        r@ == cell_name(*row, i as int),
{
    ObjectName { schema: Some(cell(row, i)), name: cell(row, i + 1) }
}

/// The first cell of each row.
pub open spec fn first_cells(rows: Seq<Vec<Option<String>>>) -> Seq<Seq<char>> {
    rows.map_values(|r: Vec<Option<String>>| cell_text(r, 0))
}

/// The extensions that the rows name, one for each row.
pub fn read_extensions(rows: &Vec<Vec<Option<String>>>) -> (r: Vec<ExtensionDefinition>)
    ensures
        extension_names(r@) == first_cells(rows@),
{
    let mut out: Vec<ExtensionDefinition> = Vec::new();
    let mut k: usize = 0;
    while k < rows.len()
        invariant
            k <= rows.len(),
            out.len() == k,
            forall|j: int| 0 <= j < k ==> (#[trigger] out[j]).name@ == cell_text(rows[j], 0),
        decreases rows.len() - k,
    {
        out.push(ExtensionDefinition { name: cell(&rows[k], 0) });
        k += 1;
    }
    proof {
        assert(extension_names(out@) =~= first_cells(rows@));
    }
    out
}

/// The schemas that the rows name, one for each row.
pub fn read_schemas(rows: &Vec<Vec<Option<String>>>) -> (r: Vec<SchemaDefinition>)
    ensures
        schema_names(r@) == first_cells(rows@),
{
    let mut out: Vec<SchemaDefinition> = Vec::new();
    let mut k: usize = 0;
    while k < rows.len()
        invariant
            k <= rows.len(),
            out.len() == k,
            forall|j: int| 0 <= j < k ==> (#[trigger] out[j]).name@ == cell_text(rows[j], 0),
        decreases rows.len() - k,
    {
        out.push(SchemaDefinition { name: cell(&rows[k], 0) });
        k += 1;
    }
    proof {
        assert(schema_names(out@) =~= first_cells(rows@));
    }
    out
}

/// The enumerations `types` with one more label of the enumeration `name`:
/// added to the last of them if that has this name, else as the first
/// label of a new enumeration behind them.
pub open spec fn with_label(types: Seq<TypeDefinitionView>, name: NameView, label: Seq<char>) -> Seq<
    TypeDefinitionView,
> {
    if types.len() > 0 && types.last().name == name && types.last().kind is Enum {
        types.drop_last().push(
            TypeDefinitionView { name, kind: KindView::Enum(types.last().kind->Enum_0.push(label)) },
        )
    } else {
        types.push(TypeDefinitionView { name, kind: KindView::Enum(seq![label]) })
    }
}

/// The enumerations that the rows list. A row holds the schema and the
/// name of an enumeration and one of its labels; the rows of one
/// enumeration follow each other, its labels in their order.
pub open spec fn enums_read(rows: Seq<Vec<Option<String>>>) -> Seq<TypeDefinitionView>
    decreases rows.len(),
{
    if rows.len() == 0 {
        Seq::empty()
    } else {
        with_label(enums_read(rows.drop_last()), cell_name(rows.last(), 0), cell_text(rows.last(), 2))
    }
}

/// The views of a list of declared types.
pub open spec fn type_views(types: Seq<TypeDefinition>) -> Seq<TypeDefinitionView> {
    types.map_values(|t: TypeDefinition| t@)
}

/// Adds a label of the enumeration `name` to the enumerations `types`.
pub fn push_label(types: &mut Vec<TypeDefinition>, name: ObjectName, label: String)
    ensures
        type_views(final(types)@) == with_label(type_views(old(types)@), name@, label@),
{
    let ghost before = type_views(types@);
    let n = types.len();
    if n > 0 && types[n - 1].name.same_as(&name) {
        let last = types.pop().unwrap();
        proof {
            assert(last@ == before.last());
            assert(last.name@ == name@);
            assert(type_views(types@) =~= before.drop_last());
        }
        match last.kind {
            TypeDefinitionKind::Enum(values) => {
                let mut values = values;
                let ghost labels = views(values@);
                values.push(label);
                proof {
                    assert(views(values@) =~= labels.push(label@));
                }
                types.push(TypeDefinition { name, kind: TypeDefinitionKind::Enum(values) });
                proof {
                    assert(type_views(types@) =~= with_label(before, name@, label@));
                }
            },
            kind => {
                types.push(TypeDefinition { name: last.name, kind });
                proof {
                    assert(type_views(types@) =~= before);
                }
                let mut values: Vec<String> = Vec::new();
                values.push(label);
                proof {
                    assert(views(values@) =~= seq![label@]);
                }
                types.push(TypeDefinition { name, kind: TypeDefinitionKind::Enum(values) });
                proof {
                    assert(type_views(types@) =~= with_label(before, name@, label@));
                }
            },
        }
    } else {
        proof {
            if n > 0 {
                assert(before.last() == types[n - 1]@);
            }
        }
        let mut values: Vec<String> = Vec::new();
        values.push(label);
        proof {
            assert(views(values@) =~= seq![label@]);
        }
        types.push(TypeDefinition { name, kind: TypeDefinitionKind::Enum(values) });
        proof {
            assert(type_views(types@) =~= with_label(before, name@, label@));
        }
    }
}

/// The enumerations that the rows list.
pub fn read_enums(rows: &Vec<Vec<Option<String>>>) -> (r: Vec<TypeDefinition>)
    ensures
        type_views(r@) == enums_read(rows@),
{
    let mut out: Vec<TypeDefinition> = Vec::new();
    let mut k: usize = 0;
    proof {
        assert(type_views(out@) =~= enums_read(rows@.take(0)));
    }
    while k < rows.len()
        invariant
            k <= rows.len(),
            type_views(out@) == enums_read(rows@.take(k as int)),
        decreases rows.len() - k,
    {
        proof {
            assert(rows@.take(k + 1).drop_last() =~= rows@.take(k as int));
        }
        push_label(&mut out, name_in(&rows[k], 0), cell(&rows[k], 2));
        k += 1;
    }
    proof {
        assert(rows@.take(k as int) =~= rows@);
    }
    out
}

/// Whether `text` is the one character `c`.
pub fn is_code(text: &String, c: char) -> (r: bool)
    ensures
        r == (text@ == seq![c]),
{
    let cs = chars_of(text.as_str());
    let r = cs.len() == 1 && cs[0] == c;
    proof {
        if r {
            assert(text@ =~= seq![c]);
        } else if text@ == seq![c] {
            assert(seq![c].len() == 1);
            assert(seq![c][0] == c);
        }
    }
    r
}

/// What the catalog's code for the volatility of a function stands for.
pub open spec fn volatility_read(code: Seq<char>) -> Option<Volatility> {
    if code == seq!['i'] {
        Some(Volatility::Immutable)
    } else if code == seq!['s'] {
        Some(Volatility::Stable)
    } else if code == seq!['v'] {
        Some(Volatility::Volatile)
    } else {
        None
    }
}

/// What the catalog's code for the volatility of a function stands for.
pub fn volatility_of(code: &String) -> (r: Option<Volatility>)
    ensures
        r == volatility_read(code@),
{
    if is_code(code, 'i') {
        Some(Volatility::Immutable)
    } else if is_code(code, 's') {
        Some(Volatility::Stable)
    } else if is_code(code, 'v') {
        Some(Volatility::Volatile)
    } else {
        None
    }
}

/// Why the rows of a catalog could not be read.
pub enum ReadFault {
    /// The arguments of a function, described so, could not be read.
    Arguments(Seq<char>),
    /// The result type of a function, described so, could not be read.
    ReturnType(Seq<char>),
    /// The type of a column could not be read.
    ColumnType,
}

/// The error `e` tells of the fault.
pub open spec fn tells(e: PsqlpackError, fault: ReadFault) -> bool {
    match fault {
        ReadFault::Arguments(text) => e matches PsqlpackError::PackageFunctionArgsInspectError(t) && t@ == text,
        ReadFault::ReturnType(text) => e matches PsqlpackError::PackageFunctionReturnTypeInspectError(t) && t@
            == text,
        ReadFault::ColumnType => e is PackageQueryTablesError,
    }
}

/// The function that a row describes. Its cells are the schema, the name,
/// the arguments, the result type, the language, the body and the code of
/// the volatility.
pub open spec fn function_read(row: Vec<Option<String>>) -> Result<FunctionView, ReadFault> {
    match described_arguments(cell_text(row, 2)) {
        None => Err(ReadFault::Arguments(cell_text(row, 2))),
        Some(arguments) => match described_type(cell_text(row, 3)) {
            None => Err(ReadFault::ReturnType(cell_text(row, 3))),
            Some(return_type) => Ok(
                FunctionView {
                    name: cell_name(row, 0),
                    arguments,
                    return_type,
                    language: cell_text(row, 4),
                    body: cell_text(row, 5),
                    volatility: volatility_read(cell_text(row, 6)),
                },
            ),
        },
    }
}

/// The functions that the rows describe, or the fault of the first row
/// that cannot be read.
pub open spec fn functions_read(rows: Seq<Vec<Option<String>>>) -> Result<Seq<FunctionView>, ReadFault>
    decreases rows.len(),
{
    if rows.len() == 0 {
        Ok(Seq::empty())
    } else {
        match functions_read(rows.drop_last()) {
            Err(fault) => Err(fault),
            Ok(functions) => match function_read(rows.last()) {
                Err(fault) => Err(fault),
                Ok(f) => Ok(functions.push(f)),
            },
        }
    }
}

/// A fault among the first `k` rows is the fault of all the rows.
proof fn lemma_function_fault(rows: Seq<Vec<Option<String>>>, k: int)
    requires
        0 <= k <= rows.len(),
        functions_read(rows.take(k)) is Err,
    ensures
        functions_read(rows) == functions_read(rows.take(k)),
    decreases rows.len() - k,
{
    if k < rows.len() {
        assert(rows.take(k + 1).drop_last() =~= rows.take(k));
        lemma_function_fault(rows, k + 1);
    } else {
        assert(rows.take(k) =~= rows);
    }
}

/// The views of a list of functions.
pub open spec fn function_views(functions: Seq<FunctionDefinition>) -> Seq<FunctionView> {
    functions.map_values(|f: FunctionDefinition| f@)
}

/// The function that a row describes.
pub fn read_function(row: &Vec<Option<String>>) -> (r: Result<FunctionDefinition, PsqlpackError>)
    ensures
        match r {
            Ok(f) => function_read(*row) == Ok::<FunctionView, ReadFault>(f@),
            Err(e) => function_read(*row) matches Err(fault) && tells(e, fault),
        },
{
    let described = cell(row, 2);
    let arguments = match parse_function_arguments(described.as_str()) {
        Ok(list) => list,
        Err(e) => {
            return Err(e);
        },
    };
    let described = cell(row, 3);
    let return_type = match parse_return_type(described.as_str()) {
        Ok(t) => t,
        Err(e) => {
            return Err(e);
        },
    };
    let code = cell(row, 6);
    let f = FunctionDefinition {
        name: name_in(row, 0),
        arguments,
        return_type,
        language: cell(row, 4),
        body: cell(row, 5),
        volatility: volatility_of(&code),
    };
    proof {
        assert(f@.arguments =~= described_arguments(cell_text(*row, 2))->0);
    }
    Ok(f)
}

/// The functions that the rows describe, or the error of the first row
/// that cannot be read.
pub fn read_functions(rows: &Vec<Vec<Option<String>>>) -> (r: Result<Vec<FunctionDefinition>, PsqlpackError>)
    ensures
        match r {
            Ok(functions) => functions_read(rows@) == Ok::<Seq<FunctionView>, ReadFault>(function_views(functions@)),
            Err(e) => functions_read(rows@) matches Err(fault) && tells(e, fault),
        },
{
    let mut out: Vec<FunctionDefinition> = Vec::new();
    let mut k: usize = 0;
    proof {
        assert(function_views(out@) =~= Seq::empty());
        assert(rows@.take(0) =~= Seq::empty());
    }
    while k < rows.len()
        invariant
            k <= rows.len(),
            functions_read(rows@.take(k as int)) == Ok::<Seq<FunctionView>, ReadFault>(function_views(out@)),
        decreases rows.len() - k,
    {
        proof {
            assert(rows@.take(k + 1).drop_last() =~= rows@.take(k as int));
        }
        let ghost before = function_views(out@);
        match read_function(&rows[k]) {
            Ok(f) => {
                out.push(f);
                proof {
                    assert(function_views(out@) =~= before.push(f@));
                }
            },
            Err(e) => {
                proof {
                    lemma_function_fault(rows@, k + 1);
                }
                return Err(e);
            },
        }
        k += 1;
    }
    proof {
        assert(rows@.take(k as int) =~= rows@);
    }
    Ok(out)
}

/// What the cell `i` of a row holds, if the row has such a cell and it
/// holds anything.
pub open spec fn cell_view(row: Vec<Option<String>>, i: int) -> Option<Seq<char>> {
    if 0 <= i < row.len() {
        match row[i] {
            Some(s) => Some(s@),
            None => None,
        }
    } else {
        None
    }
}

/// What the cell `i` of a row holds.
pub fn optional_cell(row: &Vec<Option<String>>, i: usize) -> (r: Option<String>)
    ensures
        match r {
            Some(s) => cell_view(*row, i as int) == Some(s@),
            None => cell_view(*row, i as int) is None,
        },
{
    if i < row.len() {
        match &row[i] {
            Some(s) => Some(s.clone()),
            None => None,
        }
    } else {
        None
    }
}

/// Whether `text` is the word `NO`.
pub fn is_no(text: &String) -> (r: bool)
    ensures
        r == (text@ == seq!['N', 'O']),
{
    let cs = chars_of(text.as_str());
    let r = cs.len() == 2 && cs[0] == 'N' && cs[1] == 'O';
    proof {
        if r {
            assert(text@ =~= seq!['N', 'O']);
        } else if text@ == seq!['N', 'O'] {
            assert(seq!['N', 'O'].len() == 2);
            assert(seq!['N', 'O'][0] == 'N');
            assert(seq!['N', 'O'][1] == 'O');
        }
    }
    r
}

/// The column that a row describes, if its type can be read. The cells
/// from the third on are the name, the type, `NO` where the column takes no
/// null, and the default if there is one.
pub open spec fn column_read(row: Vec<Option<String>>) -> Option<ColumnView> {
    match described_type(cell_text(row, 3)) {
        None => None,
        Some(sql_type) => Some(
            ColumnView {
                name: cell_text(row, 2),
                sql_type,
                not_null: cell_text(row, 4) == seq!['N', 'O'],
                default: cell_view(row, 5),
                identity: None,
            },
        ),
    }
}

/// The column that a row describes, if its type can be read.
pub fn read_column(row: &Vec<Option<String>>) -> (r: Option<ColumnDefinition>)
    ensures
        match r {
            Some(c) => column_read(*row) == Some(c@),
            None => column_read(*row) is None,
        },
{
    let described = cell(row, 3);
    match parse_return_type(described.as_str()) {
        Err(_) => None,
        Ok(sql_type) => {
            let nullable = cell(row, 4);
            Some(
                ColumnDefinition {
                    name: cell(row, 2),
                    sql_type,
                    not_null: is_no(&nullable),
                    default: optional_cell(row, 5),
                    identity: None,
                },
            )
        },
    }
}

/// The tables `tables` with one more column of the table `name`: added to
/// the last of them if that has this name, else as the first column of a
/// new table behind them.
pub open spec fn with_column(tables: Seq<TableView>, name: NameView, column: ColumnView) -> Seq<TableView> {
    if tables.len() > 0 && tables.last().name == name {
        tables.drop_last().push(
            TableView { name, columns: tables.last().columns.push(column), constraints: tables.last().constraints },
        )
    } else {
        tables.push(TableView { name, columns: seq![column], constraints: Seq::empty() })
    }
}

/// The tables that the rows list, without constraints; none if the type of
/// some column cannot be read. A row holds the schema and the name of a
/// table and one of its columns; the rows of one table follow each other,
/// its columns in their order.
pub open spec fn tables_read(rows: Seq<Vec<Option<String>>>) -> Option<Seq<TableView>>
    decreases rows.len(),
{
    if rows.len() == 0 {
        Some(Seq::empty())
    } else {
        match tables_read(rows.drop_last()) {
            None => None,
            Some(tables) => match column_read(rows.last()) {
                None => None,
                Some(column) => Some(with_column(tables, cell_name(rows.last(), 0), column)),
            },
        }
    }
}

/// Where the first `k` rows cannot be read, the rows cannot.
proof fn lemma_table_fault(rows: Seq<Vec<Option<String>>>, k: int)
    requires
        0 <= k <= rows.len(),
        tables_read(rows.take(k)) is None,
    ensures
        tables_read(rows) is None,
    decreases rows.len() - k,
{
    if k < rows.len() {
        assert(rows.take(k + 1).drop_last() =~= rows.take(k));
        lemma_table_fault(rows, k + 1);
    } else {
        assert(rows.take(k) =~= rows);
    }
}

/// The views of a list of tables.
pub open spec fn table_views(tables: Seq<TableDefinition>) -> Seq<TableView> {
    tables.map_values(|t: TableDefinition| t@)
}

/// Adds a column of the table `name` to the tables `tables`.
pub fn push_column(tables: &mut Vec<TableDefinition>, name: ObjectName, column: ColumnDefinition)
    ensures
        table_views(final(tables)@) == with_column(table_views(old(tables)@), name@, column@),
{
    let ghost before = table_views(tables@);
    let n = tables.len();
    if n > 0 && tables[n - 1].name.same_as(&name) {
        let last = tables.pop().unwrap();
        proof {
            assert(last@ == before.last());
            assert(last.name@ == name@);
            assert(table_views(tables@) =~= before.drop_last());
        }
        let mut columns = last.columns;
        let ghost known = columns@.map_values(|c: ColumnDefinition| c@);
        columns.push(column);
        proof {
            assert(columns@.map_values(|c: ColumnDefinition| c@) =~= known.push(column@));
        }
        tables.push(TableDefinition { name, columns, constraints: last.constraints });
        proof {
            assert(table_views(tables@) =~= with_column(before, name@, column@));
        }
    } else {
        proof {
            if n > 0 {
                assert(before.last() == tables[n - 1]@);
            }
        }
        let mut columns: Vec<ColumnDefinition> = Vec::new();
        columns.push(column);
        let table = TableDefinition { name, columns, constraints: Vec::new() };
        proof {
            assert(table@.columns =~= seq![column@]);
            assert(table@.constraints =~= Seq::empty());
        }
        tables.push(table);
        proof {
            assert(table_views(tables@) =~= with_column(before, name@, column@));
        }
    }
}

/// The tables that the rows list, without constraints; none if the type of
/// some column cannot be read.
pub fn read_tables(rows: &Vec<Vec<Option<String>>>) -> (r: Option<Vec<TableDefinition>>)
    ensures
        match r {
            Some(tables) => tables_read(rows@) == Some(table_views(tables@)),
            None => tables_read(rows@) is None,
        },
{
    let mut out: Vec<TableDefinition> = Vec::new();
    let mut k: usize = 0;
    proof {
        assert(table_views(out@) =~= Seq::empty());
        assert(rows@.take(0) =~= Seq::empty());
    }
    while k < rows.len()
        invariant
            k <= rows.len(),
            tables_read(rows@.take(k as int)) == Some(table_views(out@)),
        decreases rows.len() - k,
    {
        proof {
            assert(rows@.take(k + 1).drop_last() =~= rows@.take(k as int));
        }
        match read_column(&rows[k]) {
            Some(column) => {
                push_column(&mut out, name_in(&rows[k], 0), column);
            },
            None => {
                proof {
                    lemma_table_fault(rows@, k + 1);
                }
                return None;
            },
        }
        k += 1;
    }
    proof {
        assert(rows@.take(k as int) =~= rows@);
    }
    Some(out)
}

/// What the catalog's code for the action of a foreign key stands for.
pub open spec fn action_read(code: Seq<char>) -> Option<ForeignConstraintAction> {
    if code == seq!['a'] {
        Some(ForeignConstraintAction::NoAction)
    } else if code == seq!['r'] {
        Some(ForeignConstraintAction::Restrict)
    } else if code == seq!['c'] {
        Some(ForeignConstraintAction::Cascade)
    } else if code == seq!['n'] {
        Some(ForeignConstraintAction::SetNull)
    } else if code == seq!['d'] {
        Some(ForeignConstraintAction::SetDefault)
    } else {
        None
    }
}

/// What the catalog's code for the action of a foreign key stands for.
pub fn action_of(code: &String) -> (r: Option<ForeignConstraintAction>)
    ensures
        r == action_read(code@),
{
    if is_code(code, 'a') {
        Some(ForeignConstraintAction::NoAction)
    } else if is_code(code, 'r') {
        Some(ForeignConstraintAction::Restrict)
    } else if is_code(code, 'c') {
        Some(ForeignConstraintAction::Cascade)
    } else if is_code(code, 'n') {
        Some(ForeignConstraintAction::SetNull)
    } else if is_code(code, 'd') {
        Some(ForeignConstraintAction::SetDefault)
    } else {
        None
    }
}

/// Those of the texts that are not empty, in their order.
pub open spec fn non_empty(parts: Seq<Seq<char>>) -> Seq<Seq<char>>
    decreases parts.len(),
{
    if parts.len() == 0 {
        Seq::empty()
    } else if parts.last().len() == 0 {
        non_empty(parts.drop_last())
    } else {
        non_empty(parts.drop_last()).push(parts.last())
    }
}

/// The names that a text lists with commas between them.
pub open spec fn listed(text: Seq<char>) -> Seq<Seq<char>> {
    non_empty(split_spec(text, ','))
}

/// The names that a text lists with commas between them.
pub fn list_of(text: &String) -> (r: Vec<String>)
    ensures
        views(r@) == listed(text@),
{
    let cs = chars_of(text.as_str());
    let parts = split(&cs, ',');
    let mut out: Vec<String> = Vec::new();
    let mut k: usize = 0;
    proof {
        assert(views(out@) =~= Seq::empty());
        assert(char_views(parts@).take(0) =~= Seq::empty());
    }
    while k < parts.len()
        invariant
            k <= parts.len(),
            views(out@) == non_empty(char_views(parts@).take(k as int)),
        decreases parts.len() - k,
    {
        proof {
            assert(char_views(parts@).take(k + 1).drop_last() =~= char_views(parts@).take(k as int));
            assert(char_views(parts@).take(k + 1).last() == parts[k as int]@);
        }
        if parts[k].len() > 0 {
            let ghost before = views(out@);
            let part = collect(&parts[k], 0, parts[k].len());
            proof {
                assert(part@ =~= parts[k as int]@);
            }
            out.push(part);
            proof {
                assert(views(out@) =~= before.push(part@));
            }
        }
        k += 1;
    }
    proof {
        assert(char_views(parts@).take(k as int) =~= char_views(parts@));
    }
    out
}

/// The constraint that a row describes, if the catalog's code for its kind
/// is one of `p`, `u`, `c` and `f`. The cells from the third on are the
/// name, the code, the columns, the schema and the name of the table that
/// a foreign key refers to, the columns there, the codes of what it does on
/// delete and on update, and the expression of a check.
pub open spec fn constraint_read(row: Vec<Option<String>>) -> Option<ConstraintView> {
    let name = cell_text(row, 2);
    let code = cell_text(row, 3);
    let columns = listed(cell_text(row, 4));
    if code == seq!['p'] {
        Some(ConstraintView::Primary { name, columns, parameters: None })
    } else if code == seq!['u'] {
        Some(ConstraintView::Unique { name, columns })
    } else if code == seq!['c'] {
        Some(ConstraintView::Check { name, expression: cell_text(row, 10) })
    } else if code == seq!['f'] {
        Some(
            ConstraintView::Foreign {
                name,
                columns,
                ref_table: cell_name(row, 5),
                ref_columns: listed(cell_text(row, 7)),
                on_delete: action_read(cell_text(row, 8)),
                on_update: action_read(cell_text(row, 9)),
            },
        )
    } else {
        None
    }
}

/// The constraint that a row describes, if the code of its kind is known.
pub fn read_constraint(row: &Vec<Option<String>>) -> (r: Option<TableConstraint>)
    ensures
        match r {
            Some(c) => constraint_read(*row) == Some(c@),
            None => constraint_read(*row) is None,
        },
{
    let code = cell(row, 3);
    let listing = cell(row, 4);
    if is_code(&code, 'p') {
        Some(TableConstraint::Primary { name: cell(row, 2), columns: list_of(&listing), parameters: None })
    } else if is_code(&code, 'u') {
        Some(TableConstraint::Unique { name: cell(row, 2), columns: list_of(&listing) })
    } else if is_code(&code, 'c') {
        Some(TableConstraint::Check { name: cell(row, 2), expression: cell(row, 10) })
    } else if is_code(&code, 'f') {
        let there = cell(row, 7);
        let on_delete = cell(row, 8);
        let on_update = cell(row, 9);
        Some(
            TableConstraint::Foreign {
                name: cell(row, 2),
                columns: list_of(&listing),
                ref_table: name_in(row, 5),
                ref_columns: list_of(&there),
                on_delete: action_of(&on_delete),
                on_update: action_of(&on_update),
            },
        )
    } else {
        None
    }
}

/// `i` is the first of the tables that has the name `owner`.
pub open spec fn is_owner(tables: Seq<TableView>, owner: NameView, i: int) -> bool {
    &&& 0 <= i < tables.len()
    &&& tables[i].name == owner
    &&& forall|k: int| 0 <= k < i ==> (#[trigger] tables[k]).name != owner
}

/// The tables with the constraint `c` behind the constraints of the first
/// table of the name `owner`; as they are if no table has that name.
pub open spec fn attached(tables: Seq<TableView>, owner: NameView, c: ConstraintView) -> Seq<TableView> {
    if exists|i: int| is_owner(tables, owner, i) {
        let i = choose|i: int| is_owner(tables, owner, i);
        tables.update(
            i,
            TableView { name: tables[i].name, columns: tables[i].columns, constraints: tables[i].constraints.push(c) },
        )
    } else {
        tables
    }
}

/// Only one table is the first of its name.
proof fn lemma_one_owner(tables: Seq<TableView>, owner: NameView, i: int, j: int)
    requires
        is_owner(tables, owner, i),
        is_owner(tables, owner, j),
    ensures
        i == j,
{
    if i < j {
        assert(tables[i].name != owner);
    }
    if j < i {
        assert(tables[j].name != owner);
    }
}

/// Gives the constraint `c` to the first table of the name `owner`, if
/// there is one.
pub fn attach(tables: &mut Vec<TableDefinition>, owner: &ObjectName, c: TableConstraint)
    ensures
        table_views(final(tables)@) == attached(table_views(old(tables)@), owner@, c@),
{
    let ghost before = table_views(tables@);
    let ghost names = table_names(tables@);
    proof {
        assert forall|i: int| is_first_name(names, *owner, i) <==> is_owner(before, owner@, i) by {
            if is_first_name(names, *owner, i) {
                assert(before[i].name == names[i]@);
                assert forall|k: int| 0 <= k < i implies (#[trigger] before[k]).name != owner@ by {
                    assert(!names[k].same(owner));
                    assert(before[k].name == names[k]@);
                }
            }
            if is_owner(before, owner@, i) {
                assert(before[i].name == names[i]@);
                assert forall|k: int| 0 <= k < i implies !(#[trigger] names[k]).same(owner) by {
                    assert(before[k].name != owner@);
                    assert(before[k].name == names[k]@);
                }
            }
        }
    }
    match find_table(tables, owner) {
        None => {
            proof {
                if exists|i: int| is_owner(before, owner@, i) {
                    let i = choose|i: int| is_owner(before, owner@, i);
                    lemma_first_name(names, *owner, i);
                }
            }
        },
        Some(i) => {
            proof {
                let first = choose|k: int| is_first_name(names, *owner, k);
                assert(is_first_name(names, *owner, first));
                assert(is_owner(before, owner@, i as int));
                lemma_one_owner(before, owner@, i as int, choose|k: int| is_owner(before, owner@, k));
            }
            let table = tables.remove(i);
            let mut constraints = table.constraints;
            let ghost known = constraints@.map_values(|x: TableConstraint| x@);
            constraints.push(c);
            proof {
                assert(constraints@.map_values(|x: TableConstraint| x@) =~= known.push(c@));
            }
            tables.insert(i, TableDefinition { name: table.name, columns: table.columns, constraints });
            proof {
                assert(table_views(tables@) =~= attached(before, owner@, c@));
            }
        },
    }
}

/// The tables with the constraints that the rows describe, each given to
/// the first table of the name in the first two cells of its row. A row
/// whose kind is not known, or whose table is not among the tables, gives
/// nothing.
pub open spec fn constraints_attached(tables: Seq<TableView>, rows: Seq<Vec<Option<String>>>) -> Seq<TableView>
    decreases rows.len(),
{
    if rows.len() == 0 {
        tables
    } else {
        let before = constraints_attached(tables, rows.drop_last());
        match constraint_read(rows.last()) {
            Some(c) => attached(before, cell_name(rows.last(), 0), c),
            None => before,
        }
    }
}

/// Gives the tables the constraints that the rows describe.
pub fn attach_constraints(tables: &mut Vec<TableDefinition>, rows: &Vec<Vec<Option<String>>>)
    ensures
        table_views(final(tables)@) == constraints_attached(table_views(old(tables)@), rows@),
{
    let ghost start = table_views(tables@);
    let mut k: usize = 0;
    proof {
        assert(rows@.take(0) =~= Seq::empty());
    }
    while k < rows.len()
        invariant
            k <= rows.len(),
            table_views(tables@) == constraints_attached(start, rows@.take(k as int)),
        decreases rows.len() - k,
    {
        proof {
            assert(rows@.take(k + 1).drop_last() =~= rows@.take(k as int));
        }
        match read_constraint(&rows[k]) {
            Some(c) => {
                let owner = name_in(&rows[k], 0);
                attach(tables, &owner, c);
            },
            None => {},
        }
        k += 1;
    }
    proof {
        assert(rows@.take(k as int) =~= rows@);
    }
}

/// The rows that the catalog of a database gives, one list for each query.
pub struct CatalogRows {
    /// One row for each extension: its name.
    pub extensions: Vec<Vec<Option<String>>>,
    /// One row for each schema: its name.
    pub schemas: Vec<Vec<Option<String>>>,
    /// One row for each label of an enumeration.
    pub enums: Vec<Vec<Option<String>>>,
    /// One row for each function.
    pub functions: Vec<Vec<Option<String>>>,
    /// One row for each column of a table.
    pub columns: Vec<Vec<Option<String>>>,
    /// One row for each constraint of a table.
    pub constraints: Vec<Vec<Option<String>>>,
}

/// The package `p` is the snapshot that the rows give: their extensions,
/// schemas, enumerations and functions, and their tables with their
/// constraints; no scripts and no order.
pub open spec fn is_snapshot(rows: CatalogRows, p: Package) -> bool {
    &&& extension_names(p.extensions@) == first_cells(rows.extensions@)
    &&& schema_names(p.schemas@) == first_cells(rows.schemas@)
    &&& type_views(p.types@) == enums_read(rows.enums@)
    &&& functions_read(rows.functions@) == Ok::<Seq<FunctionView>, ReadFault>(function_views(p.functions@))
    &&& tables_read(rows.columns@) matches Some(tables)
    &&& table_views(p.tables@) == constraints_attached(tables, rows.constraints@)
    &&& p.scripts@.len() == 0
    &&& p.order is None
}

/// The fault for which the rows give no snapshot, if there is one: that of
/// the first function that cannot be read, else that of a column.
pub open spec fn snapshot_fault(rows: CatalogRows) -> Option<ReadFault> {
    match functions_read(rows.functions@) {
        Err(fault) => Some(fault),
        Ok(_) => if tables_read(rows.columns@) is None {
            Some(ReadFault::ColumnType)
        } else {
            None
        },
    }
}

impl Package {
    /// The snapshot of a database from the rows of its catalog. It fails
    /// where the description of a function or the type of a column cannot
    /// be read, and only there.
    pub fn from_rows(rows: &CatalogRows) -> (r: Result<Package, PsqlpackError>)
        ensures
            match r {
                Ok(p) => snapshot_fault(*rows) is None && is_snapshot(*rows, p),
                Err(e) => snapshot_fault(*rows) matches Some(fault) && tells(e, fault),
            },
    {
        let functions = match read_functions(&rows.functions) {
            Ok(functions) => functions,
            Err(e) => {
                return Err(e);
            },
        };
        let mut tables = match read_tables(&rows.columns) {
            Some(tables) => tables,
            None => {
                return Err(PsqlpackError::PackageQueryTablesError);
            },
        };
        attach_constraints(&mut tables, &rows.constraints);
        Ok(
            Package {
                extensions: read_extensions(&rows.extensions),
                functions,
                schemas: read_schemas(&rows.schemas),
                scripts: Vec::new(),
                tables,
                types: read_enums(&rows.enums),
                order: None,
            },
        )
    }
}

} // verus!

//! Finding the objects of a package: by name, and by the text of a node.

use vstd::prelude::*;
use crate::ast::{
    ColumnDefinition, ExtensionDefinition, FunctionDefinition, ObjectName, SchemaDefinition,
    TableConstraint, TableDefinition, TypeDefinition,
};
use crate::model::dependencies::dot;
use crate::text::{dotted, views};

verus! {

/// `i` is the first place at which `texts` holds `t`.
pub open spec fn is_first_text(texts: Seq<Seq<char>>, t: Seq<char>, i: int) -> bool {
    &&& 0 <= i < texts.len()
    &&& texts[i] == t
    &&& forall|k: int| 0 <= k < i ==> texts[k] != t
}

/// The first place at which `texts` holds `t`, if any.
pub open spec fn first_text(texts: Seq<Seq<char>>, t: Seq<char>) -> Option<int> {
    if exists|i: int| is_first_text(texts, t, i) {
        Some(choose|i: int| is_first_text(texts, t, i))
    } else {
        None
    }
}

/// `i` is the first place at which `names` holds the name `n`.
pub open spec fn is_first_name(names: Seq<ObjectName>, n: ObjectName, i: int) -> bool {
    &&& 0 <= i < names.len()
    &&& names[i].same(&n)
    &&& forall|k: int| 0 <= k < i ==> !(#[trigger] names[k]).same(&n)
}

/// The first place at which `names` holds the name `n`, if any.
pub open spec fn first_name(names: Seq<ObjectName>, n: ObjectName) -> Option<int> {
    if exists|i: int| is_first_name(names, n, i) {
        Some(choose|i: int| is_first_name(names, n, i))
    } else {
        None
    }
}

/// `i` is the first list in `lists` that holds `t`, and `j` the first place
/// in it that does.
pub open spec fn is_first_owner(lists: Seq<Seq<Seq<char>>>, t: Seq<char>, i: int, j: int) -> bool {
    &&& 0 <= i < lists.len()
    &&& first_text(lists[i], t) == Some(j)
    &&& forall|k: int| 0 <= k < i ==> first_text(#[trigger] lists[k], t) is None
}

/// The first list in `lists` that holds `t`, and the first place in it
/// that does, if any.
pub open spec fn first_owner(lists: Seq<Seq<Seq<char>>>, t: Seq<char>) -> Option<(int, int)> {
    if exists|i: int, j: int| is_first_owner(lists, t, i, j) {
        Some(choose|p: (int, int)| is_first_owner(lists, t, p.0, p.1))
    } else {
        None
    }
}

/// A position as a number of the contracts.
pub open spec fn as_int(r: Option<usize>) -> Option<int> {
    match r {
        Some(i) => Some(i as int),
        None => None,
    }
}

/// A pair of positions as numbers of the contracts.
pub open spec fn as_ints(r: Option<(usize, usize)>) -> Option<(int, int)> {
    match r {
        Some((i, j)) => Some((i as int, j as int)),
        None => None,
    }
}

/// The place that is first is the one that [`first_text`] gives.
pub proof fn lemma_first_text(texts: Seq<Seq<char>>, t: Seq<char>, i: int)
    requires
        is_first_text(texts, t, i),
    ensures
        first_text(texts, t) == Some(i),
{
    let c = choose|c: int| is_first_text(texts, t, c);
    assert(c == i) by {
        if c < i {
            assert(texts[c] != t);
        }
        if i < c {
            assert(texts[i] != t);
        }
    }
}

/// The place that is first is the one that [`first_name`] gives.
pub proof fn lemma_first_name(names: Seq<ObjectName>, n: ObjectName, i: int)
    requires
        is_first_name(names, n, i),
    ensures
        first_name(names, n) == Some(i),
{
    let c = choose|c: int| is_first_name(names, n, c);
    assert(c == i) by {
        if c < i {
            assert(!names[c].same(&n));
        }
        if i < c {
            assert(!names[i].same(&n));
        }
    }
}

/// The places that are first are those that [`first_owner`] gives.
pub proof fn lemma_first_owner(lists: Seq<Seq<Seq<char>>>, t: Seq<char>, i: int, j: int)
    requires
        is_first_owner(lists, t, i, j),
    ensures
        first_owner(lists, t) == Some((i, j)),
{
    assert(is_first_owner(lists, t, (i, j).0, (i, j).1));
    let c = choose|p: (int, int)| is_first_owner(lists, t, p.0, p.1);
    assert(c.0 == i) by {
        if c.0 < i {
            assert(first_text(lists[c.0], t) is None);
        }
        if i < c.0 {
            assert(first_text(lists[i], t) is None);
        }
    }
    assert(c == (i, j));
}

/// The names of the columns of a table.
pub open spec fn column_names(t: TableDefinition) -> Seq<Seq<char>> {
    t.columns@.map_values(|c: ColumnDefinition| c.name@)
}

/// The names of the constraints of a table.
pub open spec fn constraint_names(t: TableDefinition) -> Seq<Seq<char>> {
    t.constraints@.map_values(|c: TableConstraint| c.name_spec()@)
}

/// The names of a list of extensions.
pub open spec fn extension_names(es: Seq<ExtensionDefinition>) -> Seq<Seq<char>> {
    es.map_values(|e: ExtensionDefinition| e.name@)
}

/// The names of a list of schemas.
pub open spec fn schema_names(ss: Seq<SchemaDefinition>) -> Seq<Seq<char>> {
    ss.map_values(|s: SchemaDefinition| s.name@)
}

/// The names of a list of tables.
pub open spec fn table_names(ts: Seq<TableDefinition>) -> Seq<ObjectName> {
    ts.map_values(|t: TableDefinition| t.name)
}

/// The names of a list of functions.
pub open spec fn function_names(fs: Seq<FunctionDefinition>) -> Seq<ObjectName> {
    fs.map_values(|f: FunctionDefinition| f.name)
}

/// The names of a list of declared types.
pub open spec fn type_names(ts: Seq<TypeDefinition>) -> Seq<ObjectName> {
    ts.map_values(|t: TypeDefinition| t.name)
}

/// The names of a list of tables, in full.
pub open spec fn table_texts(ts: Seq<TableDefinition>) -> Seq<Seq<char>> {
    ts.map_values(|t: TableDefinition| t.name.text())
}

/// The names of a list of functions, in full.
pub open spec fn function_texts(fs: Seq<FunctionDefinition>) -> Seq<Seq<char>> {
    fs.map_values(|f: FunctionDefinition| f.name.text())
}

/// The names of a list of declared types, in full.
pub open spec fn type_texts(ts: Seq<TypeDefinition>) -> Seq<Seq<char>> {
    ts.map_values(|t: TypeDefinition| t.name.text())
}

/// The names in full of the columns of a table.
pub open spec fn column_texts_of(t: TableDefinition) -> Seq<Seq<char>> {
    t.columns@.map_values(|c: ColumnDefinition| dot(t.name.text(), c.name@))
}

/// The names in full of the constraints of a table.
pub open spec fn constraint_texts_of(t: TableDefinition) -> Seq<Seq<char>> {
    t.constraints@.map_values(|c: TableConstraint| dot(t.name.text(), c.name_spec()@))
}

/// For each table, the names in full of its columns.
pub open spec fn column_texts(ts: Seq<TableDefinition>) -> Seq<Seq<Seq<char>>> {
    ts.map_values(|t: TableDefinition| column_texts_of(t))
}

/// For each table, the names in full of its constraints.
pub open spec fn constraint_texts(ts: Seq<TableDefinition>) -> Seq<Seq<Seq<char>>> {
    ts.map_values(|t: TableDefinition| constraint_texts_of(t))
}

/// The first place at which `texts` holds `t`.
pub fn find_text(texts: &Vec<String>, t: &String) -> (r: Option<usize>)
    ensures
        as_int(r) == first_text(views(texts@), t@),
{
    let ghost ts = views(texts@);
    let mut i: usize = 0;
    while i < texts.len()
        invariant
            i <= texts.len(),
            ts == views(texts@),
            forall|k: int| 0 <= k < i ==> ts[k] != t@,
        decreases texts.len() - i,
    {
        if texts[i] == *t {
            proof {
                lemma_first_text(ts, t@, i as int);
            }
            return Some(i);
        }
        i += 1;
    }
    None
}

/// The first of `lists` that holds `t`, and the first place in it that
/// does.
pub fn find_owner(lists: &Vec<Vec<String>>, t: &String) -> (r: Option<(usize, usize)>)
    ensures
        as_ints(r) == first_owner(lists@.map_values(|l: Vec<String>| views(l@)), t@),
{
    let ghost ls = lists@.map_values(|l: Vec<String>| views(l@));
    let mut i: usize = 0;
    while i < lists.len()
        invariant
            i <= lists.len(),
            ls == lists@.map_values(|l: Vec<String>| views(l@)),
            forall|k: int| 0 <= k < i ==> first_text(#[trigger] ls[k], t@) is None,
        decreases lists.len() - i,
    {
        match find_text(&lists[i], t) {
            Some(j) => {
                proof {
                    lemma_first_owner(ls, t@, i as int, j as int);
                }
                return Some((i, j));
            },
            None => {},
        }
        i += 1;
    }
    proof {
        if exists|a: int, b: int| is_first_owner(ls, t@, a, b) {
            let (a, b) = choose|a: int, b: int| is_first_owner(ls, t@, a, b);
            assert(first_text(ls[a], t@) is None);
        }
    }
    None
}

/// The first column of the table that is called `name`.
pub fn find_column(table: &TableDefinition, name: &String) -> (r: Option<usize>)
    ensures
        as_int(r) == first_text(column_names(*table), name@),
{
    let ghost ts = column_names(*table);
    let mut i: usize = 0;
    while i < table.columns.len()
        invariant
            i <= table.columns.len(),
            ts == column_names(*table),
            forall|k: int| 0 <= k < i ==> ts[k] != name@,
        decreases table.columns.len() - i,
    {
        if table.columns[i].name == *name {
            proof {
                lemma_first_text(ts, name@, i as int);
            }
            return Some(i);
        }
        i += 1;
    }
    None
}

/// The first constraint of the table that is called `name`.
pub fn find_constraint(table: &TableDefinition, name: &String) -> (r: Option<usize>)
    ensures
        as_int(r) == first_text(constraint_names(*table), name@),
{
    let ghost ts = constraint_names(*table);
    let mut i: usize = 0;
    while i < table.constraints.len()
        invariant
            i <= table.constraints.len(),
            ts == constraint_names(*table),
            forall|k: int| 0 <= k < i ==> ts[k] != name@,
        decreases table.constraints.len() - i,
    {
        if *table.constraints[i].name() == *name {
            proof {
                lemma_first_text(ts, name@, i as int);
            }
            return Some(i);
        }
        i += 1;
    }
    None
}

/// The first extension that is called `name`.
pub fn find_extension(extensions: &Vec<ExtensionDefinition>, name: &String) -> (r: Option<usize>)
    ensures
        as_int(r) == first_text(extension_names(extensions@), name@),
{
    let ghost ts = extension_names(extensions@);
    let mut i: usize = 0;
    while i < extensions.len()
        invariant
            i <= extensions.len(),
            ts == extension_names(extensions@),
            forall|k: int| 0 <= k < i ==> ts[k] != name@,
        decreases extensions.len() - i,
    {
        if extensions[i].name == *name {
            proof {
                lemma_first_text(ts, name@, i as int);
            }
            return Some(i);
        }
        i += 1;
    }
    None
}

/// The first schema that is called `name`.
pub fn find_schema(schemas: &Vec<SchemaDefinition>, name: &String) -> (r: Option<usize>)
    ensures
        as_int(r) == first_text(schema_names(schemas@), name@),
{
    let ghost ts = schema_names(schemas@);
    let mut i: usize = 0;
    while i < schemas.len()
        invariant
            i <= schemas.len(),
            ts == schema_names(schemas@),
            forall|k: int| 0 <= k < i ==> ts[k] != name@,
        decreases schemas.len() - i,
    {
        if schemas[i].name == *name {
            proof {
                lemma_first_text(ts, name@, i as int);
            }
            return Some(i);
        }
        i += 1;
    }
    None
}

/// The first table of the name `name`.
pub fn find_table(tables: &Vec<TableDefinition>, name: &ObjectName) -> (r: Option<usize>)
    ensures
        as_int(r) == first_name(table_names(tables@), *name),
{
    let ghost ns = table_names(tables@);
    let mut i: usize = 0;
    while i < tables.len()
        invariant
            i <= tables.len(),
            ns == table_names(tables@),
            forall|k: int| 0 <= k < i ==> !(#[trigger] ns[k]).same(name),
        decreases tables.len() - i,
    {
        if tables[i].name.same_as(name) {
            proof {
                lemma_first_name(ns, *name, i as int);
            }
            return Some(i);
        }
        i += 1;
    }
    None
}

/// The first function of the name `name`.
pub fn find_function(functions: &Vec<FunctionDefinition>, name: &ObjectName) -> (r: Option<usize>)
    ensures
        as_int(r) == first_name(function_names(functions@), *name),
{
    let ghost ns = function_names(functions@);
    let mut i: usize = 0;
    while i < functions.len()
        invariant
            i <= functions.len(),
            ns == function_names(functions@),
            forall|k: int| 0 <= k < i ==> !(#[trigger] ns[k]).same(name),
        decreases functions.len() - i,
    {
        if functions[i].name.same_as(name) {
            proof {
                lemma_first_name(ns, *name, i as int);
            }
            return Some(i);
        }
        i += 1;
    }
    None
}

/// The first declared type of the name `name`.
pub fn find_type(types: &Vec<TypeDefinition>, name: &ObjectName) -> (r: Option<usize>)
    ensures
        as_int(r) == first_name(type_names(types@), *name),
{
    let ghost ns = type_names(types@);
    let mut i: usize = 0;
    while i < types.len()
        invariant
            i <= types.len(),
            ns == type_names(types@),
            forall|k: int| 0 <= k < i ==> !(#[trigger] ns[k]).same(name),
        decreases types.len() - i,
    {
        if types[i].name.same_as(name) {
            proof {
                lemma_first_name(ns, *name, i as int);
            }
            return Some(i);
        }
        i += 1;
    }
    None
}

/// The names in full of the objects of a package, by which the nodes of an
/// order are found again.
pub struct Catalog {
    pub tables: Vec<String>,
    pub functions: Vec<String>,
    pub types: Vec<String>,
    pub columns: Vec<Vec<String>>,
    pub constraints: Vec<Vec<String>>,
}

impl Catalog {
    /// The catalog holds the names of these tables, functions and declared
    /// types.
    pub open spec fn describes(
        &self,
        tables: Seq<TableDefinition>,
        functions: Seq<FunctionDefinition>,
        types: Seq<TypeDefinition>,
    ) -> bool {
        &&& views(self.tables@) == table_texts(tables)
        &&& views(self.functions@) == function_texts(functions)
        &&& views(self.types@) == type_texts(types)
        &&& self.columns@.map_values(|l: Vec<String>| views(l@)) == column_texts(tables)
        &&& self.constraints@.map_values(|l: Vec<String>| views(l@)) == constraint_texts(tables)
    }

    /// The catalog of the given tables, functions and declared types.
    pub fn new(tables: &Vec<TableDefinition>, functions: &Vec<FunctionDefinition>, types: &Vec<TypeDefinition>) -> (c:
        Catalog)
        ensures
            c.describes(tables@, functions@, types@),
    {
        let mut table_list: Vec<String> = Vec::new();
        let mut column_lists: Vec<Vec<String>> = Vec::new();
        let mut constraint_lists: Vec<Vec<String>> = Vec::new();
        let mut i: usize = 0;
        while i < tables.len()
            invariant
                i <= tables.len(),
                table_list.len() == i,
                column_lists.len() == i,
                constraint_lists.len() == i,
                forall|k: int| 0 <= k < i ==> (#[trigger] table_list@[k])@ == tables@[k].name.text(),
                forall|k: int| 0 <= k < i ==> views((#[trigger] column_lists@[k])@) == column_texts_of(tables@[k]),
                forall|k: int|
                    0 <= k < i ==> views((#[trigger] constraint_lists@[k])@) == constraint_texts_of(tables@[k]),
            decreases tables.len() - i,
        {
            let table = &tables[i];
            let full = table.name.to_string();
            let mut columns: Vec<String> = Vec::new();
            let mut j: usize = 0;
            while j < table.columns.len()
                invariant
                    j <= table.columns.len(),
                    columns.len() == j,
                    full@ == table.name.text(),
                    forall|k: int|
                        0 <= k < j ==> (#[trigger] columns@[k])@ == dot(full@, table.columns@[k].name@),
                decreases table.columns.len() - j,
            {
                columns.push(dotted(&full, &table.columns[j].name));
                j += 1;
            }
            let mut constraints: Vec<String> = Vec::new();
            let mut j: usize = 0;
            while j < table.constraints.len()
                invariant
                    j <= table.constraints.len(),
                    constraints.len() == j,
                    full@ == table.name.text(),
                    forall|k: int|
                        0 <= k < j ==> (#[trigger] constraints@[k])@ == dot(
                            full@,
                            table.constraints@[k].name_spec()@,
                        ),
                decreases table.constraints.len() - j,
            {
                constraints.push(dotted(&full, table.constraints[j].name()));
                j += 1;
            }
            proof {
                assert(views(columns@) =~= column_texts_of(*table));
                assert(views(constraints@) =~= constraint_texts_of(*table));
            }
            table_list.push(full);
            column_lists.push(columns);
            constraint_lists.push(constraints);
            i += 1;
        }
        let mut function_list: Vec<String> = Vec::new();
        let mut i: usize = 0;
        while i < functions.len()
            invariant
                i <= functions.len(),
                function_list.len() == i,
                forall|k: int| 0 <= k < i ==> (#[trigger] function_list@[k])@ == functions@[k].name.text(),
            decreases functions.len() - i,
        {
            function_list.push(functions[i].name.to_string());
            i += 1;
        }
        let mut type_list: Vec<String> = Vec::new();
        let mut i: usize = 0;
        while i < types.len()
            invariant
                i <= types.len(),
                type_list.len() == i,
                forall|k: int| 0 <= k < i ==> (#[trigger] type_list@[k])@ == types@[k].name.text(),
            decreases types.len() - i,
        {
            type_list.push(types[i].name.to_string());
            i += 1;
        }
        proof {
            assert(views(table_list@) =~= table_texts(tables@));
            assert(views(function_list@) =~= function_texts(functions@));
            assert(views(type_list@) =~= type_texts(types@));
            assert(column_lists@.map_values(|l: Vec<String>| views(l@)) =~= column_texts(tables@));
            assert(constraint_lists@.map_values(|l: Vec<String>| views(l@)) =~= constraint_texts(tables@));
        }
        Catalog {
            tables: table_list,
            functions: function_list,
            types: type_list,
            columns: column_lists,
            constraints: constraint_lists,
        }
    }
}

/// The places that [`first_owner`] gives lie within the lists.
pub proof fn lemma_owner_in_range(lists: Seq<Seq<Seq<char>>>, t: Seq<char>, i: int, j: int)
    requires
        first_owner(lists, t) == Some((i, j)),
    ensures
        0 <= i < lists.len(),
        0 <= j < lists[i].len(),
        lists[i][j] == t,
{
    let (a, b) = choose|a: int, b: int| is_first_owner(lists, t, a, b);
    assert(is_first_owner(lists, t, (a, b).0, (a, b).1));
    let c = choose|p: (int, int)| is_first_owner(lists, t, p.0, p.1);
    assert(is_first_owner(lists, t, c.0, c.1));
    let d = choose|d: int| is_first_text(lists[i], t, d);
    assert(is_first_text(lists[i], t, d));
}

} // verus!

//! What the changes of a plan do to a database, seen as what it holds by
//! name; and that a plan carried out leaves nothing to plan.

use vstd::prelude::*;
use crate::ast::{
    ColumnDefinition, FunctionDefinition, NameView, ObjectName, TableConstraint, TableDefinition,
    TypeDefinition,
};
use crate::model::delta::{ChangeInstruction, ColumnChange};
use crate::model::lookup::{
    column_names, constraint_names, extension_names, first_name, first_text, function_names,
    is_first_name, is_first_text, schema_names, table_names, type_names,
};
use crate::graph::{NodeId, NodeKind};
use crate::model::compare::{constraint_same, default_same, function_same, type_same, typedef_same};
use crate::ast::{ExtensionDefinition, SchemaDefinition, ScriptDefinition, ScriptStage};
use crate::model::delta::{
    builds, column_alters, drops, extension_changes, node_builds, node_drops, plan_with,
    schema_changes, scripts_at,
};
use crate::model::profiles::PublishProfile;
use crate::model::laws::{
    lemma_constraint_same_reflexive, lemma_kind_same_reflexive, lemma_no_extension_changes,
    lemma_no_schema_changes, lemma_text_found, lemma_type_same_reflexive,
};
use crate::model::delta::{order_of, plan_spec};
use crate::model::dependencies::{
    dot, lemma_column_node, lemma_constraint_node, lemma_function_node, lemma_table_node,
    lemma_type_node,
};
use crate::model::lookup::{
    column_texts, column_texts_of, constraint_texts, constraint_texts_of, first_owner,
    function_texts, lemma_first_owner, lemma_first_text, lemma_owner_in_range, table_texts,
    type_texts,
};
use crate::model::package::{distinct_names, Package};

verus! {

/// What a table holds: its columns and its constraints, by their names.
pub struct TableState {
    pub columns: Map<Seq<char>, ColumnDefinition>,
    pub constraints: Map<Seq<char>, TableConstraint>,
}

/// What a database holds: the names of its extensions and schemas, and its
/// declared types, tables and functions by their names.
pub struct Database {
    pub extensions: Set<Seq<char>>,
    pub schemas: Set<Seq<char>>,
    pub types: Map<NameView, TypeDefinition>,
    pub tables: Map<NameView, TableState>,
    pub functions: Map<NameView, FunctionDefinition>,
}

/// `i` is the first place at which `names` holds a name that reads `k`.
pub open spec fn is_first_key(names: Seq<ObjectName>, k: NameView, i: int) -> bool {
    &&& 0 <= i < names.len()
    &&& names[i]@ == k
    &&& forall|j: int| 0 <= j < i ==> (#[trigger] names[j])@ != k
}

/// The first place at which `names` holds a name that reads `k`, if any.
pub open spec fn first_key(names: Seq<ObjectName>, k: NameView) -> Option<int> {
    if exists|i: int| is_first_key(names, k, i) {
        Some(choose|i: int| is_first_key(names, k, i))
    } else {
        None
    }
}

/// Looking for a name is looking for what it reads.
pub proof fn lemma_first_key(names: Seq<ObjectName>, n: ObjectName)
    ensures
        first_name(names, n) == first_key(names, n@),
{
    assert forall|i: int| is_first_name(names, n, i) <==> is_first_key(names, n@, i) by {
        if is_first_name(names, n, i) {
            assert forall|j: int| 0 <= j < i implies (#[trigger] names[j])@ != n@ by {
                assert(!names[j].same(&n));
            }
        }
        if is_first_key(names, n@, i) {
            assert forall|j: int| 0 <= j < i implies !(#[trigger] names[j]).same(&n) by {
                assert(names[j]@ != n@);
            }
        }
    }
    if exists|i: int| is_first_name(names, n, i) {
        let a = choose|i: int| is_first_name(names, n, i);
        assert(is_first_name(names, n, a));
        assert(is_first_key(names, n@, a));
        lemma_first_key_at(names, n@, a);
    } else if exists|i: int| is_first_key(names, n@, i) {
        let b = choose|i: int| is_first_key(names, n@, i);
        assert(is_first_key(names, n@, b));
        assert(is_first_name(names, n, b));
        assert(false);
    }
}

/// The place that is first is the one that [`first_key`] gives.
pub proof fn lemma_first_key_at(names: Seq<ObjectName>, k: NameView, i: int)
    requires
        is_first_key(names, k, i),
    ensures
        first_key(names, k) == Some(i),
{
    let c = choose|c: int| is_first_key(names, k, c);
    assert(c == i) by {
        if c < i {
            assert(names[c]@ != k);
        }
        if i < c {
            assert(names[i]@ != k);
        }
    }
}

/// A name that a list holds is found in it, at its place or before.
pub proof fn lemma_key_found(names: Seq<ObjectName>, i: int)
    requires
        0 <= i < names.len(),
    ensures
        first_key(names, names[i]@) is Some,
        0 <= first_key(names, names[i]@)->0 <= i,
        names[first_key(names, names[i]@)->0]@ == names[i]@,
    decreases i,
{
    let k = names[i]@;
    if exists|j: int| 0 <= j < i && (#[trigger] names[j])@ == k {
        let j = choose|j: int| 0 <= j < i && (#[trigger] names[j])@ == k;
        lemma_key_found(names, j);
    } else {
        assert(is_first_key(names, k, i));
        lemma_first_key_at(names, k, i);
    }
}

/// What [`first_key`] gives lies within the list and reads the key.
pub proof fn lemma_first_key_in_range(names: Seq<ObjectName>, k: NameView)
    requires
        first_key(names, k) is Some,
    ensures
        0 <= first_key(names, k)->0 < names.len(),
        names[first_key(names, k)->0]@ == k,
{
    let c = choose|c: int| is_first_key(names, k, c);
    assert(is_first_key(names, k, c));
}

/// What [`first_text`] gives lies within the list and holds the text.
pub proof fn lemma_first_text_within(texts: Seq<Seq<char>>, t: Seq<char>)
    requires
        first_text(texts, t) is Some,
    ensures
        0 <= first_text(texts, t)->0 < texts.len(),
        texts[first_text(texts, t)->0] == t,
{
    let c = choose|c: int| is_first_text(texts, t, c);
    assert(is_first_text(texts, t, c));
}

/// The columns of a table by their names; of two of one name, the first.
pub open spec fn columns_of(t: TableDefinition) -> Map<Seq<char>, ColumnDefinition> {
    Map::new(
        |c: Seq<char>| first_text(column_names(t), c) is Some,
        |c: Seq<char>| t.columns[first_text(column_names(t), c)->0],
    )
}

/// The constraints of a table by their names; of two of one name, the
/// first.
pub open spec fn constraints_of(t: TableDefinition) -> Map<Seq<char>, TableConstraint> {
    Map::new(
        |c: Seq<char>| first_text(constraint_names(t), c) is Some,
        |c: Seq<char>| t.constraints[first_text(constraint_names(t), c)->0],
    )
}

/// What a table of a package holds.
pub open spec fn table_state(t: TableDefinition) -> TableState {
    TableState { columns: columns_of(t), constraints: constraints_of(t) }
}

/// What a database holds that a package describes; of two objects of one
/// kind and name, the first.
pub open spec fn state_of(p: Package) -> Database {
    Database {
        extensions: Set::new(|x: Seq<char>| first_text(extension_names(p.extensions@), x) is Some),
        schemas: Set::new(|x: Seq<char>| first_text(schema_names(p.schemas@), x) is Some),
        types: Map::new(
            |k: NameView| first_key(type_names(p.types@), k) is Some,
            |k: NameView| p.types[first_key(type_names(p.types@), k)->0],
        ),
        tables: Map::new(
            |k: NameView| first_key(table_names(p.tables@), k) is Some,
            |k: NameView| table_state(p.tables[first_key(table_names(p.tables@), k)->0]),
        ),
        functions: Map::new(
            |k: NameView| first_key(function_names(p.functions@), k) is Some,
            |k: NameView| p.functions[first_key(function_names(p.functions@), k)->0],
        ),
    }
}

/// The column `have` after the change `change` towards `want`.
pub open spec fn altered(have: ColumnDefinition, want: ColumnDefinition, change: ColumnChange) -> ColumnDefinition {
    match change {
        ColumnChange::Type => ColumnDefinition { sql_type: want.sql_type, ..have },
        ColumnChange::Nullability => ColumnDefinition { not_null: want.not_null, ..have },
        ColumnChange::Default => ColumnDefinition { default: want.default, ..have },
    }
}

/// The database after one change. A change that the database would refuse
/// leaves it as it is: creating what is there, and adding to or altering
/// what is not.
pub open spec fn apply(m: Database, c: ChangeInstruction) -> Database {
    match c {
        ChangeInstruction::RunScript(_) => m,
        ChangeInstruction::EnableExtension(e) => Database { extensions: m.extensions.insert(e.name@), ..m },
        ChangeInstruction::CreateSchema(s) => Database { schemas: m.schemas.insert(s.name@), ..m },
        ChangeInstruction::CreateType(t) => if m.types.dom().contains(t.name@) {
            m
        } else {
            Database { types: m.types.insert(t.name@, *t), ..m }
        },
        ChangeInstruction::AlterType(t) => if m.types.dom().contains(t.name@) {
            Database { types: m.types.insert(t.name@, *t), ..m }
        } else {
            m
        },
        ChangeInstruction::DropType(n) => Database { types: m.types.remove(n@), ..m },
        ChangeInstruction::CreateTable(t) => if m.tables.dom().contains(t.name@) {
            m
        } else {
            Database {
                tables: m.tables.insert(
                    t.name@,
                    TableState { columns: columns_of(*t), constraints: Map::empty() },
                ),
                ..m
            }
        },
        ChangeInstruction::DropTable(n) => Database { tables: m.tables.remove(n@), ..m },
        ChangeInstruction::AddColumn(table, c) => if m.tables.dom().contains(table@)
            && !m.tables[table@].columns.dom().contains(c.name@) {
            Database {
                tables: m.tables.insert(
                    table@,
                    TableState { columns: m.tables[table@].columns.insert(c.name@, *c), ..m.tables[table@] },
                ),
                ..m
            }
        } else {
            m
        },
        ChangeInstruction::AlterColumn(table, c, change) => if m.tables.dom().contains(table@)
            && m.tables[table@].columns.dom().contains(c.name@) {
            Database {
                tables: m.tables.insert(
                    table@,
                    TableState {
                        columns: m.tables[table@].columns.insert(
                            c.name@,
                            altered(m.tables[table@].columns[c.name@], *c, change),
                        ),
                        ..m.tables[table@]
                    },
                ),
                ..m
            }
        } else {
            m
        },
        ChangeInstruction::DropColumn(table, name) => if m.tables.dom().contains(table@) {
            Database {
                tables: m.tables.insert(
                    table@,
                    TableState { columns: m.tables[table@].columns.remove(name@), ..m.tables[table@] },
                ),
                ..m
            }
        } else {
            m
        },
        ChangeInstruction::AddConstraint(table, c) => if m.tables.dom().contains(table@)
            && !m.tables[table@].constraints.dom().contains(c.name_spec()@) {
            Database {
                tables: m.tables.insert(
                    table@,
                    TableState {
                        constraints: m.tables[table@].constraints.insert(c.name_spec()@, *c),
                        ..m.tables[table@]
                    },
                ),
                ..m
            }
        } else {
            m
        },
        ChangeInstruction::DropConstraint(table, name) => if m.tables.dom().contains(table@) {
            Database {
                tables: m.tables.insert(
                    table@,
                    TableState { constraints: m.tables[table@].constraints.remove(name@), ..m.tables[table@] },
                ),
                ..m
            }
        } else {
            m
        },
        ChangeInstruction::CreateOrReplaceFunction(f) => Database {
            functions: m.functions.insert(f.name@, *f),
            ..m
        },
        ChangeInstruction::DropFunction(f) => Database { functions: m.functions.remove(f.name@), ..m },
    }
}

/// The database after the changes, in order.
pub open spec fn run(m: Database, changes: Seq<ChangeInstruction>) -> Database
    decreases changes.len(),
{
    if changes.len() == 0 {
        m
    } else {
        apply(run(m, changes.drop_last()), changes.last())
    }
}

/// Carrying out first `a` and then `b` is carrying out `a + b`.
pub proof fn lemma_run_concat(m: Database, a: Seq<ChangeInstruction>, b: Seq<ChangeInstruction>)
    ensures
        run(m, a + b) == run(run(m, a), b),
    decreases b.len(),
{
    if b.len() == 0 {
        assert(a + b =~= a);
    } else {
        assert((a + b).drop_last() =~= a + b.drop_last());
        lemma_run_concat(m, a, b.drop_last());
    }
}

/// Carrying out nothing changes nothing, and carrying out one change is
/// applying it.
pub proof fn lemma_run_small(m: Database, c: ChangeInstruction)
    ensures
        run(m, Seq::empty()) == m,
        run(m, seq![c]) == apply(m, c),
{
    assert(seq![c].drop_last() =~= Seq::<ChangeInstruction>::empty());
    assert(run(m, Seq::<ChangeInstruction>::empty()) == m);
    assert(seq![c].last() == c);
    assert(run(m, seq![c]) == apply(run(m, seq![c].drop_last()), seq![c].last()));
}

/// The text holds no point.
pub open spec fn dot_free(s: Seq<char>) -> bool {
    forall|i: int| 0 <= i < s.len() ==> s[i] != '.'
}

/// Neither the schema nor the local name holds a point.
pub open spec fn name_plain(n: ObjectName) -> bool {
    &&& dot_free(n.name@)
    &&& n.schema is Some ==> dot_free(n.schema->0@)
}

/// The names of the package are unique, and none of them holds a point:
/// the name of a node then stands for one object only.
pub open spec fn plain(p: Package) -> bool {
    &&& p.names_unique()
    &&& forall|i: int| 0 <= i < p.types.len() ==> name_plain((#[trigger] p.types[i]).name)
    &&& forall|i: int| 0 <= i < p.functions.len() ==> name_plain((#[trigger] p.functions[i]).name)
    &&& forall|i: int| 0 <= i < p.tables.len() ==> name_plain((#[trigger] p.tables[i]).name)
    &&& forall|i: int, j: int|
        0 <= i < p.tables.len() && 0 <= j < p.tables[i].columns.len() ==> dot_free(
            (#[trigger] p.tables[i].columns[j]).name@,
        )
    &&& forall|i: int, j: int|
        0 <= i < p.tables.len() && 0 <= j < p.tables[i].constraints.len() ==> dot_free(
            (#[trigger] p.tables[i].constraints[j]).name_spec()@,
        )
}

/// Two texts with a point before their last parts, which hold none, are
/// equal only if their parts are.
pub proof fn lemma_dot_split(x: Seq<char>, c: Seq<char>, x2: Seq<char>, c2: Seq<char>)
    requires
        dot_free(c),
        dot_free(c2),
        dot(x, c) == dot(x2, c2),
    ensures
        x == x2,
        c == c2,
{
    let s = dot(x, c);
    let t = dot(x2, c2);
    assert(s.len() == x.len() + 1 + c.len());
    assert(t.len() == x2.len() + 1 + c2.len());
    if c.len() < c2.len() {
        let p = x.len() as int;
        assert(s[p] == '.');
        assert(t[p] == c2[p - x2.len() - 1]);
        assert(false);
    }
    if c2.len() < c.len() {
        let p = x2.len() as int;
        assert(t[p] == '.');
        assert(s[p] == c[p - x.len() - 1]);
        assert(false);
    }
    assert(x =~= x2) by {
        assert forall|i: int| 0 <= i < x.len() implies x[i] == x2[i] by {
            assert(s[i] == x[i]);
            assert(t[i] == x2[i]);
        }
    }
    assert(c =~= c2) by {
        assert forall|i: int| 0 <= i < c.len() implies c[i] == c2[i] by {
            assert(s[x.len() + 1 + i] == c[i]);
            assert(t[x2.len() + 1 + i] == c2[i]);
        }
    }
}

/// Two names without points that are written alike read alike.
pub proof fn lemma_text_key(a: ObjectName, b: ObjectName)
    requires
        name_plain(a),
        name_plain(b),
        a.text() == b.text(),
    ensures
        a@ == b@,
{
    match (a.schema, b.schema) {
        (Some(s), Some(t)) => {
            lemma_dot_split(s@, a.name@, t@, b.name@);
        },
        (None, None) => {},
        (Some(s), None) => {
            assert(a.text()[s@.len() as int] == '.');
        },
        (None, Some(t)) => {
            assert(b.text()[t@.len() as int] == '.');
        },
    }
}

/// How a name that reads `k` is written in full.
pub open spec fn key_text(k: NameView) -> Seq<char> {
    match k.schema {
        Some(s) => s + seq!['.'] + k.name,
        None => k.name,
    }
}

/// The node of the given kind for the object that reads `k`.
pub open spec fn node_of(kind: NodeKind, k: NameView) -> NodeId {
    NodeId { kind, name: key_text(k) }
}

/// The node of the given kind for the part `part` of the table that reads
/// `k`.
pub open spec fn part_node(kind: NodeKind, k: NameView, part: Seq<char>) -> NodeId {
    NodeId { kind, name: dot(key_text(k), part) }
}

/// In a list of distinct names, each is first found at its own place by
/// what it reads.
pub proof fn lemma_own_key(names: Seq<ObjectName>, i: int)
    requires
        distinct_names(names),
        0 <= i < names.len(),
    ensures
        first_key(names, names[i]@) == Some(i),
{
    assert forall|j: int| 0 <= j < i implies (#[trigger] names[j])@ != names[i]@ by {
        let a = names[j];
        let b = names[i];
        assert(!a.same(&b));
    }
    assert(is_first_key(names, names[i]@, i));
    lemma_first_key_at(names, names[i]@, i);
}

/// In a list of distinct names without points, each is first found at its
/// own place by how it is written.
pub proof fn lemma_own_text(names: Seq<ObjectName>, i: int)
    requires
        distinct_names(names),
        forall|j: int| 0 <= j < names.len() ==> name_plain(#[trigger] names[j]),
        0 <= i < names.len(),
    ensures
        first_text(names.map_values(|n: ObjectName| n.text()), names[i].text()) == Some(i),
{
    let texts = names.map_values(|n: ObjectName| n.text());
    assert forall|j: int| 0 <= j < i implies texts[j] != texts[i] by {
        let a = names[j];
        let b = names[i];
        assert(!a.same(&b));
        if a.text() == b.text() {
            lemma_text_key(a, b);
        }
    }
    assert(is_first_text(texts, texts[i], i));
    lemma_first_text(texts, texts[i], i);
}

/// A text found among the names in full of the tables is that of the table
/// found.
pub proof fn lemma_table_text(p: Package, t: Seq<char>, i: int)
    requires
        first_text(table_texts(p.tables@), t) == Some(i),
    ensures
        0 <= i < p.tables.len(),
        p.tables[i].name.text() == t,
        key_text(p.tables[i].name@) == t,
{
    lemma_first_text_within(table_texts(p.tables@), t);
}

/// A text found among the names in full of the declared types is that of
/// the type found.
pub proof fn lemma_type_text(p: Package, t: Seq<char>, i: int)
    requires
        first_text(type_texts(p.types@), t) == Some(i),
    ensures
        0 <= i < p.types.len(),
        p.types[i].name.text() == t,
        key_text(p.types[i].name@) == t,
{
    lemma_first_text_within(type_texts(p.types@), t);
}

/// A text found among the names in full of the functions is that of the
/// function found.
pub proof fn lemma_function_text(p: Package, t: Seq<char>, i: int)
    requires
        first_text(function_texts(p.functions@), t) == Some(i),
    ensures
        0 <= i < p.functions.len(),
        p.functions[i].name.text() == t,
        key_text(p.functions[i].name@) == t,
{
    lemma_first_text_within(function_texts(p.functions@), t);
}

/// In a plain package, the column `j` of the table `i` is the one that the
/// name in full of the column stands for.
pub proof fn lemma_column_by_text(p: Package, i: int, j: int)
    requires
        plain(p),
        0 <= i < p.tables.len(),
        0 <= j < p.tables[i].columns.len(),
    ensures
        first_owner(column_texts(p.tables@), dot(p.tables[i].name.text(), p.tables[i].columns[j].name@))
            == Some((i, j)),
{
    let lists = column_texts(p.tables@);
    let t = dot(p.tables[i].name.text(), p.tables[i].columns[j].name@);
    let names = table_names(p.tables@);
    assert forall|k: int| 0 <= k < i implies first_text(#[trigger] lists[k], t) is None by {
        if first_text(lists[k], t) is Some {
            lemma_first_text_within(lists[k], t);
            let m = first_text(lists[k], t)->0;
            assert(lists[k] == column_texts_of(p.tables[k]));
            assert(lists[k][m] == dot(p.tables[k].name.text(), p.tables[k].columns[m].name@));
            assert(dot_free(p.tables[k].columns[m].name@));
            assert(dot_free(p.tables[i].columns[j].name@));
            lemma_dot_split(
                p.tables[k].name.text(),
                p.tables[k].columns[m].name@,
                p.tables[i].name.text(),
                p.tables[i].columns[j].name@,
            );
            assert(name_plain(p.tables[k].name));
            assert(name_plain(p.tables[i].name));
            lemma_text_key(p.tables[k].name, p.tables[i].name);
            assert(names[k].same(&names[i]));
        }
    }
    let own = lists[i];
    assert(own == column_texts_of(p.tables[i]));
    assert forall|m: int| 0 <= m < j implies own[m] != t by {
        if own[m] == t {
            assert(dot_free(p.tables[i].columns[m].name@));
            lemma_dot_split(
                p.tables[i].name.text(),
                p.tables[i].columns[m].name@,
                p.tables[i].name.text(),
                p.tables[i].columns[j].name@,
            );
            let cn = column_names(p.tables[i]);
            assert(cn[m] == cn[j]);
        }
    }
    assert(own[j] == t);
    assert(is_first_text(own, t, j));
    lemma_first_text(own, t, j);
    lemma_first_owner(lists, t, i, j);
}

/// In a plain package, the constraint `j` of the table `i` is the one that
/// the name in full of the constraint stands for.
pub proof fn lemma_constraint_by_text(p: Package, i: int, j: int)
    requires
        plain(p),
        0 <= i < p.tables.len(),
        0 <= j < p.tables[i].constraints.len(),
    ensures
        first_owner(
            constraint_texts(p.tables@),
            dot(p.tables[i].name.text(), p.tables[i].constraints[j].name_spec()@),
        ) == Some((i, j)),
{
    let lists = constraint_texts(p.tables@);
    let t = dot(p.tables[i].name.text(), p.tables[i].constraints[j].name_spec()@);
    let names = table_names(p.tables@);
    assert forall|k: int| 0 <= k < i implies first_text(#[trigger] lists[k], t) is None by {
        if first_text(lists[k], t) is Some {
            lemma_first_text_within(lists[k], t);
            let m = first_text(lists[k], t)->0;
            assert(lists[k] == constraint_texts_of(p.tables[k]));
            assert(lists[k][m] == dot(p.tables[k].name.text(), p.tables[k].constraints[m].name_spec()@));
            assert(dot_free(p.tables[k].constraints[m].name_spec()@));
            assert(dot_free(p.tables[i].constraints[j].name_spec()@));
            lemma_dot_split(
                p.tables[k].name.text(),
                p.tables[k].constraints[m].name_spec()@,
                p.tables[i].name.text(),
                p.tables[i].constraints[j].name_spec()@,
            );
            assert(name_plain(p.tables[k].name));
            assert(name_plain(p.tables[i].name));
            lemma_text_key(p.tables[k].name, p.tables[i].name);
            assert(names[k].same(&names[i]));
        }
    }
    let own = lists[i];
    assert(own == constraint_texts_of(p.tables[i]));
    assert forall|m: int| 0 <= m < j implies own[m] != t by {
        if own[m] == t {
            assert(dot_free(p.tables[i].constraints[m].name_spec()@));
            lemma_dot_split(
                p.tables[i].name.text(),
                p.tables[i].constraints[m].name_spec()@,
                p.tables[i].name.text(),
                p.tables[i].constraints[j].name_spec()@,
            );
            let cn = constraint_names(p.tables[i]);
            assert(cn[m] == cn[j]);
        }
    }
    assert(own[j] == t);
    assert(is_first_text(own, t, j));
    lemma_first_text(own, t, j);
    lemma_first_owner(lists, t, i, j);
}

/// The names in full of a list of names.
pub open spec fn texts_of_names(names: Seq<ObjectName>) -> Seq<Seq<char>> {
    names.map_values(|n: ObjectName| n.text())
}

/// What the names of a list read.
pub open spec fn keys_of(names: Seq<ObjectName>) -> Set<NameView> {
    Set::new(|k: NameView| first_key(names, k) is Some)
}

/// After the drops for the nodes `q`, of the objects `before` of one kind
/// there are left `after`: none was added; those that are declared are all
/// left; and of those that are not declared, none whose node is in `q`.
pub open spec fn dom_kept(
    declared: Seq<ObjectName>,
    before: Set<NameView>,
    after: Set<NameView>,
    q: Seq<NodeId>,
    kind: NodeKind,
) -> bool {
    &&& forall|k: NameView| after.contains(k) ==> before.contains(k)
    &&& forall|k: NameView| before.contains(k) && first_key(declared, k) is Some ==> after.contains(k)
    &&& forall|k: NameView|
        after.contains(k) && first_key(declared, k) is None ==> !q.contains(#[trigger] node_of(kind, k))
}

/// What is left after the drop for one more node of the kind: the object
/// that the node stands for goes if it is not declared.
pub open spec fn drop_one(declared: Seq<ObjectName>, live: Seq<ObjectName>, after: Set<NameView>, n: NodeId) -> Set<
    NameView,
> {
    match first_text(texts_of_names(live), n.name) {
        Some(i) => if first_key(declared, live[i]@) is None {
            after.remove(live[i]@)
        } else {
            after
        },
        None => after,
    }
}

/// In a list of distinct names without points, a name found by what it
/// reads is found by how it is written, at the same place.
pub proof fn lemma_key_by_text(names: Seq<ObjectName>, k: NameView)
    requires
        distinct_names(names),
        forall|j: int| 0 <= j < names.len() ==> name_plain(#[trigger] names[j]),
        first_key(names, k) is Some,
    ensures
        first_text(texts_of_names(names), key_text(k)) == first_key(names, k),
{
    lemma_first_key_in_range(names, k);
    lemma_own_text(names, first_key(names, k)->0);
}

/// The drop for one more node of the kind keeps what holds after the
/// drops before it.
pub proof fn lemma_dom_kept_step(
    declared: Seq<ObjectName>,
    live: Seq<ObjectName>,
    after: Set<NameView>,
    q: Seq<NodeId>,
    kind: NodeKind,
    n: NodeId,
)
    requires
        distinct_names(live),
        forall|j: int| 0 <= j < live.len() ==> name_plain(#[trigger] live[j]),
        dom_kept(declared, keys_of(live), after, q, kind),
        n.kind == kind,
    ensures
        dom_kept(declared, keys_of(live), drop_one(declared, live, after, n), seq![n] + q, kind),
{
    let before = keys_of(live);
    let next = drop_one(declared, live, after, n);
    let q2 = seq![n] + q;
    let texts = texts_of_names(live);
    assert forall|k: NameView| next.contains(k) && first_key(declared, k) is None implies !q2.contains(
        #[trigger] node_of(kind, k),
    ) by {
        assert(after.contains(k));
        assert(!q.contains(node_of(kind, k)));
        if q2.contains(node_of(kind, k)) {
            let at = choose|at: int| 0 <= at < q2.len() && q2[at] == node_of(kind, k);
            if at > 0 {
                assert(q[at - 1] == node_of(kind, k));
                assert(false);
            }
            assert(n == node_of(kind, k));
            assert(before.contains(k));
            lemma_key_by_text(live, k);
            lemma_first_key_in_range(live, k);
            let i = first_key(live, k)->0;
            assert(first_text(texts, n.name) == Some(i));
            assert(live[i]@ == k);
            assert(false);
        }
    }
    assert forall|k: NameView| before.contains(k) && first_key(declared, k) is Some implies next.contains(
        k,
    ) by {
        assert(after.contains(k));
    }
}

/// The drop for a node of another kind changes nothing of the kind, and
/// what holds after the drops before it holds on.
pub proof fn lemma_dom_kept_other(
    declared: Seq<ObjectName>,
    before: Set<NameView>,
    after: Set<NameView>,
    q: Seq<NodeId>,
    kind: NodeKind,
    n: NodeId,
)
    requires
        dom_kept(declared, before, after, q, kind),
        n.kind != kind,
    ensures
        dom_kept(declared, before, after, seq![n] + q, kind),
{
    let q2 = seq![n] + q;
    assert forall|k: NameView| after.contains(k) && first_key(declared, k) is None implies !q2.contains(
        #[trigger] node_of(kind, k),
    ) by {
        assert(!q.contains(node_of(kind, k)));
        if q2.contains(node_of(kind, k)) {
            let at = choose|at: int| 0 <= at < q2.len() && q2[at] == node_of(kind, k);
            if at > 0 {
                assert(q[at - 1] == node_of(kind, k));
            }
        }
    }
}

/// The table `t` declares a constraint of the name `x` that is the same
/// as `have`.
pub open spec fn declared_same(t: TableDefinition, x: Seq<char>, have: TableConstraint) -> bool {
    first_text(constraint_names(t), x) matches Some(j) && constraint_same(t.constraints[j], have)
}

/// After the drops for the nodes `q`, of what the table that reads `k`
/// held `before` there is left `after`. A table that is not declared is as
/// it was. Of a declared table nothing was added or altered; its declared
/// columns are all left, and so are its constraints that are declared the
/// same; and of what else there is left, no node is in `q`.
pub open spec fn table_kept(d: Package, before: TableState, after: TableState, q: Seq<NodeId>, k: NameView) -> bool {
    match first_key(table_names(d.tables@), k) {
        None => after == before,
        Some(i) => {
            let t = d.tables[i];
            &&& forall|c: Seq<char>| #[trigger]
                after.columns.dom().contains(c) ==> before.columns.dom().contains(c) && after.columns[c]
                    == before.columns[c]
            &&& forall|c: Seq<char>| #[trigger]
                before.columns.dom().contains(c) && first_text(column_names(t), c) is Some
                    ==> after.columns.dom().contains(c)
            &&& forall|c: Seq<char>|
                after.columns.dom().contains(c) && first_text(column_names(t), c) is None ==> !q.contains(
                    #[trigger] part_node(NodeKind::Column, k, c),
                )
            &&& forall|x: Seq<char>| #[trigger]
                after.constraints.dom().contains(x) ==> before.constraints.dom().contains(x)
                    && after.constraints[x] == before.constraints[x]
            &&& forall|x: Seq<char>| #[trigger]
                before.constraints.dom().contains(x) && declared_same(t, x, before.constraints[x])
                    ==> after.constraints.dom().contains(x)
            &&& forall|x: Seq<char>|
                after.constraints.dom().contains(x) && !declared_same(t, x, after.constraints[x])
                    ==> !q.contains(#[trigger] part_node(NodeKind::Constraint, k, x))
        },
    }
}

/// What holds of a database after the drops for the nodes `q` were
/// carried out on what the package `l` describes.
pub open spec fn drops_done(d: Package, l: Package, m: Database, q: Seq<NodeId>) -> bool {
    let m0 = state_of(l);
    &&& m.extensions == m0.extensions
    &&& m.schemas == m0.schemas
    &&& dom_kept(type_names(d.types@), m0.types.dom(), m.types.dom(), q, NodeKind::Type)
    &&& forall|k: NameView| #[trigger] m.types.dom().contains(k) ==> m.types[k] == m0.types[k]
    &&& dom_kept(function_names(d.functions@), m0.functions.dom(), m.functions.dom(), q, NodeKind::Function)
    &&& forall|k: NameView| #[trigger] m.functions.dom().contains(k) ==> m.functions[k] == m0.functions[k]
    &&& dom_kept(table_names(d.tables@), m0.tables.dom(), m.tables.dom(), q, NodeKind::Table)
    &&& forall|k: NameView| #[trigger]
        m.tables.dom().contains(k) ==> table_kept(d, m0.tables[k], m.tables[k], q, k)
}

/// A node stands in a list with one more node before it if it is that
/// node or stands in the list.
pub proof fn lemma_contains_cons(n: NodeId, q: Seq<NodeId>, x: NodeId)
    ensures
        (seq![n] + q).contains(x) <==> (x == n || q.contains(x)),
{
    let q2 = seq![n] + q;
    if q2.contains(x) {
        let at = choose|at: int| 0 <= at < q2.len() && q2[at] == x;
        if at > 0 {
            assert(q[at - 1] == x);
        }
    }
    if x == n {
        assert(q2[0] == x);
    }
    if q.contains(x) {
        let at = choose|at: int| 0 <= at < q.len() && q[at] == x;
        assert(q2[at + 1] == x);
    }
}

/// What a table of a package holds is found by the names of its columns
/// and constraints.
pub proof fn lemma_table_state(t: TableDefinition)
    ensures
        forall|c: Seq<char>| #[trigger]
            columns_of(t).dom().contains(c) <==> first_text(column_names(t), c) is Some,
        forall|c: Seq<char>| #[trigger]
            columns_of(t).dom().contains(c) ==> columns_of(t)[c] == t.columns[first_text(
                column_names(t),
                c,
            )->0],
        forall|x: Seq<char>| #[trigger]
            constraints_of(t).dom().contains(x) <==> first_text(constraint_names(t), x) is Some,
        forall|x: Seq<char>| #[trigger]
            constraints_of(t).dom().contains(x) ==> constraints_of(t)[x] == t.constraints[first_text(
                constraint_names(t),
                x,
            )->0],
{
}

/// The tables that a package describes are found by what their names
/// read.
pub proof fn lemma_state_tables(p: Package)
    ensures
        forall|k: NameView| #[trigger]
            state_of(p).tables.dom().contains(k) <==> first_key(table_names(p.tables@), k) is Some,
        forall|k: NameView| #[trigger]
            state_of(p).tables.dom().contains(k) ==> state_of(p).tables[k] == table_state(
                p.tables[first_key(table_names(p.tables@), k)->0],
            ),
        forall|k: NameView| #[trigger]
            state_of(p).types.dom().contains(k) <==> first_key(type_names(p.types@), k) is Some,
        forall|k: NameView| #[trigger]
            state_of(p).types.dom().contains(k) ==> state_of(p).types[k] == p.types[first_key(
                type_names(p.types@),
                k,
            )->0],
        forall|k: NameView| #[trigger]
            state_of(p).functions.dom().contains(k) <==> first_key(function_names(p.functions@), k) is Some,
        forall|k: NameView| #[trigger]
            state_of(p).functions.dom().contains(k) ==> state_of(p).functions[k] == p.functions[first_key(
                function_names(p.functions@),
                k,
            )->0],
        state_of(p).types.dom() == keys_of(type_names(p.types@)),
        state_of(p).functions.dom() == keys_of(function_names(p.functions@)),
        state_of(p).tables.dom() == keys_of(table_names(p.tables@)),
{
    assert(state_of(p).types.dom() =~= keys_of(type_names(p.types@)));
    assert(state_of(p).functions.dom() =~= keys_of(function_names(p.functions@)));
    assert(state_of(p).tables.dom() =~= keys_of(table_names(p.tables@)));
}

/// Before any drop, the database is what the package describes.
pub proof fn lemma_drops_start(d: Package, l: Package)
    ensures
        drops_done(d, l, state_of(l), Seq::empty()),
{
    let m0 = state_of(l);
    let none = Seq::<NodeId>::empty();
    assert forall|k: NameView| #[trigger] m0.tables.dom().contains(k) implies table_kept(
        d,
        m0.tables[k],
        m0.tables[k],
        none,
        k,
    ) by {}
}

/// A node of another kind than those of columns and constraints adds
/// nothing to what is asked of the parts of a table.
proof fn lemma_table_kept_other(d: Package, before: TableState, after: TableState, q: Seq<NodeId>, k: NameView, n: NodeId)
    requires
        table_kept(d, before, after, q, k),
        n.kind != NodeKind::Column,
        n.kind != NodeKind::Constraint,
    ensures
        table_kept(d, before, after, seq![n] + q, k),
{
    let q2 = seq![n] + q;
    match first_key(table_names(d.tables@), k) {
        None => {},
        Some(i) => {
            let t = d.tables[i];
            assert forall|c: Seq<char>|
                after.columns.dom().contains(c) && first_text(column_names(t), c) is None implies !q2.contains(
                #[trigger] part_node(NodeKind::Column, k, c),
            ) by {
                lemma_contains_cons(n, q, part_node(NodeKind::Column, k, c));
            }
            assert forall|x: Seq<char>|
                after.constraints.dom().contains(x) && !declared_same(
                    t,
                    x,
                    after.constraints[x],
                ) implies !q2.contains(#[trigger] part_node(NodeKind::Constraint, k, x)) by {
                lemma_contains_cons(n, q, part_node(NodeKind::Constraint, k, x));
            }
        },
    }
}

/// The drop for a node of a declared type keeps what holds after the drops
/// before it.
proof fn lemma_drop_type_node(d: Package, l: Package, m: Database, q: Seq<NodeId>, n: NodeId)
    requires
        plain(d),
        plain(l),
        drops_done(d, l, m, q),
        n.kind == NodeKind::Type,
    ensures
        drops_done(d, l, run(m, node_drops(d, l, n)), seq![n] + q),
{
    let m0 = state_of(l);
    lemma_state_tables(l);
    let q2 = seq![n] + q;
    let nd = node_drops(d, l, n);
    let m2 = run(m, nd);
    let declared = type_names(d.types@);
    let live = type_names(l.types@);
    assert(texts_of_names(live) =~= type_texts(l.types@));
    assert forall|j: int| 0 <= j < live.len() implies name_plain(#[trigger] live[j]) by {
        assert(name_plain(l.types[j].name));
    }
    match first_text(type_texts(l.types@), n.name) {
        Some(i) => {
            lemma_type_text(l, n.name, i);
            lemma_first_key(declared, l.types[i].name);
            assert(live[i] == l.types[i].name);
            if first_name(declared, l.types[i].name) is None {
                let c = ChangeInstruction::DropType(&l.types[i].name);
                assert(nd =~= seq![c]);
                lemma_run_small(m, c);
            } else {
                assert(nd =~= Seq::<ChangeInstruction>::empty());
                lemma_run_small(m, ChangeInstruction::DropType(&l.types[i].name));
            }
        },
        None => {
            assert(nd =~= Seq::<ChangeInstruction>::empty());
            assert(run(m, nd) == m);
        },
    }
    assert(m2.types.dom() =~= drop_one(declared, live, m.types.dom(), n));
    lemma_dom_kept_step(declared, live, m.types.dom(), q, NodeKind::Type, n);
    lemma_dom_kept_other(
        function_names(d.functions@),
        m0.functions.dom(),
        m.functions.dom(),
        q,
        NodeKind::Function,
        n,
    );
    lemma_dom_kept_other(table_names(d.tables@), m0.tables.dom(), m.tables.dom(), q, NodeKind::Table, n);
    assert forall|k: NameView| #[trigger] m2.tables.dom().contains(k) implies table_kept(
        d,
        m0.tables[k],
        m2.tables[k],
        q2,
        k,
    ) by {
        lemma_table_kept_other(d, m0.tables[k], m.tables[k], q, k, n);
    }
}

/// The drop for a node of a function keeps what holds after the drops
/// before it.
proof fn lemma_drop_function_node(d: Package, l: Package, m: Database, q: Seq<NodeId>, n: NodeId)
    requires
        plain(d),
        plain(l),
        drops_done(d, l, m, q),
        n.kind == NodeKind::Function,
    ensures
        drops_done(d, l, run(m, node_drops(d, l, n)), seq![n] + q),
{
    let m0 = state_of(l);
    lemma_state_tables(l);
    let q2 = seq![n] + q;
    let nd = node_drops(d, l, n);
    let m2 = run(m, nd);
    let declared = function_names(d.functions@);
    let live = function_names(l.functions@);
    assert(texts_of_names(live) =~= function_texts(l.functions@));
    assert forall|j: int| 0 <= j < live.len() implies name_plain(#[trigger] live[j]) by {
        assert(name_plain(l.functions[j].name));
    }
    match first_text(function_texts(l.functions@), n.name) {
        Some(i) => {
            lemma_function_text(l, n.name, i);
            lemma_first_key(declared, l.functions[i].name);
            assert(live[i] == l.functions[i].name);
            if first_name(declared, l.functions[i].name) is None {
                let c = ChangeInstruction::DropFunction(&l.functions[i]);
                assert(nd =~= seq![c]);
                lemma_run_small(m, c);
            } else {
                assert(nd =~= Seq::<ChangeInstruction>::empty());
                lemma_run_small(m, ChangeInstruction::DropFunction(&l.functions[i]));
            }
        },
        None => {
            assert(nd =~= Seq::<ChangeInstruction>::empty());
            assert(run(m, nd) == m);
        },
    }
    assert(m2.functions.dom() =~= drop_one(declared, live, m.functions.dom(), n));
    lemma_dom_kept_step(declared, live, m.functions.dom(), q, NodeKind::Function, n);
    lemma_dom_kept_other(type_names(d.types@), m0.types.dom(), m.types.dom(), q, NodeKind::Type, n);
    lemma_dom_kept_other(table_names(d.tables@), m0.tables.dom(), m.tables.dom(), q, NodeKind::Table, n);
    assert forall|k: NameView| #[trigger] m2.tables.dom().contains(k) implies table_kept(
        d,
        m0.tables[k],
        m2.tables[k],
        q2,
        k,
    ) by {
        lemma_table_kept_other(d, m0.tables[k], m.tables[k], q, k, n);
    }
}

/// The drop for a node of a table keeps what holds after the drops before
/// it.
proof fn lemma_drop_table_node(d: Package, l: Package, m: Database, q: Seq<NodeId>, n: NodeId)
    requires
        plain(d),
        plain(l),
        drops_done(d, l, m, q),
        n.kind == NodeKind::Table,
    ensures
        drops_done(d, l, run(m, node_drops(d, l, n)), seq![n] + q),
{
    let m0 = state_of(l);
    lemma_state_tables(l);
    let q2 = seq![n] + q;
    let nd = node_drops(d, l, n);
    let m2 = run(m, nd);
    let declared = table_names(d.tables@);
    let live = table_names(l.tables@);
    assert(texts_of_names(live) =~= table_texts(l.tables@));
    assert forall|j: int| 0 <= j < live.len() implies name_plain(#[trigger] live[j]) by {
        assert(name_plain(l.tables[j].name));
    }
    match first_text(table_texts(l.tables@), n.name) {
        Some(i) => {
            lemma_table_text(l, n.name, i);
            lemma_first_key(declared, l.tables[i].name);
            assert(live[i] == l.tables[i].name);
            if first_name(declared, l.tables[i].name) is None {
                let c = ChangeInstruction::DropTable(&l.tables[i].name);
                assert(nd =~= seq![c]);
                lemma_run_small(m, c);
            } else {
                assert(nd =~= Seq::<ChangeInstruction>::empty());
                lemma_run_small(m, ChangeInstruction::DropTable(&l.tables[i].name));
            }
        },
        None => {
            assert(nd =~= Seq::<ChangeInstruction>::empty());
            assert(run(m, nd) == m);
        },
    }
    assert(m2.tables.dom() =~= drop_one(declared, live, m.tables.dom(), n));
    lemma_dom_kept_step(declared, live, m.tables.dom(), q, NodeKind::Table, n);
    lemma_dom_kept_other(type_names(d.types@), m0.types.dom(), m.types.dom(), q, NodeKind::Type, n);
    lemma_dom_kept_other(
        function_names(d.functions@),
        m0.functions.dom(),
        m.functions.dom(),
        q,
        NodeKind::Function,
        n,
    );
    assert forall|k: NameView| #[trigger] m2.tables.dom().contains(k) implies table_kept(
        d,
        m0.tables[k],
        m2.tables[k],
        q2,
        k,
    ) by {
        assert(m.tables.dom().contains(k));
        assert(m2.tables[k] == m.tables[k]);
        lemma_table_kept_other(d, m0.tables[k], m.tables[k], q, k, n);
    }
}

/// The drop for a node of no object of a package changes nothing, and
/// what holds after the drops before it holds on.
proof fn lemma_drop_other_node(d: Package, l: Package, m: Database, q: Seq<NodeId>, n: NodeId)
    requires
        drops_done(d, l, m, q),
        n.kind == NodeKind::Schema || n.kind == NodeKind::Extension,
    ensures
        drops_done(d, l, run(m, node_drops(d, l, n)), seq![n] + q),
{
    let m0 = state_of(l);
    let q2 = seq![n] + q;
    assert(node_drops(d, l, n) =~= Seq::<ChangeInstruction>::empty());
    assert(run(m, node_drops(d, l, n)) == m);
    lemma_dom_kept_other(type_names(d.types@), m0.types.dom(), m.types.dom(), q, NodeKind::Type, n);
    lemma_dom_kept_other(
        function_names(d.functions@),
        m0.functions.dom(),
        m.functions.dom(),
        q,
        NodeKind::Function,
        n,
    );
    lemma_dom_kept_other(table_names(d.tables@), m0.tables.dom(), m.tables.dom(), q, NodeKind::Table, n);
    assert forall|k: NameView| #[trigger] m.tables.dom().contains(k) implies table_kept(
        d,
        m0.tables[k],
        m.tables[k],
        q2,
        k,
    ) by {
        lemma_table_kept_other(d, m0.tables[k], m.tables[k], q, k, n);
    }
}

/// A column that a table of the database holds, where the database is
/// what a plain package describes, is the one that its name in full stands
/// for.
proof fn lemma_live_column(l: Package, k: NameView, c: Seq<char>)
    requires
        plain(l),
        state_of(l).tables.dom().contains(k),
        state_of(l).tables[k].columns.dom().contains(c),
    ensures
        first_key(table_names(l.tables@), k) is Some,
        first_text(column_names(l.tables[first_key(table_names(l.tables@), k)->0]), c) is Some,
        first_owner(column_texts(l.tables@), dot(key_text(k), c)) == Some(
            (
                first_key(table_names(l.tables@), k)->0,
                first_text(column_names(l.tables[first_key(table_names(l.tables@), k)->0]), c)->0,
            ),
        ),
        l.tables[first_key(table_names(l.tables@), k)->0].name@ == k,
        l.tables[first_key(table_names(l.tables@), k)->0].columns[first_text(
            column_names(l.tables[first_key(table_names(l.tables@), k)->0]),
            c,
        )->0].name@ == c,
{
    lemma_state_tables(l);
    let i = first_key(table_names(l.tables@), k)->0;
    lemma_first_key_in_range(table_names(l.tables@), k);
    lemma_table_state(l.tables[i]);
    let j = first_text(column_names(l.tables[i]), c)->0;
    lemma_first_text_within(column_names(l.tables[i]), c);
    lemma_column_by_text(l, i, j);
}

/// A constraint that a table of the database holds, where the database is
/// what a plain package describes, is the one that its name in full stands
/// for.
proof fn lemma_live_constraint(l: Package, k: NameView, x: Seq<char>)
    requires
        plain(l),
        state_of(l).tables.dom().contains(k),
        state_of(l).tables[k].constraints.dom().contains(x),
    ensures
        first_key(table_names(l.tables@), k) is Some,
        first_text(constraint_names(l.tables[first_key(table_names(l.tables@), k)->0]), x) is Some,
        first_owner(constraint_texts(l.tables@), dot(key_text(k), x)) == Some(
            (
                first_key(table_names(l.tables@), k)->0,
                first_text(constraint_names(l.tables[first_key(table_names(l.tables@), k)->0]), x)->0,
            ),
        ),
        l.tables[first_key(table_names(l.tables@), k)->0].name@ == k,
        l.tables[first_key(table_names(l.tables@), k)->0].constraints[first_text(
            constraint_names(l.tables[first_key(table_names(l.tables@), k)->0]),
            x,
        )->0].name_spec()@ == x,
        state_of(l).tables[k].constraints[x] == l.tables[first_key(
            table_names(l.tables@),
            k,
        )->0].constraints[first_text(
            constraint_names(l.tables[first_key(table_names(l.tables@), k)->0]),
            x,
        )->0],
{
    lemma_state_tables(l);
    let i = first_key(table_names(l.tables@), k)->0;
    lemma_first_key_in_range(table_names(l.tables@), k);
    lemma_table_state(l.tables[i]);
    let j = first_text(constraint_names(l.tables[i]), x)->0;
    lemma_first_text_within(constraint_names(l.tables[i]), x);
    lemma_constraint_by_text(l, i, j);
}

/// The drop for a node of a column keeps what holds after the drops
/// before it.
proof fn lemma_drop_column_node(d: Package, l: Package, m: Database, q: Seq<NodeId>, n: NodeId)
    requires
        plain(d),
        plain(l),
        drops_done(d, l, m, q),
        n.kind == NodeKind::Column,
    ensures
        drops_done(d, l, run(m, node_drops(d, l, n)), seq![n] + q),
{
    let m0 = state_of(l);
    lemma_state_tables(l);
    let q2 = seq![n] + q;
    let nd = node_drops(d, l, n);
    let m2 = run(m, nd);
    let declared = table_names(d.tables@);
    lemma_dom_kept_other(type_names(d.types@), m0.types.dom(), m.types.dom(), q, NodeKind::Type, n);
    lemma_dom_kept_other(
        function_names(d.functions@),
        m0.functions.dom(),
        m.functions.dom(),
        q,
        NodeKind::Function,
        n,
    );
    lemma_dom_kept_other(declared, m0.tables.dom(), m.tables.dom(), q, NodeKind::Table, n);
    let owner = first_owner(column_texts(l.tables@), n.name);
    let dropped = match owner {
        Some((i, j)) => first_name(declared, l.tables[i].name) is Some && first_text(
            column_names(d.tables[first_name(declared, l.tables[i].name)->0]),
            l.tables[i].columns[j].name@,
        ) is None,
        None => false,
    };
    if owner is Some {
        let (i, j) = owner->0;
        lemma_owner_in_range(column_texts(l.tables@), n.name, i, j);
        assert(column_texts(l.tables@)[i] == column_texts_of(l.tables[i]));
        lemma_first_key(declared, l.tables[i].name);
        let c = ChangeInstruction::DropColumn(&l.tables[i].name, &l.tables[i].columns[j].name);
        lemma_run_small(m, c);
        if dropped {
            assert(nd =~= seq![c]);
            assert(m0.tables.dom().contains(l.tables[i].name@)) by {
                lemma_key_found(table_names(l.tables@), i);
            }
            assert(m.tables.dom().contains(l.tables[i].name@));
        } else {
            assert(nd =~= Seq::<ChangeInstruction>::empty());
        }
    } else {
        assert(nd =~= Seq::<ChangeInstruction>::empty());
        assert(run(m, nd) == m);
    }
    assert(m2.types == m.types);
    assert(m2.functions == m.functions);
    assert(m2.tables.dom() =~= m.tables.dom());
    assert forall|k: NameView| #[trigger] m2.tables.dom().contains(k) implies table_kept(
        d,
        m0.tables[k],
        m2.tables[k],
        q2,
        k,
    ) by {
        let before = m0.tables[k];
        let mid = m.tables[k];
        let after = m2.tables[k];
        assert(table_kept(d, before, mid, q, k));
        match first_key(declared, k) {
            None => {
                if dropped {
                    let (i, j) = owner->0;
                    assert(l.tables[i].name@ != k);
                }
                assert(after == mid);
            },
            Some(ki) => {
                let t = d.tables[ki];
                assert forall|c: Seq<char>|
                    after.columns.dom().contains(c) && first_text(
                        column_names(t),
                        c,
                    ) is None implies !q2.contains(#[trigger] part_node(NodeKind::Column, k, c)) by {
                    assert(mid.columns.dom().contains(c));
                    assert(!q.contains(part_node(NodeKind::Column, k, c)));
                    lemma_contains_cons(n, q, part_node(NodeKind::Column, k, c));
                    if part_node(NodeKind::Column, k, c) == n {
                        assert(before.columns.dom().contains(c));
                        lemma_live_column(l, k, c);
                        let i = first_key(table_names(l.tables@), k)->0;
                        let j = first_text(column_names(l.tables[i]), c)->0;
                        assert(owner == Some((i, j)));
                        lemma_first_key(declared, l.tables[i].name);
                        assert(dropped);
                        assert(!after.columns.dom().contains(c));
                    }
                }
                assert forall|x: Seq<char>|
                    after.constraints.dom().contains(x) && !declared_same(
                        t,
                        x,
                        after.constraints[x],
                    ) implies !q2.contains(#[trigger] part_node(NodeKind::Constraint, k, x)) by {
                    lemma_contains_cons(n, q, part_node(NodeKind::Constraint, k, x));
                }
                assert forall|c: Seq<char>| #[trigger]
                    before.columns.dom().contains(c) && first_text(
                        column_names(t),
                        c,
                    ) is Some implies after.columns.dom().contains(c) by {
                    assert(mid.columns.dom().contains(c));
                    if dropped {
                        let (i, j) = owner->0;
                        if l.tables[i].name@ == k {
                            assert(first_name(declared, l.tables[i].name) == Some(ki));
                        }
                    }
                }
            },
        }
    }
}

/// The drop for a node of a constraint keeps what holds after the drops
/// before it.
proof fn lemma_drop_constraint_node(d: Package, l: Package, m: Database, q: Seq<NodeId>, n: NodeId)
    requires
        plain(d),
        plain(l),
        drops_done(d, l, m, q),
        n.kind == NodeKind::Constraint,
    ensures
        drops_done(d, l, run(m, node_drops(d, l, n)), seq![n] + q),
{
    let m0 = state_of(l);
    lemma_state_tables(l);
    let q2 = seq![n] + q;
    let nd = node_drops(d, l, n);
    let m2 = run(m, nd);
    let declared = table_names(d.tables@);
    lemma_dom_kept_other(type_names(d.types@), m0.types.dom(), m.types.dom(), q, NodeKind::Type, n);
    lemma_dom_kept_other(
        function_names(d.functions@),
        m0.functions.dom(),
        m.functions.dom(),
        q,
        NodeKind::Function,
        n,
    );
    lemma_dom_kept_other(declared, m0.tables.dom(), m.tables.dom(), q, NodeKind::Table, n);
    let owner = first_owner(constraint_texts(l.tables@), n.name);
    let dropped = match owner {
        Some((i, j)) => first_name(declared, l.tables[i].name) is Some && !declared_same(
            d.tables[first_name(declared, l.tables[i].name)->0],
            l.tables[i].constraints[j].name_spec()@,
            l.tables[i].constraints[j],
        ),
        None => false,
    };
    if owner is Some {
        let (i, j) = owner->0;
        lemma_owner_in_range(constraint_texts(l.tables@), n.name, i, j);
        assert(constraint_texts(l.tables@)[i] == constraint_texts_of(l.tables[i]));
        lemma_first_key(declared, l.tables[i].name);
        let have = l.tables[i].constraints[j];
        let c = ChangeInstruction::DropConstraint(&l.tables[i].name, &have.name_spec());
        lemma_run_small(m, c);
        if dropped {
            assert(nd =~= seq![c]);
            assert(m0.tables.dom().contains(l.tables[i].name@)) by {
                lemma_key_found(table_names(l.tables@), i);
            }
            assert(m.tables.dom().contains(l.tables[i].name@));
        } else {
            assert(nd =~= Seq::<ChangeInstruction>::empty());
        }
    } else {
        assert(nd =~= Seq::<ChangeInstruction>::empty());
        assert(run(m, nd) == m);
    }
    assert(m2.types == m.types);
    assert(m2.functions == m.functions);
    assert(m2.tables.dom() =~= m.tables.dom());
    assert forall|k: NameView| #[trigger] m2.tables.dom().contains(k) implies table_kept(
        d,
        m0.tables[k],
        m2.tables[k],
        q2,
        k,
    ) by {
        let before = m0.tables[k];
        let mid = m.tables[k];
        let after = m2.tables[k];
        assert(table_kept(d, before, mid, q, k));
        match first_key(declared, k) {
            None => {
                if dropped {
                    let (i, j) = owner->0;
                    assert(l.tables[i].name@ != k);
                }
                assert(after == mid);
            },
            Some(ki) => {
                let t = d.tables[ki];
                assert forall|c: Seq<char>|
                    after.columns.dom().contains(c) && first_text(
                        column_names(t),
                        c,
                    ) is None implies !q2.contains(#[trigger] part_node(NodeKind::Column, k, c)) by {
                    lemma_contains_cons(n, q, part_node(NodeKind::Column, k, c));
                }
                assert forall|x: Seq<char>|
                    after.constraints.dom().contains(x) && !declared_same(
                        t,
                        x,
                        after.constraints[x],
                    ) implies !q2.contains(#[trigger] part_node(NodeKind::Constraint, k, x)) by {
                    assert(mid.constraints.dom().contains(x));
                    assert(after.constraints[x] == mid.constraints[x]);
                    assert(!q.contains(part_node(NodeKind::Constraint, k, x)));
                    lemma_contains_cons(n, q, part_node(NodeKind::Constraint, k, x));
                    if part_node(NodeKind::Constraint, k, x) == n {
                        assert(before.constraints.dom().contains(x));
                        lemma_live_constraint(l, k, x);
                        let i = first_key(table_names(l.tables@), k)->0;
                        let j = first_text(constraint_names(l.tables[i]), x)->0;
                        assert(owner == Some((i, j)));
                        lemma_first_key(declared, l.tables[i].name);
                        assert(mid.constraints[x] == before.constraints[x]);
                        assert(dropped);
                        assert(!after.constraints.dom().contains(x));
                    }
                }
                assert forall|x: Seq<char>| #[trigger]
                    before.constraints.dom().contains(x) && declared_same(
                        t,
                        x,
                        before.constraints[x],
                    ) implies after.constraints.dom().contains(x) by {
                    assert(mid.constraints.dom().contains(x));
                    if dropped {
                        let (i, j) = owner->0;
                        if l.tables[i].name@ == k && l.tables[i].constraints[j].name_spec()@ == x {
                            assert(first_name(declared, l.tables[i].name) == Some(ki));
                            lemma_live_constraint(l, k, x);
                            lemma_key_found(table_names(l.tables@), i);
                            lemma_own_key_table(l, i);
                            lemma_own_text_first_constraint(l, i, j);
                        }
                    }
                }
            },
        }
    }
}

/// In a plain package, a table is first found at its own place.
proof fn lemma_own_key_table(p: Package, i: int)
    requires
        plain(p),
        0 <= i < p.tables.len(),
    ensures
        first_key(table_names(p.tables@), p.tables[i].name@) == Some(i),
{
    lemma_own_key(table_names(p.tables@), i);
}

/// In a plain package, a constraint of a table is first found at its own
/// place among the constraints of the table.
proof fn lemma_own_text_first_constraint(p: Package, i: int, j: int)
    requires
        plain(p),
        0 <= i < p.tables.len(),
        0 <= j < p.tables[i].constraints.len(),
    ensures
        first_text(constraint_names(p.tables[i]), p.tables[i].constraints[j].name_spec()@) == Some(j),
{
    crate::model::laws::lemma_own_text_first(constraint_names(p.tables[i]), j);
}

/// In a plain package, a column of a table is first found at its own place
/// among the columns of the table.
proof fn lemma_own_text_first_column(p: Package, i: int, j: int)
    requires
        plain(p),
        0 <= i < p.tables.len(),
        0 <= j < p.tables[i].columns.len(),
    ensures
        first_text(column_names(p.tables[i]), p.tables[i].columns[j].name@) == Some(j),
{
    crate::model::laws::lemma_own_text_first(column_names(p.tables[i]), j);
}

/// What holds after the drops of a plan were carried out on what the
/// package `l` describes.
pub proof fn lemma_drops_run(d: Package, l: Package, order: Seq<NodeId>)
    requires
        plain(d),
        plain(l),
    ensures
        drops_done(d, l, run(state_of(l), drops(d, l, order)), order),
    decreases order.len(),
{
    if order.len() == 0 {
        lemma_drops_start(d, l);
        assert(order =~= Seq::<NodeId>::empty());
    } else {
        let rest = order.drop_first();
        let n = order[0];
        lemma_drops_run(d, l, rest);
        let m = run(state_of(l), drops(d, l, rest));
        lemma_run_concat(state_of(l), drops(d, l, rest), node_drops(d, l, n));
        assert(seq![n] + rest =~= order);
        match n.kind {
            NodeKind::Type => lemma_drop_type_node(d, l, m, rest, n),
            NodeKind::Table => lemma_drop_table_node(d, l, m, rest, n),
            NodeKind::Column => lemma_drop_column_node(d, l, m, rest, n),
            NodeKind::Constraint => lemma_drop_constraint_node(d, l, m, rest, n),
            NodeKind::Function => lemma_drop_function_node(d, l, m, rest, n),
            _ => lemma_drop_other_node(d, l, m, rest, n),
        }
    }
}

/// A node stands in a list with one more node behind it if it is that
/// node or stands in the list.
pub proof fn lemma_contains_push(q: Seq<NodeId>, n: NodeId, x: NodeId)
    ensures
        q.push(n).contains(x) <==> (x == n || q.contains(x)),
{
    let q2 = q.push(n);
    if q2.contains(x) {
        let at = choose|at: int| 0 <= at < q2.len() && q2[at] == x;
        if at < q.len() {
            assert(q[at] == x);
        }
    }
    if x == n {
        assert(q2[q.len() as int] == x);
    }
    if q.contains(x) {
        let at = choose|at: int| 0 <= at < q.len() && q[at] == x;
        assert(q2[at] == x);
    }
}

/// What holds of the objects of a database after the drops for the nodes
/// `q`: [`drops_done`] without what it says of extensions and schemas.
pub open spec fn objects_left(d: Package, l: Package, m: Database, q: Seq<NodeId>) -> bool {
    let m0 = state_of(l);
    &&& dom_kept(type_names(d.types@), m0.types.dom(), m.types.dom(), q, NodeKind::Type)
    &&& forall|k: NameView| #[trigger] m.types.dom().contains(k) ==> m.types[k] == m0.types[k]
    &&& dom_kept(function_names(d.functions@), m0.functions.dom(), m.functions.dom(), q, NodeKind::Function)
    &&& forall|k: NameView| #[trigger] m.functions.dom().contains(k) ==> m.functions[k] == m0.functions[k]
    &&& dom_kept(table_names(d.tables@), m0.tables.dom(), m.tables.dom(), q, NodeKind::Table)
    &&& forall|k: NameView| #[trigger]
        m.tables.dom().contains(k) ==> table_kept(d, m0.tables[k], m.tables[k], q, k)
}

/// After what was to be created or altered for the nodes `p`, the
/// declared types of the database are `m`, where they were `base` before:
/// none has gone; what has come is declared; a declared type is as it is
/// declared or as it was; and each declared type whose node is in `p` is
/// there and the same as it is declared.
pub open spec fn types_built(
    d: Package,
    base: Map<NameView, TypeDefinition>,
    m: Map<NameView, TypeDefinition>,
    p: Seq<NodeId>,
) -> bool {
    let declared = type_names(d.types@);
    &&& forall|k: NameView| #[trigger] base.dom().contains(k) ==> m.dom().contains(k)
    &&& forall|k: NameView| #[trigger]
        m.dom().contains(k) && !base.dom().contains(k) ==> first_key(declared, k) is Some
    &&& forall|k: NameView| #[trigger]
        m.dom().contains(k) && first_key(declared, k) is Some ==> m[k] == d.types[first_key(declared, k)->0]
            || (base.dom().contains(k) && m[k] == base[k])
    &&& forall|i: int|
        0 <= i < d.types.len() && p.contains(node_of(NodeKind::Type, (#[trigger] d.types[i]).name@))
            ==> m.dom().contains(d.types[i].name@) && typedef_same(d.types[i], m[d.types[i].name@])
}

/// A node of another kind adds nothing to what is asked of the declared
/// types.
proof fn lemma_types_built_other(
    d: Package,
    base: Map<NameView, TypeDefinition>,
    m: Map<NameView, TypeDefinition>,
    p: Seq<NodeId>,
    n: NodeId,
)
    requires
        types_built(d, base, m, p),
        n.kind != NodeKind::Type,
    ensures
        types_built(d, base, m, p.push(n)),
{
    assert forall|i: int|
        0 <= i < d.types.len() && p.push(n).contains(
            node_of(NodeKind::Type, (#[trigger] d.types[i]).name@),
        ) implies m.dom().contains(d.types[i].name@) && typedef_same(d.types[i], m[d.types[i].name@]) by {
        lemma_contains_push(p, n, node_of(NodeKind::Type, d.types[i].name@));
    }
}

/// A declared type is the same as itself.
proof fn lemma_typedef_same_reflexive(t: TypeDefinition)
    ensures
        typedef_same(t, t),
{
    lemma_kind_same_reflexive(t.kind);
}

/// What is created or altered for a node of a declared type keeps what
/// holds after the nodes before it, and settles the type.
proof fn lemma_build_type_node(d: Package, l: Package, base: Database, m: Database, p: Seq<NodeId>, q: Seq<NodeId>, n: NodeId)
    requires
        plain(d),
        plain(l),
        objects_left(d, l, base, q),
        types_built(d, base.types, m.types, p),
        n.kind == NodeKind::Type,
    ensures
        types_built(d, base.types, run(m, node_builds(d, l, false, n)).types, p.push(n)),
        run(m, node_builds(d, l, false, n)).functions == m.functions,
        run(m, node_builds(d, l, false, n)).tables == m.tables,
        run(m, node_builds(d, l, false, n)).extensions == m.extensions,
        run(m, node_builds(d, l, false, n)).schemas == m.schemas,
{
    lemma_state_tables(l);
    let m0 = state_of(l);
    let declared = type_names(d.types@);
    let live = type_names(l.types@);
    let nb = node_builds(d, l, false, n);
    let m2 = run(m, nb);
    let grown = p.push(n);
    match first_text(type_texts(d.types@), n.name) {
        Some(i) => {
            lemma_type_text(d, n.name, i);
            let want = d.types[i];
            let k = want.name@;
            lemma_own_key(declared, i);
            lemma_first_key(live, want.name);
            lemma_typedef_same_reflexive(want);
            match first_name(live, want.name) {
                None => {
                    let c = ChangeInstruction::CreateType(&d.types[i]);
                    assert(nb =~= seq![c]);
                    lemma_run_small(m, c);
                    assert(!m0.types.dom().contains(k));
                    assert(!base.types.dom().contains(k));
                },
                Some(j) => {
                    lemma_first_key_in_range(live, k);
                    assert(m0.types.dom().contains(k));
                    assert(base.types.dom().contains(k));
                    assert(base.types[k] == l.types[j]);
                    let c = ChangeInstruction::AlterType(&d.types[i]);
                    lemma_run_small(m, c);
                    if typedef_same(want, l.types[j]) {
                        assert(nb =~= Seq::<ChangeInstruction>::empty());
                    } else {
                        assert(nb =~= seq![c]);
                    }
                },
            }
            assert forall|i2: int|
                0 <= i2 < d.types.len() && grown.contains(
                    node_of(NodeKind::Type, (#[trigger] d.types[i2]).name@),
                ) implies m2.types.dom().contains(d.types[i2].name@) && typedef_same(
                d.types[i2],
                m2.types[d.types[i2].name@],
            ) by {
                lemma_contains_push(p, n, node_of(NodeKind::Type, d.types[i2].name@));
                if node_of(NodeKind::Type, d.types[i2].name@) == n {
                    assert(name_plain(d.types[i2].name));
                    assert(name_plain(d.types[i].name));
                    lemma_text_key(d.types[i2].name, d.types[i].name);
                    lemma_own_key(declared, i2);
                    assert(i2 == i);
                }
                if d.types[i2].name@ == k {
                    lemma_own_key(declared, i2);
                    assert(i2 == i);
                }
            }
        },
        None => {
            assert(nb =~= Seq::<ChangeInstruction>::empty());
            assert(m2 == m);
            assert forall|i2: int|
                0 <= i2 < d.types.len() && grown.contains(
                    node_of(NodeKind::Type, (#[trigger] d.types[i2]).name@),
                ) implies m2.types.dom().contains(d.types[i2].name@) && typedef_same(
                d.types[i2],
                m2.types[d.types[i2].name@],
            ) by {
                lemma_contains_push(p, n, node_of(NodeKind::Type, d.types[i2].name@));
                if node_of(NodeKind::Type, d.types[i2].name@) == n {
                    crate::model::laws::lemma_text_found(type_texts(d.types@), i2);
                    assert(type_texts(d.types@)[i2] == n.name);
                }
            }
        },
    }
}

/// After what was to be created or replaced for the nodes `p`, the
/// functions of the database are `m`, where they were `base` before: none
/// has gone; what has come is declared; a declared function is as it is
/// declared or as it was; and each function whose node is in `p` is there
/// and the same as it is declared.
pub open spec fn functions_built(
    d: Package,
    base: Map<NameView, FunctionDefinition>,
    m: Map<NameView, FunctionDefinition>,
    p: Seq<NodeId>,
) -> bool {
    let declared = function_names(d.functions@);
    &&& forall|k: NameView| #[trigger] base.dom().contains(k) ==> m.dom().contains(k)
    &&& forall|k: NameView| #[trigger]
        m.dom().contains(k) && !base.dom().contains(k) ==> first_key(declared, k) is Some
    &&& forall|k: NameView| #[trigger]
        m.dom().contains(k) && first_key(declared, k) is Some ==> m[k] == d.functions[first_key(
            declared,
            k,
        )->0] || (base.dom().contains(k) && m[k] == base[k])
    &&& forall|i: int|
        0 <= i < d.functions.len() && p.contains(
            node_of(NodeKind::Function, (#[trigger] d.functions[i]).name@),
        ) ==> m.dom().contains(d.functions[i].name@) && function_same(d.functions[i], m[d.functions[i].name@])
}

/// A node of another kind adds nothing to what is asked of the functions.
proof fn lemma_functions_built_other(
    d: Package,
    base: Map<NameView, FunctionDefinition>,
    m: Map<NameView, FunctionDefinition>,
    p: Seq<NodeId>,
    n: NodeId,
)
    requires
        functions_built(d, base, m, p),
        n.kind != NodeKind::Function,
    ensures
        functions_built(d, base, m, p.push(n)),
{
    assert forall|i: int|
        0 <= i < d.functions.len() && p.push(n).contains(
            node_of(NodeKind::Function, (#[trigger] d.functions[i]).name@),
        ) implies m.dom().contains(d.functions[i].name@) && function_same(
        d.functions[i],
        m[d.functions[i].name@],
    ) by {
        lemma_contains_push(p, n, node_of(NodeKind::Function, d.functions[i].name@));
    }
}

/// A function is the same as itself.
proof fn lemma_function_same_reflexive(f: FunctionDefinition)
    ensures
        function_same(f, f),
{
    lemma_type_same_reflexive(f.return_type);
    assert forall|i: int| 0 <= i < f.arguments@.len() implies type_same(
        (#[trigger] f.arguments@[i]).sql_type,
        f.arguments@[i].sql_type,
    ) by {
        lemma_type_same_reflexive(f.arguments@[i].sql_type);
    }
}

/// What is created or replaced for a node of a function keeps what holds
/// after the nodes before it, and settles the function.
proof fn lemma_build_function_node(d: Package, l: Package, base: Database, m: Database, p: Seq<NodeId>, q: Seq<NodeId>, n: NodeId)
    requires
        plain(d),
        plain(l),
        objects_left(d, l, base, q),
        functions_built(d, base.functions, m.functions, p),
        n.kind == NodeKind::Function,
    ensures
        functions_built(d, base.functions, run(m, node_builds(d, l, false, n)).functions, p.push(n)),
        run(m, node_builds(d, l, false, n)).types == m.types,
        run(m, node_builds(d, l, false, n)).tables == m.tables,
        run(m, node_builds(d, l, false, n)).extensions == m.extensions,
        run(m, node_builds(d, l, false, n)).schemas == m.schemas,
{
    lemma_state_tables(l);
    let m0 = state_of(l);
    let declared = function_names(d.functions@);
    let live = function_names(l.functions@);
    let nb = node_builds(d, l, false, n);
    let m2 = run(m, nb);
    let grown = p.push(n);
    match first_text(function_texts(d.functions@), n.name) {
        Some(i) => {
            lemma_function_text(d, n.name, i);
            let want = d.functions[i];
            let k = want.name@;
            lemma_own_key(declared, i);
            lemma_first_key(live, want.name);
            lemma_function_same_reflexive(want);
            let c = ChangeInstruction::CreateOrReplaceFunction(&d.functions[i]);
            lemma_run_small(m, c);
            match first_name(live, want.name) {
                None => {
                    assert(nb =~= seq![c]);
                },
                Some(j) => {
                    lemma_first_key_in_range(live, k);
                    assert(m0.functions.dom().contains(k));
                    assert(base.functions.dom().contains(k));
                    assert(base.functions[k] == l.functions[j]);
                    if function_same(want, l.functions[j]) {
                        assert(nb =~= Seq::<ChangeInstruction>::empty());
                    } else {
                        assert(nb =~= seq![c]);
                    }
                },
            }
            assert forall|i2: int|
                0 <= i2 < d.functions.len() && grown.contains(
                    node_of(NodeKind::Function, (#[trigger] d.functions[i2]).name@),
                ) implies m2.functions.dom().contains(d.functions[i2].name@) && function_same(
                d.functions[i2],
                m2.functions[d.functions[i2].name@],
            ) by {
                lemma_contains_push(p, n, node_of(NodeKind::Function, d.functions[i2].name@));
                if node_of(NodeKind::Function, d.functions[i2].name@) == n {
                    assert(name_plain(d.functions[i2].name));
                    assert(name_plain(d.functions[i].name));
                    lemma_text_key(d.functions[i2].name, d.functions[i].name);
                    lemma_own_key(declared, i2);
                    assert(i2 == i);
                }
                if d.functions[i2].name@ == k {
                    lemma_own_key(declared, i2);
                    assert(i2 == i);
                }
            }
        },
        None => {
            assert(nb =~= Seq::<ChangeInstruction>::empty());
            assert(m2 == m);
            assert forall|i2: int|
                0 <= i2 < d.functions.len() && grown.contains(
                    node_of(NodeKind::Function, (#[trigger] d.functions[i2]).name@),
                ) implies m2.functions.dom().contains(d.functions[i2].name@) && function_same(
                d.functions[i2],
                m2.functions[d.functions[i2].name@],
            ) by {
                lemma_contains_push(p, n, node_of(NodeKind::Function, d.functions[i2].name@));
                if node_of(NodeKind::Function, d.functions[i2].name@) == n {
                    crate::model::laws::lemma_text_found(function_texts(d.functions@), i2);
                    assert(function_texts(d.functions@)[i2] == n.name);
                }
            }
        },
    }
}

/// The column `is` is as `was`, but for what of its type, its
/// nullability and its default is as in `want`.
pub open spec fn toward(was: ColumnDefinition, is: ColumnDefinition, want: ColumnDefinition) -> bool {
    &&& is.sql_type == was.sql_type || is.sql_type == want.sql_type
    &&& is.not_null == was.not_null || is.not_null == want.not_null
    &&& is.default == was.default || is.default == want.default
}

/// Nothing is to be altered to bring the column `have` to `want`.
pub open spec fn column_settled(want: ColumnDefinition, have: ColumnDefinition) -> bool {
    &&& type_same(want.sql_type, have.sql_type)
    &&& want.not_null == have.not_null
    &&& default_same(want.default, have.default)
}

/// What holds of a declared table `t` that was created: it holds the
/// columns of `t`, and constraints of `t` only.
pub open spec fn table_created(t: TableDefinition, m: TableState) -> bool {
    &&& m.columns == columns_of(t)
    &&& forall|x: Seq<char>| #[trigger]
        m.constraints.dom().contains(x) ==> first_text(constraint_names(t), x) is Some && m.constraints[x]
            == t.constraints[first_text(constraint_names(t), x)->0]
}

/// What holds of a declared table `t` that held `b` before: it has lost
/// nothing; what has come is as `t` declares it; its columns are as they
/// were but for what was altered to what `t` declares; and its
/// constraints are as they were.
pub open spec fn table_altered(t: TableDefinition, b: TableState, m: TableState) -> bool {
    &&& forall|c: Seq<char>| #[trigger] b.columns.dom().contains(c) ==> m.columns.dom().contains(c)
    &&& forall|c: Seq<char>| #[trigger]
        m.columns.dom().contains(c) && !b.columns.dom().contains(c) ==> first_text(column_names(t), c) is Some
            && m.columns[c] == t.columns[first_text(column_names(t), c)->0]
    &&& forall|c: Seq<char>| #[trigger]
        b.columns.dom().contains(c) && first_text(column_names(t), c) is Some ==> toward(
            b.columns[c],
            m.columns[c],
            t.columns[first_text(column_names(t), c)->0],
        )
    &&& forall|x: Seq<char>| #[trigger]
        b.constraints.dom().contains(x) ==> m.constraints.dom().contains(x) && m.constraints[x]
            == b.constraints[x]
    &&& forall|x: Seq<char>| #[trigger]
        m.constraints.dom().contains(x) && !b.constraints.dom().contains(x) ==> first_text(
            constraint_names(t),
            x,
        ) is Some && m.constraints[x] == t.constraints[first_text(constraint_names(t), x)->0]
}

/// What holds of a declared table `t` of the database after what was to be
/// created or altered: `m` is what it holds, `base` what it held before,
/// if it was there.
pub open spec fn table_built(t: TableDefinition, base: Option<TableState>, m: TableState) -> bool {
    match base {
        None => table_created(t, m),
        Some(b) => table_altered(t, b, m),
    }
}

/// What the table that reads `k` held before, if it was there.
pub open spec fn was(base: Map<NameView, TableState>, k: NameView) -> Option<TableState> {
    if base.dom().contains(k) {
        Some(base[k])
    } else {
        None
    }
}

/// After what was to be created or altered for the nodes `p`, the tables
/// of the database are `m`, where they were `base` before: none has gone;
/// what has come is declared; each declared table holds what
/// [`table_built`] says; each table whose node is in `p` is there; each
/// column whose node is in `p` is there, if its table is, with nothing to
/// alter; and each constraint whose node is in `p` is there with its
/// table, the same as it is declared.
pub open spec fn tables_built(
    d: Package,
    base: Map<NameView, TableState>,
    m: Map<NameView, TableState>,
    p: Seq<NodeId>,
) -> bool {
    let declared = table_names(d.tables@);
    &&& forall|k: NameView| #[trigger] base.dom().contains(k) ==> m.dom().contains(k)
    &&& forall|k: NameView| #[trigger]
        m.dom().contains(k) && !base.dom().contains(k) ==> first_key(declared, k) is Some
    &&& forall|k: NameView| #[trigger]
        m.dom().contains(k) && first_key(declared, k) is Some ==> table_built(
            d.tables[first_key(declared, k)->0],
            was(base, k),
            m[k],
        )
    &&& forall|i: int|
        0 <= i < d.tables.len() && p.contains(node_of(NodeKind::Table, (#[trigger] d.tables[i]).name@))
            ==> m.dom().contains(d.tables[i].name@)
    &&& forall|i: int, j: int|
        0 <= i < d.tables.len() && 0 <= j < d.tables[i].columns.len() && p.contains(
            part_node(NodeKind::Column, d.tables[i].name@, (#[trigger] d.tables[i].columns[j]).name@),
        ) && m.dom().contains(d.tables[i].name@) ==> m[d.tables[i].name@].columns.dom().contains(
            d.tables[i].columns[j].name@,
        ) && column_settled(d.tables[i].columns[j], m[d.tables[i].name@].columns[d.tables[i].columns[j].name@])
    &&& forall|i: int, j: int|
        0 <= i < d.tables.len() && 0 <= j < d.tables[i].constraints.len() && p.contains(
            part_node(
                NodeKind::Constraint,
                d.tables[i].name@,
                (#[trigger] d.tables[i].constraints[j]).name_spec()@,
            ),
        ) ==> m.dom().contains(d.tables[i].name@) && m[d.tables[i].name@].constraints.dom().contains(
            d.tables[i].constraints[j].name_spec()@,
        ) && constraint_same(
            d.tables[i].constraints[j],
            m[d.tables[i].name@].constraints[d.tables[i].constraints[j].name_spec()@],
        )
}

/// A node of another kind than those of tables, columns and constraints
/// adds nothing to what is asked of the tables.
proof fn lemma_tables_built_other(
    d: Package,
    base: Map<NameView, TableState>,
    m: Map<NameView, TableState>,
    p: Seq<NodeId>,
    n: NodeId,
)
    requires
        tables_built(d, base, m, p),
        n.kind != NodeKind::Table,
        n.kind != NodeKind::Column,
        n.kind != NodeKind::Constraint,
    ensures
        tables_built(d, base, m, p.push(n)),
{
    let grown = p.push(n);
    assert forall|i: int|
        0 <= i < d.tables.len() && grown.contains(
            node_of(NodeKind::Table, (#[trigger] d.tables[i]).name@),
        ) implies m.dom().contains(d.tables[i].name@) by {
        lemma_contains_push(p, n, node_of(NodeKind::Table, d.tables[i].name@));
    }
    assert forall|i: int, j: int|
        0 <= i < d.tables.len() && 0 <= j < d.tables[i].columns.len() && grown.contains(
            part_node(NodeKind::Column, d.tables[i].name@, (#[trigger] d.tables[i].columns[j]).name@),
        ) && m.dom().contains(d.tables[i].name@) implies m[d.tables[i].name@].columns.dom().contains(
        d.tables[i].columns[j].name@,
    ) && column_settled(
        d.tables[i].columns[j],
        m[d.tables[i].name@].columns[d.tables[i].columns[j].name@],
    ) by {
        lemma_contains_push(p, n, part_node(NodeKind::Column, d.tables[i].name@, d.tables[i].columns[j].name@));
    }
    assert forall|i: int, j: int|
        0 <= i < d.tables.len() && 0 <= j < d.tables[i].constraints.len() && grown.contains(
            part_node(
                NodeKind::Constraint,
                d.tables[i].name@,
                (#[trigger] d.tables[i].constraints[j]).name_spec()@,
            ),
        ) implies m.dom().contains(d.tables[i].name@) && m[d.tables[i].name@].constraints.dom().contains(
        d.tables[i].constraints[j].name_spec()@,
    ) && constraint_same(
        d.tables[i].constraints[j],
        m[d.tables[i].name@].constraints[d.tables[i].constraints[j].name_spec()@],
    ) by {
        lemma_contains_push(
            p,
            n,
            part_node(NodeKind::Constraint, d.tables[i].name@, d.tables[i].constraints[j].name_spec()@),
        );
    }
}

/// A column is settled with itself.
proof fn lemma_column_settled_reflexive(c: ColumnDefinition)
    ensures
        column_settled(c, c),
{
    lemma_type_same_reflexive(c.sql_type);
}

/// What is created for a node of a table keeps what holds after the nodes
/// before it, and settles the table.
proof fn lemma_build_table_node(d: Package, l: Package, base: Database, m: Database, p: Seq<NodeId>, q: Seq<NodeId>, n: NodeId)
    requires
        plain(d),
        plain(l),
        objects_left(d, l, base, q),
        tables_built(d, base.tables, m.tables, p),
        n.kind == NodeKind::Table,
    ensures
        tables_built(d, base.tables, run(m, node_builds(d, l, false, n)).tables, p.push(n)),
        run(m, node_builds(d, l, false, n)).functions == m.functions,
        run(m, node_builds(d, l, false, n)).types == m.types,
        run(m, node_builds(d, l, false, n)).extensions == m.extensions,
        run(m, node_builds(d, l, false, n)).schemas == m.schemas,
{
    lemma_state_tables(l);
    let m0 = state_of(l);
    let declared = table_names(d.tables@);
    let live = table_names(l.tables@);
    let nb = node_builds(d, l, false, n);
    let m2 = run(m, nb);
    let grown = p.push(n);
    let found = first_text(table_texts(d.tables@), n.name);
    if found is Some {
        let i = found->0;
        lemma_table_text(d, n.name, i);
        let want = d.tables[i];
        let k = want.name@;
        lemma_own_key(declared, i);
        lemma_first_key(live, want.name);
        let c = ChangeInstruction::CreateTable(&d.tables[i]);
        lemma_run_small(m, c);
        if first_name(live, want.name) is None {
            assert(nb =~= seq![c]);
            assert(!m0.tables.dom().contains(k));
            assert(!base.tables.dom().contains(k));
        } else {
            assert(nb =~= Seq::<ChangeInstruction>::empty());
            assert(m0.tables.dom().contains(k));
            assert(base.tables.dom().contains(k));
        }
        assert(m2.tables.dom().contains(k));
        lemma_table_state(want);
    } else {
        assert(nb =~= Seq::<ChangeInstruction>::empty());
        assert(m2 == m);
    }
    assert forall|k2: NameView| #[trigger]
        m2.tables.dom().contains(k2) && first_key(declared, k2) is Some implies table_built(
        d.tables[first_key(declared, k2)->0],
        was(base.tables, k2),
        m2.tables[k2],
    ) by {
        if m.tables.dom().contains(k2) {
            assert(m2.tables[k2] == m.tables[k2]);
        } else {
            assert(found is Some);
            assert(k2 == d.tables[found->0].name@);
        }
    }
    assert forall|i2: int|
        0 <= i2 < d.tables.len() && grown.contains(
            node_of(NodeKind::Table, (#[trigger] d.tables[i2]).name@),
        ) implies m2.tables.dom().contains(d.tables[i2].name@) by {
        lemma_contains_push(p, n, node_of(NodeKind::Table, d.tables[i2].name@));
        if node_of(NodeKind::Table, d.tables[i2].name@) == n {
            crate::model::laws::lemma_text_found(table_texts(d.tables@), i2);
            assert(table_texts(d.tables@)[i2] == n.name);
            let i = found->0;
            assert(name_plain(d.tables[i2].name));
            assert(name_plain(d.tables[i].name));
            lemma_text_key(d.tables[i2].name, d.tables[i].name);
        }
    }
    assert forall|i2: int, j2: int|
        0 <= i2 < d.tables.len() && 0 <= j2 < d.tables[i2].columns.len() && grown.contains(
            part_node(NodeKind::Column, d.tables[i2].name@, (#[trigger] d.tables[i2].columns[j2]).name@),
        ) && m2.tables.dom().contains(d.tables[i2].name@) implies m2.tables[d.tables[i2].name@].columns.dom().contains(
        d.tables[i2].columns[j2].name@,
    ) && column_settled(
        d.tables[i2].columns[j2],
        m2.tables[d.tables[i2].name@].columns[d.tables[i2].columns[j2].name@],
    ) by {
        let k2 = d.tables[i2].name@;
        let cn = d.tables[i2].columns[j2].name@;
        lemma_contains_push(p, n, part_node(NodeKind::Column, k2, cn));
        if !m.tables.dom().contains(k2) {
            let i = found->0;
            assert(k2 == d.tables[i].name@);
            lemma_own_key(declared, i2);
            assert(i2 == i);
            lemma_table_state(d.tables[i]);
            lemma_own_text_first_column(d, i2, j2);
            lemma_column_settled_reflexive(d.tables[i2].columns[j2]);
        } else {
            assert(m2.tables[k2] == m.tables[k2]);
        }
    }
    assert forall|i2: int, j2: int|
        0 <= i2 < d.tables.len() && 0 <= j2 < d.tables[i2].constraints.len() && grown.contains(
            part_node(
                NodeKind::Constraint,
                d.tables[i2].name@,
                (#[trigger] d.tables[i2].constraints[j2]).name_spec()@,
            ),
        ) implies m2.tables.dom().contains(d.tables[i2].name@) && m2.tables[d.tables[i2].name@].constraints.dom().contains(
        d.tables[i2].constraints[j2].name_spec()@,
    ) && constraint_same(
        d.tables[i2].constraints[j2],
        m2.tables[d.tables[i2].name@].constraints[d.tables[i2].constraints[j2].name_spec()@],
    ) by {
        let k2 = d.tables[i2].name@;
        lemma_contains_push(
            p,
            n,
            part_node(NodeKind::Constraint, k2, d.tables[i2].constraints[j2].name_spec()@),
        );
        assert(m.tables.dom().contains(k2));
        assert(m2.tables[k2] == m.tables[k2]);
    }
}

/// The column `v` after the alterations that bring `have` to `want`.
pub open spec fn settled_toward(v: ColumnDefinition, want: ColumnDefinition, have: ColumnDefinition) -> ColumnDefinition {
    ColumnDefinition {
        sql_type: if type_same(want.sql_type, have.sql_type) {
            v.sql_type
        } else {
            want.sql_type
        },
        not_null: if want.not_null == have.not_null {
            v.not_null
        } else {
            want.not_null
        },
        default: if default_same(want.default, have.default) {
            v.default
        } else {
            want.default
        },
        ..v
    }
}

/// The database with the column `c` of the table that reads `k` set to
/// `v`.
pub open spec fn with_column(m: Database, k: NameView, c: Seq<char>, v: ColumnDefinition) -> Database {
    Database {
        tables: m.tables.insert(
            k,
            TableState { columns: m.tables[k].columns.insert(c, v), ..m.tables[k] },
        ),
        ..m
    }
}

/// Setting a column to what it is changes nothing.
proof fn lemma_with_column_same(m: Database, k: NameView, c: Seq<char>)
    requires
        m.tables.dom().contains(k),
        m.tables[k].columns.dom().contains(c),
    ensures
        with_column(m, k, c, m.tables[k].columns[c]) == m,
{
    let cols = m.tables[k].columns;
    assert(cols.insert(c, cols[c]) =~= cols);
    assert(m.tables.insert(k, m.tables[k]) =~= m.tables);
}

/// Setting a column twice is setting it to the second value.
proof fn lemma_with_column_twice(m: Database, k: NameView, c: Seq<char>, v: ColumnDefinition, w: ColumnDefinition)
    requires
        m.tables.dom().contains(k),
    ensures
        with_column(with_column(m, k, c, v), k, c, w) == with_column(m, k, c, w),
{
    let cols = m.tables[k].columns;
    assert(cols.insert(c, v).insert(c, w) =~= cols.insert(c, w));
    let t1 = TableState { columns: cols.insert(c, v), ..m.tables[k] };
    let t2 = TableState { columns: cols.insert(c, w), ..m.tables[k] };
    assert(m.tables.insert(k, t1).insert(k, t2) =~= m.tables.insert(k, t2));
}

/// Carrying out the alterations of a column sets what differs between
/// what is wanted and what the plan saw, and leaves the rest as it is.
proof fn lemma_run_alters(m: Database, table: ObjectName, want: ColumnDefinition, have: ColumnDefinition)
    requires
        m.tables.dom().contains(table@),
        m.tables[table@].columns.dom().contains(want.name@),
    ensures
        run(m, column_alters(table, want, have)) == with_column(
            m,
            table@,
            want.name@,
            settled_toward(m.tables[table@].columns[want.name@], want, have),
        ),
{
    let k = table@;
    let c = want.name@;
    let v = m.tables[k].columns[c];
    let a = if type_same(want.sql_type, have.sql_type) {
        Seq::<ChangeInstruction>::empty()
    } else {
        seq![ChangeInstruction::AlterColumn(&table, &want, ColumnChange::Type)]
    };
    let b = if want.not_null == have.not_null {
        Seq::<ChangeInstruction>::empty()
    } else {
        seq![ChangeInstruction::AlterColumn(&table, &want, ColumnChange::Nullability)]
    };
    let e = if default_same(want.default, have.default) {
        Seq::<ChangeInstruction>::empty()
    } else {
        seq![ChangeInstruction::AlterColumn(&table, &want, ColumnChange::Default)]
    };
    assert(column_alters(table, want, have) == a + b + e);
    lemma_run_concat(m, a + b, e);
    lemma_run_concat(m, a, b);
    let v1 = if type_same(want.sql_type, have.sql_type) {
        v
    } else {
        altered(v, want, ColumnChange::Type)
    };
    let m1 = run(m, a);
    lemma_run_small(m, ChangeInstruction::AlterColumn(&table, &want, ColumnChange::Type));
    lemma_with_column_same(m, k, c);
    assert(m1 == with_column(m, k, c, v1));
    let v2 = if want.not_null == have.not_null {
        v1
    } else {
        altered(v1, want, ColumnChange::Nullability)
    };
    let m2 = run(m1, b);
    lemma_run_small(m1, ChangeInstruction::AlterColumn(&table, &want, ColumnChange::Nullability));
    assert(m1.tables[k].columns[c] == v1);
    lemma_with_column_same(m1, k, c);
    lemma_with_column_twice(m, k, c, v1, v2);
    assert(m2 == with_column(m, k, c, v2));
    let v3 = if default_same(want.default, have.default) {
        v2
    } else {
        altered(v2, want, ColumnChange::Default)
    };
    let m3 = run(m2, e);
    lemma_run_small(m2, ChangeInstruction::AlterColumn(&table, &want, ColumnChange::Default));
    assert(m2.tables[k].columns[c] == v2);
    lemma_with_column_same(m2, k, c);
    lemma_with_column_twice(m, k, c, v2, v3);
    assert(m3 == with_column(m, k, c, v3));
    assert(v3 == settled_toward(v, want, have));
}

/// What is added or altered for a node of a column keeps what holds after
/// the nodes before it, and settles the column.
proof fn lemma_build_column_node(d: Package, l: Package, base: Database, m: Database, p: Seq<NodeId>, q: Seq<NodeId>, n: NodeId)
    requires
        plain(d),
        plain(l),
        objects_left(d, l, base, q),
        tables_built(d, base.tables, m.tables, p),
        n.kind == NodeKind::Column,
    ensures
        tables_built(d, base.tables, run(m, node_builds(d, l, false, n)).tables, p.push(n)),
        run(m, node_builds(d, l, false, n)).functions == m.functions,
        run(m, node_builds(d, l, false, n)).types == m.types,
        run(m, node_builds(d, l, false, n)).extensions == m.extensions,
        run(m, node_builds(d, l, false, n)).schemas == m.schemas,
{
    lemma_state_tables(l);
    let m0 = state_of(l);
    let declared = table_names(d.tables@);
    let live = table_names(l.tables@);
    let nb = node_builds(d, l, false, n);
    let m2 = run(m, nb);
    let grown = p.push(n);
    let found = first_owner(column_texts(d.tables@), n.name);
    if found is Some {
        let (i, j) = found->0;
        lemma_owner_in_range(column_texts(d.tables@), n.name, i, j);
        assert(column_texts(d.tables@)[i] == column_texts_of(d.tables[i]));
        let t = d.tables[i];
        let want = t.columns[j];
        let k = t.name@;
        let cn = want.name@;
        lemma_own_key(declared, i);
        lemma_own_text_first_column(d, i, j);
        lemma_first_key(live, t.name);
        lemma_table_state(t);
        lemma_column_settled_reflexive(want);
        match first_name(live, t.name) {
            None => {
                assert(nb =~= Seq::<ChangeInstruction>::empty());
                assert(m2 == m);
                assert(!m0.tables.dom().contains(k));
                assert(!base.tables.dom().contains(k));
            },
            Some(kl) => {
                lemma_first_key_in_range(live, k);
                assert(m0.tables.dom().contains(k));
                assert(base.tables.dom().contains(k));
                assert(m.tables.dom().contains(k));
                assert(table_kept(d, m0.tables[k], base.tables[k], q, k));
                assert(m0.tables[k] == table_state(l.tables[kl]));
                lemma_table_state(l.tables[kl]);
                assert(table_built(t, was(base.tables, k), m.tables[k]));
                match first_text(column_names(l.tables[kl]), cn) {
                    None => {
                        let c = ChangeInstruction::AddColumn(&t.name, &t.columns[j]);
                        assert(nb =~= seq![c]);
                        lemma_run_small(m, c);
                        assert(!base.tables[k].columns.dom().contains(cn));
                    },
                    Some(ml) => {
                        let have = l.tables[kl].columns[ml];
                        assert(columns_of(l.tables[kl]).dom().contains(cn));
                        assert(m0.tables[k].columns.dom().contains(cn));
                        assert(m0.tables[k].columns[cn] == have);
                        assert(first_key(declared, k) == Some(i));
                        assert(first_text(column_names(t), cn) is Some);
                        assert(base.tables[k].columns.dom().contains(cn));
                        assert(base.tables[k].columns[cn] == have);
                        assert(was(base.tables, k) == Some(base.tables[k]));
                        assert(table_altered(t, base.tables[k], m.tables[k]));
                        assert(m.tables[k].columns.dom().contains(cn));
                        assert(nb == column_alters(t.name, want, have));
                        lemma_run_alters(m, t.name, want, have);
                        lemma_type_same_reflexive(want.sql_type);
                        let v = m.tables[k].columns[cn];
                        assert(toward(have, v, want));
                        let w = settled_toward(v, want, have);
                        assert(m2.tables[k].columns[cn] == w);
                        assert(column_settled(want, w));
                        assert(toward(have, w, want));
                    },
                }
            },
        }
    } else {
        assert(nb =~= Seq::<ChangeInstruction>::empty());
        assert(m2 == m);
    }
    assert(m2.tables.dom() =~= m.tables.dom());
    assert forall|k2: NameView| #[trigger]
        m2.tables.dom().contains(k2) && first_key(declared, k2) is Some implies table_built(
        d.tables[first_key(declared, k2)->0],
        was(base.tables, k2),
        m2.tables[k2],
    ) by {
        assert(table_built(d.tables[first_key(declared, k2)->0], was(base.tables, k2), m.tables[k2]));
        if found is Some && k2 == d.tables[(found->0).0].name@ {
            let (i, j) = found->0;
            lemma_own_key(declared, i);
            lemma_own_text_first_column(d, i, j);
        } else {
            assert(m2.tables[k2] == m.tables[k2]);
        }
    }
    assert forall|i2: int|
        0 <= i2 < d.tables.len() && grown.contains(
            node_of(NodeKind::Table, (#[trigger] d.tables[i2]).name@),
        ) implies m2.tables.dom().contains(d.tables[i2].name@) by {
        lemma_contains_push(p, n, node_of(NodeKind::Table, d.tables[i2].name@));
    }
    assert forall|i2: int, j2: int|
        0 <= i2 < d.tables.len() && 0 <= j2 < d.tables[i2].columns.len() && grown.contains(
            part_node(NodeKind::Column, d.tables[i2].name@, (#[trigger] d.tables[i2].columns[j2]).name@),
        ) && m2.tables.dom().contains(d.tables[i2].name@) implies m2.tables[d.tables[i2].name@].columns.dom().contains(
        d.tables[i2].columns[j2].name@,
    ) && column_settled(
        d.tables[i2].columns[j2],
        m2.tables[d.tables[i2].name@].columns[d.tables[i2].columns[j2].name@],
    ) by {
        let k2 = d.tables[i2].name@;
        let cn2 = d.tables[i2].columns[j2].name@;
        lemma_contains_push(p, n, part_node(NodeKind::Column, k2, cn2));
        lemma_own_key(declared, i2);
        lemma_own_text_first_column(d, i2, j2);
        lemma_column_by_text(d, i2, j2);
        if part_node(NodeKind::Column, k2, cn2) == n {
            assert(found == Some((i2, j2)));
            lemma_table_state(d.tables[i2]);
            lemma_column_settled_reflexive(d.tables[i2].columns[j2]);
            assert(table_built(d.tables[i2], was(base.tables, k2), m.tables[k2]));
        } else if found is Some && k2 == d.tables[(found->0).0].name@ {
            let (i, j) = found->0;
            lemma_own_key(declared, i);
            assert(i2 == i);
            if cn2 == d.tables[i].columns[j].name@ {
                lemma_own_text_first_column(d, i, j);
                assert(j2 == j);
            }
        } else {
            assert(m2.tables[k2] == m.tables[k2]);
        }
    }
    assert forall|i2: int, j2: int|
        0 <= i2 < d.tables.len() && 0 <= j2 < d.tables[i2].constraints.len() && grown.contains(
            part_node(
                NodeKind::Constraint,
                d.tables[i2].name@,
                (#[trigger] d.tables[i2].constraints[j2]).name_spec()@,
            ),
        ) implies m2.tables.dom().contains(d.tables[i2].name@) && m2.tables[d.tables[i2].name@].constraints.dom().contains(
        d.tables[i2].constraints[j2].name_spec()@,
    ) && constraint_same(
        d.tables[i2].constraints[j2],
        m2.tables[d.tables[i2].name@].constraints[d.tables[i2].constraints[j2].name_spec()@],
    ) by {
        let k2 = d.tables[i2].name@;
        lemma_contains_push(
            p,
            n,
            part_node(NodeKind::Constraint, k2, d.tables[i2].constraints[j2].name_spec()@),
        );
        assert(m.tables.dom().contains(k2));
        assert(m2.tables[k2].constraints == m.tables[k2].constraints);
    }
}

/// The nodes `q` hold the node of every constraint of the package.
pub open spec fn constraints_covered(l: Package, q: Seq<NodeId>) -> bool {
    forall|i: int, j: int|
        0 <= i < l.tables.len() && 0 <= j < l.tables[i].constraints.len() ==> q.contains(
            part_node(
                NodeKind::Constraint,
                l.tables[i].name@,
                (#[trigger] l.tables[i].constraints[j]).name_spec()@,
            ),
        )
}

/// If the node `n` is that of a constraint of the package, the node of
/// its table is among `p`.
pub open spec fn table_leads(d: Package, p: Seq<NodeId>, n: NodeId) -> bool {
    n.kind == NodeKind::Constraint ==> match first_owner(constraint_texts(d.tables@), n.name) {
        Some((i, j)) => p.contains(node_of(NodeKind::Table, d.tables[i].name@)),
        None => true,
    }
}

/// What is added for a node of a constraint keeps what holds after the
/// nodes before it, and settles the constraint.
proof fn lemma_build_constraint_node(d: Package, l: Package, base: Database, m: Database, p: Seq<NodeId>, q: Seq<NodeId>, n: NodeId)
    requires
        plain(d),
        plain(l),
        objects_left(d, l, base, q),
        tables_built(d, base.tables, m.tables, p),
        constraints_covered(l, q),
        table_leads(d, p, n),
        n.kind == NodeKind::Constraint,
    ensures
        tables_built(d, base.tables, run(m, node_builds(d, l, false, n)).tables, p.push(n)),
        run(m, node_builds(d, l, false, n)).functions == m.functions,
        run(m, node_builds(d, l, false, n)).types == m.types,
        run(m, node_builds(d, l, false, n)).extensions == m.extensions,
        run(m, node_builds(d, l, false, n)).schemas == m.schemas,
{
    lemma_state_tables(l);
    let m0 = state_of(l);
    let declared = table_names(d.tables@);
    let live = table_names(l.tables@);
    let nb = node_builds(d, l, false, n);
    let m2 = run(m, nb);
    let grown = p.push(n);
    let found = first_owner(constraint_texts(d.tables@), n.name);
    if found is Some {
        let (i, j) = found->0;
        lemma_owner_in_range(constraint_texts(d.tables@), n.name, i, j);
        assert(constraint_texts(d.tables@)[i] == constraint_texts_of(d.tables[i]));
        let t = d.tables[i];
        let want = t.constraints[j];
        let k = t.name@;
        let x = want.name_spec()@;
        lemma_own_key(declared, i);
        lemma_own_text_first_constraint(d, i, j);
        lemma_first_key(live, t.name);
        lemma_table_state(t);
        lemma_constraint_same_reflexive(want);
        assert(m.tables.dom().contains(k));
        let c = ChangeInstruction::AddConstraint(&t.name, &t.constraints[j]);
        lemma_run_small(m, c);
        assert(table_built(t, was(base.tables, k), m.tables[k]));
        match first_name(live, t.name) {
            None => {
                assert(nb =~= seq![c]);
                assert(!m0.tables.dom().contains(k));
                assert(!base.tables.dom().contains(k));
                assert(table_created(t, m.tables[k]));
            },
            Some(kl) => {
                lemma_first_key_in_range(live, k);
                assert(m0.tables.dom().contains(k));
                assert(base.tables.dom().contains(k));
                assert(table_kept(d, m0.tables[k], base.tables[k], q, k));
                assert(m0.tables[k] == table_state(l.tables[kl]));
                lemma_table_state(l.tables[kl]);
                assert(table_altered(t, base.tables[k], m.tables[k]));
                match first_text(constraint_names(l.tables[kl]), x) {
                    None => {
                        assert(nb =~= seq![c]);
                        assert(!m0.tables[k].constraints.dom().contains(x));
                        assert(!base.tables[k].constraints.dom().contains(x));
                    },
                    Some(ml) => {
                        lemma_first_text_within(constraint_names(l.tables[kl]), x);
                        let have = l.tables[kl].constraints[ml];
                        assert(constraints_of(l.tables[kl]).dom().contains(x));
                        assert(m0.tables[k].constraints.dom().contains(x));
                        assert(m0.tables[k].constraints[x] == have);
                        if constraint_same(want, have) {
                            assert(nb =~= Seq::<ChangeInstruction>::empty());
                            assert(declared_same(t, x, have));
                            assert(base.tables[k].constraints.dom().contains(x));
                            assert(base.tables[k].constraints[x] == have);
                            assert(m.tables[k].constraints.dom().contains(x));
                        } else {
                            assert(nb =~= seq![c]);
                            assert(l.tables[kl].name@ == k);
                            assert(have.name_spec()@ == x);
                            assert(q.contains(part_node(NodeKind::Constraint, k, x)));
                            if base.tables[k].constraints.dom().contains(x) {
                                assert(base.tables[k].constraints[x] == have);
                                assert(!declared_same(t, x, have));
                                assert(false);
                            }
                        }
                    },
                }
            },
        }
        assert(m2.tables.dom().contains(k));
        assert(m2.tables[k].constraints.dom().contains(x));
        assert(constraint_same(want, m2.tables[k].constraints[x]));
    } else {
        assert(nb =~= Seq::<ChangeInstruction>::empty());
        assert(m2 == m);
    }
    assert(m2.tables.dom() =~= m.tables.dom());
    assert forall|k2: NameView| #[trigger]
        m2.tables.dom().contains(k2) && first_key(declared, k2) is Some implies table_built(
        d.tables[first_key(declared, k2)->0],
        was(base.tables, k2),
        m2.tables[k2],
    ) by {
        assert(table_built(d.tables[first_key(declared, k2)->0], was(base.tables, k2), m.tables[k2]));
        if found is Some && k2 == d.tables[(found->0).0].name@ {
            let (i, j) = found->0;
            lemma_own_key(declared, i);
            lemma_own_text_first_constraint(d, i, j);
        } else {
            assert(m2.tables[k2] == m.tables[k2]);
        }
    }
    assert forall|i2: int|
        0 <= i2 < d.tables.len() && grown.contains(
            node_of(NodeKind::Table, (#[trigger] d.tables[i2]).name@),
        ) implies m2.tables.dom().contains(d.tables[i2].name@) by {
        lemma_contains_push(p, n, node_of(NodeKind::Table, d.tables[i2].name@));
    }
    assert forall|i2: int, j2: int|
        0 <= i2 < d.tables.len() && 0 <= j2 < d.tables[i2].columns.len() && grown.contains(
            part_node(NodeKind::Column, d.tables[i2].name@, (#[trigger] d.tables[i2].columns[j2]).name@),
        ) && m2.tables.dom().contains(d.tables[i2].name@) implies m2.tables[d.tables[i2].name@].columns.dom().contains(
        d.tables[i2].columns[j2].name@,
    ) && column_settled(
        d.tables[i2].columns[j2],
        m2.tables[d.tables[i2].name@].columns[d.tables[i2].columns[j2].name@],
    ) by {
        let k2 = d.tables[i2].name@;
        lemma_contains_push(p, n, part_node(NodeKind::Column, k2, d.tables[i2].columns[j2].name@));
        assert(m.tables.dom().contains(k2));
        assert(m2.tables[k2].columns == m.tables[k2].columns);
    }
    assert forall|i2: int, j2: int|
        0 <= i2 < d.tables.len() && 0 <= j2 < d.tables[i2].constraints.len() && grown.contains(
            part_node(
                NodeKind::Constraint,
                d.tables[i2].name@,
                (#[trigger] d.tables[i2].constraints[j2]).name_spec()@,
            ),
        ) implies m2.tables.dom().contains(d.tables[i2].name@) && m2.tables[d.tables[i2].name@].constraints.dom().contains(
        d.tables[i2].constraints[j2].name_spec()@,
    ) && constraint_same(
        d.tables[i2].constraints[j2],
        m2.tables[d.tables[i2].name@].constraints[d.tables[i2].constraints[j2].name_spec()@],
    ) by {
        let k2 = d.tables[i2].name@;
        let x2 = d.tables[i2].constraints[j2].name_spec()@;
        lemma_contains_push(p, n, part_node(NodeKind::Constraint, k2, x2));
        lemma_own_key(declared, i2);
        lemma_own_text_first_constraint(d, i2, j2);
        lemma_constraint_by_text(d, i2, j2);
        if part_node(NodeKind::Constraint, k2, x2) == n {
            assert(found == Some((i2, j2)));
        } else if found is Some && k2 == d.tables[(found->0).0].name@ {
            let (i, j) = found->0;
            lemma_own_key(declared, i);
            assert(i2 == i);
            if x2 == d.tables[i].constraints[j].name_spec()@ {
                lemma_own_text_first_constraint(d, i, j);
                assert(j2 == j);
            }
        } else {
            assert(m2.tables[k2] == m.tables[k2]);
        }
    }
}

/// What holds of a database after what was to be created or altered for
/// the nodes `p`, where it was `base` before.
pub open spec fn builds_done(d: Package, base: Database, m: Database, p: Seq<NodeId>) -> bool {
    &&& types_built(d, base.types, m.types, p)
    &&& functions_built(d, base.functions, m.functions, p)
    &&& tables_built(d, base.tables, m.tables, p)
    &&& m.extensions == base.extensions
    &&& m.schemas == base.schemas
}

/// In `order`, before the node of each constraint of the package stands
/// the node of its table.
pub open spec fn tables_lead(d: Package, order: Seq<NodeId>) -> bool {
    forall|at: int| 0 <= at < order.len() ==> table_leads(d, order.take(at), #[trigger] order[at])
}

/// Before anything is created or altered, the database is as it was.
proof fn lemma_builds_start(d: Package, base: Database)
    ensures
        builds_done(d, base, base, Seq::empty()),
{
    let declared = table_names(d.tables@);
    let none = Seq::<NodeId>::empty();
    assert forall|k: NameView| #[trigger]
        base.tables.dom().contains(k) && first_key(declared, k) is Some implies table_built(
        d.tables[first_key(declared, k)->0],
        was(base.tables, k),
        base.tables[k],
    ) by {
        assert(table_altered(d.tables[first_key(declared, k)->0], base.tables[k], base.tables[k]));
    }
}

/// What holds after what was to be created or altered was carried out.
proof fn lemma_builds_run(d: Package, l: Package, base: Database, order: Seq<NodeId>, q: Seq<NodeId>)
    requires
        plain(d),
        plain(l),
        objects_left(d, l, base, q),
        constraints_covered(l, q),
        tables_lead(d, order),
    ensures
        builds_done(d, base, run(base, builds(d, l, false, order)), order),
    decreases order.len(),
{
    if order.len() == 0 {
        lemma_builds_start(d, base);
        assert(order =~= Seq::<NodeId>::empty());
    } else {
        let p = order.drop_last();
        let n = order.last();
        assert forall|at: int| 0 <= at < p.len() implies table_leads(d, p.take(at), #[trigger] p[at]) by {
            assert(p.take(at) =~= order.take(at));
            assert(p[at] == order[at]);
        }
        lemma_builds_run(d, l, base, p, q);
        let m = run(base, builds(d, l, false, p));
        lemma_run_concat(base, builds(d, l, false, p), node_builds(d, l, false, n));
        assert(p.push(n) =~= order);
        assert(order.take(order.len() - 1) =~= p);
        assert(table_leads(d, p, n));
        match n.kind {
            NodeKind::Type => {
                lemma_build_type_node(d, l, base, m, p, q, n);
                lemma_functions_built_other(d, base.functions, m.functions, p, n);
                lemma_tables_built_other(d, base.tables, m.tables, p, n);
            },
            NodeKind::Function => {
                lemma_build_function_node(d, l, base, m, p, q, n);
                lemma_types_built_other(d, base.types, m.types, p, n);
                lemma_tables_built_other(d, base.tables, m.tables, p, n);
            },
            NodeKind::Table => {
                lemma_build_table_node(d, l, base, m, p, q, n);
                lemma_types_built_other(d, base.types, m.types, p, n);
                lemma_functions_built_other(d, base.functions, m.functions, p, n);
            },
            NodeKind::Column => {
                lemma_build_column_node(d, l, base, m, p, q, n);
                lemma_types_built_other(d, base.types, m.types, p, n);
                lemma_functions_built_other(d, base.functions, m.functions, p, n);
            },
            NodeKind::Constraint => {
                lemma_build_constraint_node(d, l, base, m, p, q, n);
                lemma_types_built_other(d, base.types, m.types, p, n);
                lemma_functions_built_other(d, base.functions, m.functions, p, n);
            },
            _ => {
                assert(node_builds(d, l, false, n) =~= Seq::<ChangeInstruction>::empty());
                assert(run(m, node_builds(d, l, false, n)) == m);
                lemma_types_built_other(d, base.types, m.types, p, n);
                lemma_functions_built_other(d, base.functions, m.functions, p, n);
                lemma_tables_built_other(d, base.tables, m.tables, p, n);
            },
        }
    }
}

/// Scripts change nothing of what a database holds.
proof fn lemma_run_scripts(m: Database, scripts: Seq<ScriptDefinition>, stage: ScriptStage)
    ensures
        run(m, scripts_at(scripts, stage)) == m,
    decreases scripts.len(),
{
    if scripts.len() > 0 {
        lemma_run_scripts(m, scripts.drop_last(), stage);
        if scripts.last().stage == stage {
            let done = scripts_at(scripts.drop_last(), stage);
            let c = ChangeInstruction::RunScript(&scripts.last());
            assert(done.push(c).drop_last() =~= done);
        }
    }
}

/// Enabling the extensions that a plan asks for leaves the objects of the
/// database as they are, and the database with every declared extension
/// that the plan saw missing.
proof fn lemma_run_extensions(m: Database, declared: Seq<ExtensionDefinition>, live: Seq<ExtensionDefinition>)
    ensures
        run(m, extension_changes(declared, live, false)).types == m.types,
        run(m, extension_changes(declared, live, false)).functions == m.functions,
        run(m, extension_changes(declared, live, false)).tables == m.tables,
        run(m, extension_changes(declared, live, false)).schemas == m.schemas,
        forall|x: Seq<char>| #[trigger]
            m.extensions.contains(x) ==> run(m, extension_changes(declared, live, false)).extensions.contains(x),
        forall|i: int|
            0 <= i < declared.len() ==> first_text(extension_names(live), (#[trigger] declared[i]).name@) is Some
                || run(m, extension_changes(declared, live, false)).extensions.contains(declared[i].name@),
    decreases declared.len(),
{
    if declared.len() > 0 {
        let rest = declared.drop_last();
        lemma_run_extensions(m, rest, live);
        let done = extension_changes(rest, live, false);
        let m1 = run(m, done);
        if first_text(extension_names(live), declared.last().name@) is None {
            let c = ChangeInstruction::EnableExtension(&declared.last());
            assert(done.push(c).drop_last() =~= done);
        }
        let m2 = run(m, extension_changes(declared, live, false));
        assert forall|i: int| 0 <= i < declared.len() implies first_text(
            extension_names(live),
            (#[trigger] declared[i]).name@,
        ) is Some || m2.extensions.contains(declared[i].name@) by {
            if i < rest.len() {
                assert(rest[i] == declared[i]);
                assert(first_text(extension_names(live), rest[i].name@) is Some || m1.extensions.contains(
                    rest[i].name@,
                ));
            }
        }
    }
}

/// Creating the schemas that a plan asks for leaves the objects of the
/// database as they are, and the database with every declared schema that
/// the plan saw missing.
proof fn lemma_run_schemas(m: Database, declared: Seq<SchemaDefinition>, live: Seq<SchemaDefinition>)
    ensures
        run(m, schema_changes(declared, live)).types == m.types,
        run(m, schema_changes(declared, live)).functions == m.functions,
        run(m, schema_changes(declared, live)).tables == m.tables,
        run(m, schema_changes(declared, live)).extensions == m.extensions,
        forall|x: Seq<char>| #[trigger]
            m.schemas.contains(x) ==> run(m, schema_changes(declared, live)).schemas.contains(x),
        forall|i: int|
            0 <= i < declared.len() ==> first_text(schema_names(live), (#[trigger] declared[i]).name@) is Some
                || run(m, schema_changes(declared, live)).schemas.contains(declared[i].name@),
    decreases declared.len(),
{
    if declared.len() > 0 {
        let rest = declared.drop_last();
        lemma_run_schemas(m, rest, live);
        let done = schema_changes(rest, live);
        let m1 = run(m, done);
        if first_text(schema_names(live), declared.last().name@) is None {
            let c = ChangeInstruction::CreateSchema(&declared.last());
            assert(done.push(c).drop_last() =~= done);
        }
        let m2 = run(m, schema_changes(declared, live));
        assert forall|i: int| 0 <= i < declared.len() implies first_text(
            schema_names(live),
            (#[trigger] declared[i]).name@,
        ) is Some || m2.schemas.contains(declared[i].name@) by {
            if i < rest.len() {
                assert(rest[i] == declared[i]);
                assert(first_text(schema_names(live), rest[i].name@) is Some || m1.schemas.contains(
                    rest[i].name@,
                ));
            }
        }
    }
}

/// What holds of a database on which a plan was carried out: `base` is
/// what it was after the drops for the nodes `ol`, `m` what it is after
/// what was to be created or altered for the nodes `od`; and it has every
/// declared extension and schema.
pub open spec fn settled(d: Package, l: Package, base: Database, m: Database, od: Seq<NodeId>, ol: Seq<NodeId>) -> bool {
    &&& objects_left(d, l, base, ol)
    &&& builds_done(d, base, m, od)
    &&& forall|i: int| 0 <= i < d.extensions.len() ==> m.extensions.contains((#[trigger] d.extensions[i]).name@)
    &&& forall|i: int| 0 <= i < d.schemas.len() ==> m.schemas.contains((#[trigger] d.schemas[i]).name@)
}

/// The database has what the package declares, as far as the nodes `od`
/// reach: every declared extension and schema; each declared type and
/// function whose node is in `od`, the same as it is declared; each table
/// whose node is in `od`; each column whose node is in `od`, if its table
/// is there, with nothing to alter; and each constraint whose node is in
/// `od`, with its table, the same as it is declared.
pub open spec fn has_declared(d: Package, m: Database, od: Seq<NodeId>) -> bool {
    &&& forall|i: int| 0 <= i < d.extensions.len() ==> m.extensions.contains((#[trigger] d.extensions[i]).name@)
    &&& forall|i: int| 0 <= i < d.schemas.len() ==> m.schemas.contains((#[trigger] d.schemas[i]).name@)
    &&& forall|i: int|
        0 <= i < d.types.len() && od.contains(node_of(NodeKind::Type, (#[trigger] d.types[i]).name@))
            ==> m.types.dom().contains(d.types[i].name@) && typedef_same(d.types[i], m.types[d.types[i].name@])
    &&& forall|i: int|
        0 <= i < d.functions.len() && od.contains(
            node_of(NodeKind::Function, (#[trigger] d.functions[i]).name@),
        ) ==> m.functions.dom().contains(d.functions[i].name@) && function_same(
            d.functions[i],
            m.functions[d.functions[i].name@],
        )
    &&& forall|i: int|
        0 <= i < d.tables.len() && od.contains(node_of(NodeKind::Table, (#[trigger] d.tables[i]).name@))
            ==> m.tables.dom().contains(d.tables[i].name@)
    &&& forall|i: int, j: int|
        0 <= i < d.tables.len() && 0 <= j < d.tables[i].columns.len() && od.contains(
            part_node(NodeKind::Column, d.tables[i].name@, (#[trigger] d.tables[i].columns[j]).name@),
        ) && m.tables.dom().contains(d.tables[i].name@) ==> m.tables[d.tables[i].name@].columns.dom().contains(
            d.tables[i].columns[j].name@,
        ) && column_settled(
            d.tables[i].columns[j],
            m.tables[d.tables[i].name@].columns[d.tables[i].columns[j].name@],
        )
    &&& forall|i: int, j: int|
        0 <= i < d.tables.len() && 0 <= j < d.tables[i].constraints.len() && od.contains(
            part_node(
                NodeKind::Constraint,
                d.tables[i].name@,
                (#[trigger] d.tables[i].constraints[j]).name_spec()@,
            ),
        ) ==> m.tables.dom().contains(d.tables[i].name@) && m.tables[d.tables[i].name@].constraints.dom().contains(
            d.tables[i].constraints[j].name_spec()@,
        ) && constraint_same(
            d.tables[i].constraints[j],
            m.tables[d.tables[i].name@].constraints[d.tables[i].constraints[j].name_spec()@],
        )
}

/// The database has nothing that the package does not declare, as far as
/// the nodes `ol` reach: each declared type, function and table of the
/// database whose node is in `ol` is declared; and of a declared table,
/// each column whose node is in `ol` is declared, and each constraint whose
/// node is in `ol` is declared the same.
pub open spec fn has_only_declared(d: Package, m: Database, ol: Seq<NodeId>) -> bool {
    &&& forall|k: NameView|
        m.types.dom().contains(k) && ol.contains(#[trigger] node_of(NodeKind::Type, k)) ==> first_key(
            type_names(d.types@),
            k,
        ) is Some
    &&& forall|k: NameView|
        m.functions.dom().contains(k) && ol.contains(#[trigger] node_of(NodeKind::Function, k))
            ==> first_key(function_names(d.functions@), k) is Some
    &&& forall|k: NameView|
        m.tables.dom().contains(k) && ol.contains(#[trigger] node_of(NodeKind::Table, k)) ==> first_key(
            table_names(d.tables@),
            k,
        ) is Some
    &&& forall|k: NameView, c: Seq<char>|
        m.tables.dom().contains(k) && m.tables[k].columns.dom().contains(c) && ol.contains(
            #[trigger] part_node(NodeKind::Column, k, c),
        ) && first_key(table_names(d.tables@), k) is Some ==> first_text(
            column_names(d.tables[first_key(table_names(d.tables@), k)->0]),
            c,
        ) is Some
    &&& forall|k: NameView, x: Seq<char>|
        m.tables.dom().contains(k) && m.tables[k].constraints.dom().contains(x) && ol.contains(
            #[trigger] part_node(NodeKind::Constraint, k, x),
        ) && first_key(table_names(d.tables@), k) is Some ==> declared_same(
            d.tables[first_key(table_names(d.tables@), k)->0],
            x,
            m.tables[k].constraints[x],
        )
}

/// The database agrees with the package as far as the orders reach: it
/// has what the package declares, and nothing else.
pub open spec fn agrees(d: Package, m: Database, od: Seq<NodeId>, ol: Seq<NodeId>) -> bool {
    has_declared(d, m, od) && has_only_declared(d, m, ol)
}

/// A database on which a plan was carried out agrees with the package.
proof fn lemma_settled_agrees(d: Package, l: Package, base: Database, m: Database, od: Seq<NodeId>, ol: Seq<NodeId>)
    requires
        plain(d),
        plain(l),
        settled(d, l, base, m, od, ol),
    ensures
        agrees(d, m, od, ol),
{
    lemma_state_tables(l);
    let m0 = state_of(l);
    let declared = table_names(d.tables@);
    assert forall|k: NameView|
        m.types.dom().contains(k) && ol.contains(
            #[trigger] node_of(NodeKind::Type, k),
        ) implies first_key(type_names(d.types@), k) is Some by {
        if first_key(type_names(d.types@), k) is None {
            assert(base.types.dom().contains(k));
        }
    }
    assert forall|k: NameView|
        m.functions.dom().contains(k) && ol.contains(
            #[trigger] node_of(NodeKind::Function, k),
        ) implies first_key(function_names(d.functions@), k) is Some by {
        if first_key(function_names(d.functions@), k) is None {
            assert(base.functions.dom().contains(k));
        }
    }
    assert forall|k: NameView|
        m.tables.dom().contains(k) && ol.contains(
            #[trigger] node_of(NodeKind::Table, k),
        ) implies first_key(declared, k) is Some by {
        if first_key(declared, k) is None {
            assert(base.tables.dom().contains(k));
        }
    }
    assert forall|k: NameView, c: Seq<char>|
        m.tables.dom().contains(k) && m.tables[k].columns.dom().contains(c) && ol.contains(
            #[trigger] part_node(NodeKind::Column, k, c),
        ) && first_key(declared, k) is Some implies first_text(
        column_names(d.tables[first_key(declared, k)->0]),
        c,
    ) is Some by {
        let t = d.tables[first_key(declared, k)->0];
        assert(table_built(t, was(base.tables, k), m.tables[k]));
        if base.tables.dom().contains(k) {
            assert(table_altered(t, base.tables[k], m.tables[k]));
            assert(table_kept(d, m0.tables[k], base.tables[k], ol, k));
            if first_text(column_names(t), c) is None {
                assert(base.tables[k].columns.dom().contains(c));
                assert(!ol.contains(part_node(NodeKind::Column, k, c)));
            }
        } else {
            assert(table_created(t, m.tables[k]));
            lemma_table_state(t);
        }
    }
    assert forall|k: NameView, x: Seq<char>|
        m.tables.dom().contains(k) && m.tables[k].constraints.dom().contains(x) && ol.contains(
            #[trigger] part_node(NodeKind::Constraint, k, x),
        ) && first_key(declared, k) is Some implies declared_same(
        d.tables[first_key(declared, k)->0],
        x,
        m.tables[k].constraints[x],
    ) by {
        let t = d.tables[first_key(declared, k)->0];
        let have = m.tables[k].constraints[x];
        assert(table_built(t, was(base.tables, k), m.tables[k]));
        lemma_constraint_same_reflexive(have);
        if base.tables.dom().contains(k) {
            assert(table_altered(t, base.tables[k], m.tables[k]));
            assert(table_kept(d, m0.tables[k], base.tables[k], ol, k));
            if base.tables[k].constraints.dom().contains(x) {
                assert(base.tables[k].constraints[x] == have);
                if !declared_same(t, x, have) {
                    assert(!ol.contains(part_node(NodeKind::Constraint, k, x)));
                }
            }
        } else {
            assert(table_created(t, m.tables[k]));
        }
    }
}

/// On a database that agrees with the package, nothing is to be dropped
/// for a node of `ol`.
proof fn lemma_agreeing_no_drops(d: Package, a: Package, od: Seq<NodeId>, ol: Seq<NodeId>, n: NodeId)
    requires
        plain(d),
        plain(a),
        agrees(d, state_of(a), od, ol),
        ol.contains(n),
    ensures
        node_drops(d, a, n) == Seq::<ChangeInstruction>::empty(),
{
    let m = state_of(a);
    lemma_state_tables(a);
    match n.kind {
        NodeKind::Type => {
            let declared = type_names(d.types@);
            match first_text(type_texts(a.types@), n.name) {
                Some(i) => {
                    lemma_type_text(a, n.name, i);
                    let k = a.types[i].name@;
                    lemma_key_found(type_names(a.types@), i);
                    lemma_first_key(declared, a.types[i].name);
                    assert(m.types.dom().contains(k));
                    assert(node_of(NodeKind::Type, k) == n);
                },
                None => {},
            }
        },
        NodeKind::Function => {
            let declared = function_names(d.functions@);
            match first_text(function_texts(a.functions@), n.name) {
                Some(i) => {
                    lemma_function_text(a, n.name, i);
                    let k = a.functions[i].name@;
                    lemma_key_found(function_names(a.functions@), i);
                    lemma_first_key(declared, a.functions[i].name);
                    assert(m.functions.dom().contains(k));
                    assert(node_of(NodeKind::Function, k) == n);
                },
                None => {},
            }
        },
        NodeKind::Table => {
            let declared = table_names(d.tables@);
            match first_text(table_texts(a.tables@), n.name) {
                Some(i) => {
                    lemma_table_text(a, n.name, i);
                    let k = a.tables[i].name@;
                    lemma_key_found(table_names(a.tables@), i);
                    lemma_first_key(declared, a.tables[i].name);
                    assert(m.tables.dom().contains(k));
                    assert(node_of(NodeKind::Table, k) == n);
                },
                None => {},
            }
        },
        NodeKind::Column => {
            let declared = table_names(d.tables@);
            match first_owner(column_texts(a.tables@), n.name) {
                Some((i, j)) => {
                    lemma_owner_in_range(column_texts(a.tables@), n.name, i, j);
                    assert(column_texts(a.tables@)[i] == column_texts_of(a.tables[i]));
                    let k = a.tables[i].name@;
                    let c = a.tables[i].columns[j].name@;
                    lemma_own_key(table_names(a.tables@), i);
                    lemma_own_text_first_column(a, i, j);
                    lemma_table_state(a.tables[i]);
                    lemma_first_key(declared, a.tables[i].name);
                    assert(m.tables.dom().contains(k));
                    assert(m.tables[k].columns.dom().contains(c));
                    assert(part_node(NodeKind::Column, k, c) == n);
                },
                None => {},
            }
        },
        NodeKind::Constraint => {
            let declared = table_names(d.tables@);
            match first_owner(constraint_texts(a.tables@), n.name) {
                Some((i, j)) => {
                    lemma_owner_in_range(constraint_texts(a.tables@), n.name, i, j);
                    assert(constraint_texts(a.tables@)[i] == constraint_texts_of(a.tables[i]));
                    let k = a.tables[i].name@;
                    let have = a.tables[i].constraints[j];
                    let x = have.name_spec()@;
                    lemma_own_key(table_names(a.tables@), i);
                    lemma_own_text_first_constraint(a, i, j);
                    lemma_table_state(a.tables[i]);
                    lemma_first_key(declared, a.tables[i].name);
                    assert(m.tables.dom().contains(k));
                    assert(m.tables[k].constraints.dom().contains(x));
                    assert(m.tables[k].constraints[x] == have);
                    assert(part_node(NodeKind::Constraint, k, x) == n);
                },
                None => {},
            }
        },
        _ => {},
    }
}

/// On a database that agrees with the package, nothing is to be created
/// or altered for a node of `od`.
proof fn lemma_agreeing_no_builds(d: Package, a: Package, od: Seq<NodeId>, ol: Seq<NodeId>, n: NodeId)
    requires
        plain(d),
        plain(a),
        agrees(d, state_of(a), od, ol),
        od.contains(n),
    ensures
        node_builds(d, a, false, n) == Seq::<ChangeInstruction>::empty(),
{
    let m = state_of(a);
    lemma_state_tables(a);
    match n.kind {
        NodeKind::Type => {
            match first_text(type_texts(d.types@), n.name) {
                Some(i) => {
                    lemma_type_text(d, n.name, i);
                    let k = d.types[i].name@;
                    assert(node_of(NodeKind::Type, k) == n);
                    lemma_first_key(type_names(a.types@), d.types[i].name);
                    assert(m.types.dom().contains(k));
                },
                None => {},
            }
        },
        NodeKind::Function => {
            match first_text(function_texts(d.functions@), n.name) {
                Some(i) => {
                    lemma_function_text(d, n.name, i);
                    let k = d.functions[i].name@;
                    assert(node_of(NodeKind::Function, k) == n);
                    lemma_first_key(function_names(a.functions@), d.functions[i].name);
                    assert(m.functions.dom().contains(k));
                },
                None => {},
            }
        },
        NodeKind::Table => {
            match first_text(table_texts(d.tables@), n.name) {
                Some(i) => {
                    lemma_table_text(d, n.name, i);
                    let k = d.tables[i].name@;
                    assert(node_of(NodeKind::Table, k) == n);
                    lemma_first_key(table_names(a.tables@), d.tables[i].name);
                    assert(m.tables.dom().contains(k));
                },
                None => {},
            }
        },
        NodeKind::Column => {
            match first_owner(column_texts(d.tables@), n.name) {
                Some((i, j)) => {
                    lemma_owner_in_range(column_texts(d.tables@), n.name, i, j);
                    assert(column_texts(d.tables@)[i] == column_texts_of(d.tables[i]));
                    let k = d.tables[i].name@;
                    let want = d.tables[i].columns[j];
                    let c = want.name@;
                    assert(part_node(NodeKind::Column, k, c) == n);
                    lemma_first_key(table_names(a.tables@), d.tables[i].name);
                    if first_key(table_names(a.tables@), k) is Some {
                        let ka = first_key(table_names(a.tables@), k)->0;
                        lemma_first_key_in_range(table_names(a.tables@), k);
                        assert(m.tables.dom().contains(k));
                        assert(m.tables[k] == table_state(a.tables[ka]));
                        lemma_table_state(a.tables[ka]);
                        assert(m.tables[k].columns.dom().contains(c));
                        let have = m.tables[k].columns[c];
                        assert(column_settled(want, have));
                        assert(column_alters(d.tables[i].name, want, have) =~= Seq::<ChangeInstruction>::empty());
                    }
                },
                None => {},
            }
        },
        NodeKind::Constraint => {
            match first_owner(constraint_texts(d.tables@), n.name) {
                Some((i, j)) => {
                    lemma_owner_in_range(constraint_texts(d.tables@), n.name, i, j);
                    assert(constraint_texts(d.tables@)[i] == constraint_texts_of(d.tables[i]));
                    let k = d.tables[i].name@;
                    let want = d.tables[i].constraints[j];
                    let x = want.name_spec()@;
                    assert(part_node(NodeKind::Constraint, k, x) == n);
                    lemma_first_key(table_names(a.tables@), d.tables[i].name);
                    assert(m.tables.dom().contains(k));
                    let ka = first_key(table_names(a.tables@), k)->0;
                    lemma_first_key_in_range(table_names(a.tables@), k);
                    assert(m.tables[k] == table_state(a.tables[ka]));
                    lemma_table_state(a.tables[ka]);
                    assert(m.tables[k].constraints.dom().contains(x));
                },
                None => {},
            }
        },
        _ => {},
    }
}

/// On a database that agrees with the package, nothing is to be dropped
/// for the nodes `order`, which are among `ol`.
proof fn lemma_agreeing_drops(d: Package, a: Package, od: Seq<NodeId>, ol: Seq<NodeId>, order: Seq<NodeId>)
    requires
        plain(d),
        plain(a),
        agrees(d, state_of(a), od, ol),
        forall|i: int| 0 <= i < order.len() ==> ol.contains(#[trigger] order[i]),
    ensures
        drops(d, a, order) == Seq::<ChangeInstruction>::empty(),
    decreases order.len(),
{
    if order.len() > 0 {
        let rest = order.drop_first();
        assert forall|i: int| 0 <= i < rest.len() implies ol.contains(#[trigger] rest[i]) by {
            assert(rest[i] == order[i + 1]);
        }
        lemma_agreeing_drops(d, a, od, ol, rest);
        lemma_agreeing_no_drops(d, a, od, ol, order[0]);
        assert(Seq::<ChangeInstruction>::empty() + Seq::<ChangeInstruction>::empty() =~= Seq::<
            ChangeInstruction,
        >::empty());
    }
}

/// On a database that agrees with the package, nothing is to be created
/// or altered for the nodes `order`, which are among `od`.
proof fn lemma_agreeing_builds(d: Package, a: Package, od: Seq<NodeId>, ol: Seq<NodeId>, order: Seq<NodeId>)
    requires
        plain(d),
        plain(a),
        agrees(d, state_of(a), od, ol),
        forall|i: int| 0 <= i < order.len() ==> od.contains(#[trigger] order[i]),
    ensures
        builds(d, a, false, order) == Seq::<ChangeInstruction>::empty(),
    decreases order.len(),
{
    if order.len() > 0 {
        let rest = order.drop_last();
        assert forall|i: int| 0 <= i < rest.len() implies od.contains(#[trigger] rest[i]) by {
            assert(rest[i] == order[i]);
        }
        lemma_agreeing_builds(d, a, od, ol, rest);
        lemma_agreeing_no_builds(d, a, od, ol, order.last());
        assert(Seq::<ChangeInstruction>::empty() + Seq::<ChangeInstruction>::empty() =~= Seq::<
            ChangeInstruction,
        >::empty());
    }
}

/// The database after the drops of a plan and after the extensions and
/// schemas that it asks for.
pub open spec fn before_builds(d: Package, l: Package, ol: Seq<NodeId>) -> Database {
    run(
        run(run(state_of(l), drops(d, l, ol)), extension_changes(d.extensions@, l.extensions@, false)),
        schema_changes(d.schemas@, l.schemas@),
    )
}

/// What holds of the database on which a plan was carried out.
proof fn lemma_plan_settles(d: Package, l: Package, profile: PublishProfile, od: Seq<NodeId>, ol: Seq<NodeId>)
    requires
        plain(d),
        plain(l),
        tables_lead(d, od),
        constraints_covered(l, ol),
        !profile.generation_options.always_recreate_function,
        !profile.generation_options.force_extension_upgrade,
    ensures
        settled(d, l, before_builds(d, l, ol), run(state_of(l), plan_with(d, l, profile, od, ol)), od, ol),
{
    let m0 = state_of(l);
    let pre = scripts_at(d.scripts@, ScriptStage::Pre);
    let post = scripts_at(d.scripts@, ScriptStage::Post);
    let dr = drops(d, l, ol);
    let ex = extension_changes(d.extensions@, l.extensions@, false);
    let sc = schema_changes(d.schemas@, l.schemas@);
    let bu = builds(d, l, false, od);
    let plan = plan_with(d, l, profile, od, ol);
    assert(plan == pre + dr + ex + sc + bu + post);
    lemma_run_concat(m0, pre + dr + ex + sc + bu, post);
    lemma_run_concat(m0, pre + dr + ex + sc, bu);
    lemma_run_concat(m0, pre + dr + ex, sc);
    lemma_run_concat(m0, pre + dr, ex);
    lemma_run_concat(m0, pre, dr);
    lemma_run_scripts(m0, d.scripts@, ScriptStage::Pre);
    let m2 = run(m0, dr);
    lemma_drops_run(d, l, ol);
    let m3 = run(m2, ex);
    lemma_run_extensions(m2, d.extensions@, l.extensions@);
    let base = run(m3, sc);
    lemma_run_schemas(m3, d.schemas@, l.schemas@);
    let m = run(base, bu);
    assert(objects_left(d, l, base, ol));
    lemma_builds_run(d, l, base, od, ol);
    lemma_run_scripts(m, d.scripts@, ScriptStage::Post);
    assert(m == run(m0, plan));
    assert forall|i: int| 0 <= i < d.extensions.len() implies m.extensions.contains(
        (#[trigger] d.extensions[i]).name@,
    ) by {
        let x = d.extensions@[i].name@;
        if first_text(extension_names(l.extensions@), x) is Some {
            assert(m0.extensions.contains(x));
            assert(m2.extensions.contains(x));
            assert(m3.extensions.contains(x));
        } else {
            assert(m3.extensions.contains(x));
        }
    }
    assert forall|i: int| 0 <= i < d.schemas.len() implies m.schemas.contains(
        (#[trigger] d.schemas[i]).name@,
    ) by {
        let x = d.schemas@[i].name@;
        if first_text(schema_names(l.schemas@), x) is Some {
            assert(m0.schemas.contains(x));
            assert(m2.schemas.contains(x));
            assert(m3.schemas.contains(x));
            assert(base.schemas.contains(x));
        } else {
            assert(base.schemas.contains(x));
        }
    }
}

/// A plan carried out brings the database to the package. Let the plan
/// that brings the database `l` to the package `d` be made in the orders
/// `od` and `ol`. Then the database on which the plan was carried out
/// agrees with `d` as far as the orders reach: it has what `d` declares
/// and `od` names, and nothing that `ol` names and `d` does not declare.
///
/// This holds where the names of the two packages are unique and hold no
/// points, so that a node stands for one object; where in `od` the node of
/// a table stands before those of its constraints; where `ol` holds the
/// node of every constraint of `l`; and where the profile does not ask to
/// replace every function or to enable every extension.
pub proof fn lemma_plan_carried_out(d: Package, l: Package, profile: PublishProfile, od: Seq<NodeId>, ol: Seq<NodeId>)
    requires
        plain(d),
        plain(l),
        tables_lead(d, od),
        constraints_covered(l, ol),
        !profile.generation_options.always_recreate_function,
        !profile.generation_options.force_extension_upgrade,
    ensures
        agrees(d, run(state_of(l), plan_with(d, l, profile, od, ol)), od, ol),
{
    lemma_plan_settles(d, l, profile, od, ol);
    lemma_settled_agrees(
        d,
        l,
        before_builds(d, l, ol),
        run(state_of(l), plan_with(d, l, profile, od, ol)),
        od,
        ol,
    );
}

/// For a database that agrees with the package there is nothing to plan:
/// the plan, made in the orders as far as which the two agree, runs the
/// scripts and changes nothing else. `a` is a package that describes the
/// database; its names and those of `d` must be unique and hold no points,
/// and the profile must not ask to replace every function or to enable
/// every extension.
pub proof fn lemma_agreement_leaves_nothing(d: Package, a: Package, profile: PublishProfile, od: Seq<NodeId>, ol: Seq<NodeId>)
    requires
        plain(d),
        plain(a),
        agrees(d, state_of(a), od, ol),
        !profile.generation_options.always_recreate_function,
        !profile.generation_options.force_extension_upgrade,
    ensures
        plan_with(d, a, profile, od, ol) == scripts_at(d.scripts@, ScriptStage::Pre) + scripts_at(
            d.scripts@,
            ScriptStage::Post,
        ),
        drops(d, a, ol) == Seq::<ChangeInstruction>::empty(),
{
    let m = state_of(a);
    let pre = scripts_at(d.scripts@, ScriptStage::Pre);
    let post = scripts_at(d.scripts@, ScriptStage::Post);
    lemma_agreeing_drops(d, a, od, ol, ol);
    lemma_agreeing_builds(d, a, od, ol, od);
    assert forall|i: int| 0 <= i < d.extensions@.len() implies first_text(
        extension_names(a.extensions@),
        (#[trigger] d.extensions@[i]).name@,
    ) is Some by {
        assert(m.extensions.contains(d.extensions[i].name@));
    }
    lemma_no_extension_changes(d.extensions@, a.extensions@);
    assert forall|i: int| 0 <= i < d.schemas@.len() implies first_text(
        schema_names(a.schemas@),
        (#[trigger] d.schemas@[i]).name@,
    ) is Some by {
        assert(m.schemas.contains(d.schemas[i].name@));
    }
    lemma_no_schema_changes(d.schemas@, a.schemas@);
    let none = Seq::<ChangeInstruction>::empty();
    assert(pre + none + none + none + none + post =~= pre + post);
}

/// A plan carried out leaves nothing to plan. Let the plan that brings the
/// database `l` to the package `d` be made in the orders `od` and `ol`,
/// and let `a` be a package that describes the database on which the plan
/// was carried out. Then the plan that brings `a` to `d`, made in the same
/// orders, runs the scripts and changes nothing else.
///
/// This holds where the names of the three packages are unique and hold
/// no points, so that a node stands for one object; where in `od` the node
/// of a table stands before those of its constraints; where `ol` holds the
/// node of every constraint of `l`; and where the profile does not ask to
/// replace every function or to enable every extension.
pub proof fn lemma_replanning_is_empty(
    d: Package,
    l: Package,
    a: Package,
    profile: PublishProfile,
    od: Seq<NodeId>,
    ol: Seq<NodeId>,
)
    requires
        plain(d),
        plain(l),
        plain(a),
        tables_lead(d, od),
        constraints_covered(l, ol),
        !profile.generation_options.always_recreate_function,
        !profile.generation_options.force_extension_upgrade,
        state_of(a) == run(state_of(l), plan_with(d, l, profile, od, ol)),
    ensures
        plan_with(d, a, profile, od, ol) == scripts_at(d.scripts@, ScriptStage::Pre) + scripts_at(
            d.scripts@,
            ScriptStage::Post,
        ),
{
    lemma_plan_carried_out(d, l, profile, od, ol);
    lemma_agreement_leaves_nothing(d, a, profile, od, ol);
}

/// The nodes `q` hold the node of every declared type, function, table,
/// column and constraint of the package.
pub open spec fn covered(l: Package, q: Seq<NodeId>) -> bool {
    &&& forall|i: int|
        0 <= i < l.types.len() ==> q.contains(node_of(NodeKind::Type, (#[trigger] l.types[i]).name@))
    &&& forall|i: int|
        0 <= i < l.functions.len() ==> q.contains(
            node_of(NodeKind::Function, (#[trigger] l.functions[i]).name@),
        )
    &&& forall|i: int|
        0 <= i < l.tables.len() ==> q.contains(node_of(NodeKind::Table, (#[trigger] l.tables[i]).name@))
    &&& forall|i: int, j: int|
        0 <= i < l.tables.len() && 0 <= j < l.tables[i].columns.len() ==> q.contains(
            part_node(NodeKind::Column, l.tables[i].name@, (#[trigger] l.tables[i].columns[j]).name@),
        )
    &&& constraints_covered(l, q)
}

/// An order that holds every node of the graph of a package holds the
/// node of each of its objects.
pub proof fn lemma_total_order_covers(l: Package, order: Seq<NodeId>)
    requires
        l.graph().is_total(order),
    ensures
        covered(l, order),
{
    assert forall|i: int| 0 <= i < l.types.len() implies order.contains(
        node_of(NodeKind::Type, (#[trigger] l.types[i]).name@),
    ) by {
        lemma_type_node(l, i);
    }
    assert forall|i: int| 0 <= i < l.functions.len() implies order.contains(
        node_of(NodeKind::Function, (#[trigger] l.functions[i]).name@),
    ) by {
        lemma_function_node(l, i);
    }
    assert forall|i: int| 0 <= i < l.tables.len() implies order.contains(
        node_of(NodeKind::Table, (#[trigger] l.tables[i]).name@),
    ) by {
        lemma_table_node(l, i);
    }
    assert forall|i: int, j: int|
        0 <= i < l.tables.len() && 0 <= j < l.tables[i].columns.len() implies order.contains(
        part_node(NodeKind::Column, l.tables[i].name@, (#[trigger] l.tables[i].columns[j]).name@),
    ) by {
        lemma_column_node(l, i, j);
    }
    assert forall|i: int, j: int|
        0 <= i < l.tables.len() && 0 <= j < l.tables[i].constraints.len() implies order.contains(
        part_node(
            NodeKind::Constraint,
            l.tables[i].name@,
            (#[trigger] l.tables[i].constraints[j]).name_spec()@,
        ),
    ) by {
        lemma_constraint_node(l, i, j);
    }
}

/// In an order that respects the edges of the graph of a plain package,
/// the node of a table stands before those of its constraints.
pub proof fn lemma_edges_lead(d: Package, order: Seq<NodeId>)
    requires
        plain(d),
        d.graph().respects_edges(order),
    ensures
        tables_lead(d, order),
{
    assert forall|at: int| 0 <= at < order.len() implies table_leads(d, order.take(at), #[trigger] order[at]) by {
        let n = order[at];
        if n.kind == NodeKind::Constraint {
            match first_owner(constraint_texts(d.tables@), n.name) {
                Some((i, j)) => {
                    lemma_owner_in_range(constraint_texts(d.tables@), n.name, i, j);
                    assert(constraint_texts(d.tables@)[i] == constraint_texts_of(d.tables[i]));
                    lemma_constraint_node(d, i, j);
                    let to = node_of(NodeKind::Table, d.tables[i].name@);
                    assert(d.graph().has_edge(order[at], to));
                    let b = choose|b: int| 0 <= b < at && order[b] == to;
                    assert(order.take(at)[b] == to);
                },
                None => {},
            }
        }
    }
}

/// Where the first plan was made in an order that holds the node of every
/// object of `l`, the database on which it was carried out has nothing
/// that the package does not declare, whatever the order of the second
/// plan.
proof fn lemma_settled_everywhere(
    d: Package,
    l: Package,
    base: Database,
    m: Database,
    od: Seq<NodeId>,
    ol: Seq<NodeId>,
    other: Seq<NodeId>,
)
    requires
        plain(d),
        plain(l),
        settled(d, l, base, m, od, ol),
        covered(l, ol),
    ensures
        has_only_declared(d, m, other),
{
    lemma_state_tables(l);
    let m0 = state_of(l);
    let declared = table_names(d.tables@);
    assert forall|k: NameView|
        m.types.dom().contains(k) && other.contains(
            #[trigger] node_of(NodeKind::Type, k),
        ) implies first_key(type_names(d.types@), k) is Some by {
        if first_key(type_names(d.types@), k) is None {
            assert(base.types.dom().contains(k));
            assert(m0.types.dom().contains(k));
            lemma_first_key_in_range(type_names(l.types@), k);
            let i = first_key(type_names(l.types@), k)->0;
            assert(l.types[i].name@ == k);
            assert(ol.contains(node_of(NodeKind::Type, l.types[i].name@)));
        }
    }
    assert forall|k: NameView|
        m.functions.dom().contains(k) && other.contains(
            #[trigger] node_of(NodeKind::Function, k),
        ) implies first_key(function_names(d.functions@), k) is Some by {
        if first_key(function_names(d.functions@), k) is None {
            assert(base.functions.dom().contains(k));
            assert(m0.functions.dom().contains(k));
            lemma_first_key_in_range(function_names(l.functions@), k);
            let i = first_key(function_names(l.functions@), k)->0;
            assert(l.functions[i].name@ == k);
            assert(ol.contains(node_of(NodeKind::Function, l.functions[i].name@)));
        }
    }
    assert forall|k: NameView|
        m.tables.dom().contains(k) && other.contains(
            #[trigger] node_of(NodeKind::Table, k),
        ) implies first_key(declared, k) is Some by {
        if first_key(declared, k) is None {
            assert(base.tables.dom().contains(k));
            assert(m0.tables.dom().contains(k));
            lemma_first_key_in_range(table_names(l.tables@), k);
            let i = first_key(table_names(l.tables@), k)->0;
            assert(l.tables[i].name@ == k);
            assert(ol.contains(node_of(NodeKind::Table, l.tables[i].name@)));
        }
    }
    assert forall|k: NameView, c: Seq<char>|
        m.tables.dom().contains(k) && m.tables[k].columns.dom().contains(c) && other.contains(
            #[trigger] part_node(NodeKind::Column, k, c),
        ) && first_key(declared, k) is Some implies first_text(
        column_names(d.tables[first_key(declared, k)->0]),
        c,
    ) is Some by {
        let t = d.tables[first_key(declared, k)->0];
        assert(table_built(t, was(base.tables, k), m.tables[k]));
        if base.tables.dom().contains(k) {
            assert(table_altered(t, base.tables[k], m.tables[k]));
            assert(table_kept(d, m0.tables[k], base.tables[k], ol, k));
            if first_text(column_names(t), c) is None {
                assert(base.tables[k].columns.dom().contains(c));
                assert(m0.tables[k].columns.dom().contains(c));
                lemma_live_column(l, k, c);
                let i = first_key(table_names(l.tables@), k)->0;
                let j = first_text(column_names(l.tables[i]), c)->0;
                lemma_first_text_within(column_names(l.tables[i]), c);
                assert(ol.contains(
                    part_node(NodeKind::Column, l.tables[i].name@, l.tables[i].columns[j].name@),
                ));
                assert(!ol.contains(part_node(NodeKind::Column, k, c)));
            }
        } else {
            assert(table_created(t, m.tables[k]));
            lemma_table_state(t);
        }
    }
    assert forall|k: NameView, x: Seq<char>|
        m.tables.dom().contains(k) && m.tables[k].constraints.dom().contains(x) && other.contains(
            #[trigger] part_node(NodeKind::Constraint, k, x),
        ) && first_key(declared, k) is Some implies declared_same(
        d.tables[first_key(declared, k)->0],
        x,
        m.tables[k].constraints[x],
    ) by {
        let t = d.tables[first_key(declared, k)->0];
        let have = m.tables[k].constraints[x];
        assert(table_built(t, was(base.tables, k), m.tables[k]));
        lemma_constraint_same_reflexive(have);
        if base.tables.dom().contains(k) {
            assert(table_altered(t, base.tables[k], m.tables[k]));
            assert(table_kept(d, m0.tables[k], base.tables[k], ol, k));
            if base.tables[k].constraints.dom().contains(x) {
                assert(base.tables[k].constraints[x] == have);
                if !declared_same(t, x, have) {
                    assert(m0.tables[k].constraints.dom().contains(x));
                    lemma_live_constraint(l, k, x);
                    let i = first_key(table_names(l.tables@), k)->0;
                    let j = first_text(constraint_names(l.tables[i]), x)->0;
                    lemma_first_text_within(constraint_names(l.tables[i]), x);
                    assert(ol.contains(
                        part_node(
                            NodeKind::Constraint,
                            l.tables[i].name@,
                            l.tables[i].constraints[j].name_spec()@,
                        ),
                    ));
                    assert(!ol.contains(part_node(NodeKind::Constraint, k, x)));
                }
            }
        } else {
            assert(table_created(t, m.tables[k]));
        }
    }
}

/// A plan carried out leaves nothing to plan, for packages in their build
/// orders. Let the plan bring the database `l` to the package `d`, and let
/// `a` be a package that describes the database on which the plan was
/// carried out. Then the plan that brings `a` to `d` runs the scripts and
/// changes nothing else, whatever the order of `a`.
///
/// This holds where the names of the three packages are unique and hold
/// no points; where the order of `d` respects the edges of its graph and
/// the order of `l` holds every node of its graph, as the orders do that
/// the packages compute for themselves; and where the profile does not ask
/// to replace every function or to enable every extension.
pub proof fn lemma_replanning_in_build_orders(d: Package, l: Package, a: Package, profile: PublishProfile)
    requires
        plain(d),
        plain(l),
        plain(a),
        d.graph().respects_edges(order_of(d)),
        l.graph().is_total(order_of(l)),
        !profile.generation_options.always_recreate_function,
        !profile.generation_options.force_extension_upgrade,
        state_of(a) == run(state_of(l), plan_spec(d, l, profile)),
    ensures
        plan_spec(d, a, profile) == scripts_at(d.scripts@, ScriptStage::Pre) + scripts_at(
            d.scripts@,
            ScriptStage::Post,
        ),
{
    let od = order_of(d);
    let ol = order_of(l);
    let oa = order_of(a);
    lemma_edges_lead(d, od);
    lemma_total_order_covers(l, ol);
    lemma_plan_settles(d, l, profile, od, ol);
    let m = state_of(a);
    lemma_settled_agrees(d, l, before_builds(d, l, ol), m, od, ol);
    lemma_settled_everywhere(d, l, before_builds(d, l, ol), m, od, ol, oa);
    lemma_agreement_leaves_nothing(d, a, profile, od, oa);
}

} // verus!

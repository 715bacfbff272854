//! The planner: from what a package declares and what a database has to the
//! changes that bring the database to the package.

use vstd::prelude::*;
use vstd::string::StringExecFns;
use crate::ast::{
    ColumnDefinition, ExtensionDefinition, FunctionDefinition, ObjectName, SchemaDefinition,
    ScriptDefinition, ScriptStage, TableConstraint, TableDefinition, TypeDefinition,
};
use crate::errors::PsqlpackError;
use crate::graph::dependency::ids;
use crate::graph::order::lemma_build_order_unique;
use crate::graph::{Node, NodeId, NodeKind};
use crate::model::compare::{
    constraint_same, default_same, function_same, same_constraint, same_default, same_function,
    same_type, same_typedef, type_same, typedef_same,
};
use crate::model::dependencies::unresolved_message;
use crate::model::lookup::{
    column_names, column_texts, constraint_names, constraint_texts, extension_names, find_column,
    find_constraint, find_extension, find_function, find_owner, find_schema, find_table, find_text,
    find_type, first_name, first_owner, first_text, function_names, function_texts, schema_names,
    table_names, table_texts, type_names, type_texts, Catalog,
};
use crate::model::package::Package;
use crate::model::profiles::PublishProfile;

verus! {

/// What about a column an instruction changes.
#[derive(Clone, Copy, Debug, PartialEq, Eq, Structural)]
pub enum ColumnChange {
    Type,
    Nullability,
    Default,
}

/// One change to a database. The objects are those of the package where the
/// change creates or alters, and those of the database where it drops.
#[derive(Clone, Debug, PartialEq, Eq)]
pub enum ChangeInstruction<'a> {
    RunScript(&'a ScriptDefinition),
    EnableExtension(&'a ExtensionDefinition),
    CreateSchema(&'a SchemaDefinition),
    CreateType(&'a TypeDefinition),
    AlterType(&'a TypeDefinition),
    DropType(&'a ObjectName),
    CreateTable(&'a TableDefinition),
    DropTable(&'a ObjectName),
    AddColumn(&'a ObjectName, &'a ColumnDefinition),
    AlterColumn(&'a ObjectName, &'a ColumnDefinition, ColumnChange),
    DropColumn(&'a ObjectName, &'a String),
    AddConstraint(&'a ObjectName, &'a TableConstraint),
    DropConstraint(&'a ObjectName, &'a String),
    CreateOrReplaceFunction(&'a FunctionDefinition),
    DropFunction(&'a FunctionDefinition),
}

impl<'a> ChangeInstruction<'a> {
    /// The instruction takes something away from the database.
    pub open spec fn is_drop_spec(&self) -> bool {
        match self {
            ChangeInstruction::DropType(_) => true,
            ChangeInstruction::DropTable(_) => true,
            ChangeInstruction::DropColumn(_, _) => true,
            ChangeInstruction::DropConstraint(_, _) => true,
            ChangeInstruction::DropFunction(_) => true,
            _ => false,
        }
    }

    /// Whether the instruction takes something away from the database.
    pub fn is_drop(&self) -> (r: bool)
        ensures
            r == self.is_drop_spec(),
    {
        match self {
            ChangeInstruction::DropType(_) => true,
            ChangeInstruction::DropTable(_) => true,
            ChangeInstruction::DropColumn(_, _) => true,
            ChangeInstruction::DropConstraint(_, _) => true,
            ChangeInstruction::DropFunction(_) => true,
            _ => false,
        }
    }
}

/// The scripts of the given stage, each as an instruction, in order.
pub open spec fn scripts_at<'a>(scripts: Seq<ScriptDefinition>, stage: ScriptStage) -> Seq<
    ChangeInstruction<'a>,
>
    decreases scripts.len(),
{
    if scripts.len() == 0 {
        Seq::empty()
    } else if scripts.last().stage == stage {
        scripts_at(scripts.drop_last(), stage).push(ChangeInstruction::RunScript(&scripts.last()))
    } else {
        scripts_at(scripts.drop_last(), stage)
    }
}

/// The extensions to enable: those that the database lacks, or all of them
/// where `force` is set.
pub open spec fn extension_changes<'a>(
    declared: Seq<ExtensionDefinition>,
    live: Seq<ExtensionDefinition>,
    force: bool,
) -> Seq<ChangeInstruction<'a>>
    decreases declared.len(),
{
    if declared.len() == 0 {
        Seq::empty()
    } else if force || first_text(extension_names(live), declared.last().name@) is None {
        extension_changes(declared.drop_last(), live, force).push(
            ChangeInstruction::EnableExtension(&declared.last()),
        )
    } else {
        extension_changes(declared.drop_last(), live, force)
    }
}

/// The schemas to create: those that the database lacks.
pub open spec fn schema_changes<'a>(declared: Seq<SchemaDefinition>, live: Seq<SchemaDefinition>) -> Seq<
    ChangeInstruction<'a>,
>
    decreases declared.len(),
{
    if declared.len() == 0 {
        Seq::empty()
    } else if first_text(schema_names(live), declared.last().name@) is None {
        schema_changes(declared.drop_last(), live).push(ChangeInstruction::CreateSchema(&declared.last()))
    } else {
        schema_changes(declared.drop_last(), live)
    }
}

/// The changes that bring the column `have` of the table `table` to `want`:
/// one for the type, one for the nullability and one for the default, each
/// where the two differ.
pub open spec fn column_alters<'a>(table: ObjectName, want: ColumnDefinition, have: ColumnDefinition) -> Seq<
    ChangeInstruction<'a>,
> {
    (if type_same(want.sql_type, have.sql_type) {
        Seq::empty()
    } else {
        seq![ChangeInstruction::AlterColumn(&table, &want, ColumnChange::Type)]
    }) + (if want.not_null == have.not_null {
        Seq::empty()
    } else {
        seq![ChangeInstruction::AlterColumn(&table, &want, ColumnChange::Nullability)]
    }) + (if default_same(want.default, have.default) {
        Seq::empty()
    } else {
        seq![ChangeInstruction::AlterColumn(&table, &want, ColumnChange::Default)]
    })
}

/// What is to be created or altered for the declared type at `i`.
pub open spec fn type_builds<'a>(declared: Package, live: Package, i: int) -> Seq<ChangeInstruction<'a>> {
    let want = declared.types[i];
    match first_name(type_names(live.types@), want.name) {
        None => seq![ChangeInstruction::CreateType(&want)],
        Some(j) => if typedef_same(want, live.types[j]) {
            Seq::empty()
        } else {
            seq![ChangeInstruction::AlterType(&want)]
        },
    }
}

/// What is to be created for the declared table at `i`: the table, where the
/// database has none of its name.
pub open spec fn table_builds<'a>(declared: Package, live: Package, i: int) -> Seq<ChangeInstruction<'a>> {
    let want = declared.tables[i];
    match first_name(table_names(live.tables@), want.name) {
        None => seq![ChangeInstruction::CreateTable(&want)],
        Some(_) => Seq::empty(),
    }
}

/// What is to be added or altered for the column at `j` of the declared
/// table at `i`. A table that the database lacks is created with its
/// columns.
pub open spec fn column_builds<'a>(declared: Package, live: Package, i: int, j: int) -> Seq<
    ChangeInstruction<'a>,
> {
    let table = declared.tables[i];
    let want = table.columns[j];
    match first_name(table_names(live.tables@), table.name) {
        None => Seq::empty(),
        Some(k) => match first_text(column_names(live.tables[k]), want.name@) {
            None => seq![ChangeInstruction::AddColumn(&table.name, &want)],
            Some(m) => column_alters(table.name, want, live.tables[k].columns[m]),
        },
    }
}

/// What is to be added for the constraint at `j` of the declared table at
/// `i`: the constraint, where the database lacks it or has another of its
/// name.
pub open spec fn constraint_builds<'a>(declared: Package, live: Package, i: int, j: int) -> Seq<
    ChangeInstruction<'a>,
> {
    let table = declared.tables[i];
    let want = table.constraints[j];
    match first_name(table_names(live.tables@), table.name) {
        None => seq![ChangeInstruction::AddConstraint(&table.name, &want)],
        Some(k) => match first_text(constraint_names(live.tables[k]), want.name_spec()@) {
            None => seq![ChangeInstruction::AddConstraint(&table.name, &want)],
            Some(m) => if constraint_same(want, live.tables[k].constraints[m]) {
                Seq::empty()
            } else {
                seq![ChangeInstruction::AddConstraint(&table.name, &want)]
            },
        },
    }
}

/// What is to be created or replaced for the declared function at `i`.
pub open spec fn function_builds<'a>(declared: Package, live: Package, always: bool, i: int) -> Seq<
    ChangeInstruction<'a>,
> {
    let want = declared.functions[i];
    match first_name(function_names(live.functions@), want.name) {
        None => seq![ChangeInstruction::CreateOrReplaceFunction(&want)],
        Some(j) => if always || !function_same(want, live.functions[j]) {
            seq![ChangeInstruction::CreateOrReplaceFunction(&want)]
        } else {
            Seq::empty()
        },
    }
}

/// What is to be created or altered for the declared object that the node
/// stands for. Schemas and extensions are not handled by nodes.
pub open spec fn node_builds<'a>(declared: Package, live: Package, always: bool, node: NodeId) -> Seq<
    ChangeInstruction<'a>,
> {
    match node.kind {
        NodeKind::Type => match first_text(type_texts(declared.types@), node.name) {
            Some(i) => type_builds(declared, live, i),
            None => Seq::empty(),
        },
        NodeKind::Table => match first_text(table_texts(declared.tables@), node.name) {
            Some(i) => table_builds(declared, live, i),
            None => Seq::empty(),
        },
        NodeKind::Column => match first_owner(column_texts(declared.tables@), node.name) {
            Some((i, j)) => column_builds(declared, live, i, j),
            None => Seq::empty(),
        },
        NodeKind::Constraint => match first_owner(constraint_texts(declared.tables@), node.name) {
            Some((i, j)) => constraint_builds(declared, live, i, j),
            None => Seq::empty(),
        },
        NodeKind::Function => match first_text(function_texts(declared.functions@), node.name) {
            Some(i) => function_builds(declared, live, always, i),
            None => Seq::empty(),
        },
        _ => Seq::empty(),
    }
}

/// What is to be dropped for the column at `j` of the table at `i` of the
/// database. A table that the package lacks is dropped with its columns.
pub open spec fn column_drops<'a>(declared: Package, live: Package, i: int, j: int) -> Seq<
    ChangeInstruction<'a>,
> {
    let table = live.tables[i];
    let have = table.columns[j];
    match first_name(table_names(declared.tables@), table.name) {
        None => Seq::empty(),
        Some(k) => match first_text(column_names(declared.tables[k]), have.name@) {
            None => seq![ChangeInstruction::DropColumn(&table.name, &have.name)],
            Some(_) => Seq::empty(),
        },
    }
}

/// What is to be dropped for the constraint at `j` of the table at `i` of
/// the database: the constraint, where the package lacks it or declares
/// another of its name.
pub open spec fn constraint_drops<'a>(declared: Package, live: Package, i: int, j: int) -> Seq<
    ChangeInstruction<'a>,
> {
    let table = live.tables[i];
    let have = table.constraints[j];
    match first_name(table_names(declared.tables@), table.name) {
        None => Seq::empty(),
        Some(k) => match first_text(constraint_names(declared.tables[k]), have.name_spec()@) {
            None => seq![ChangeInstruction::DropConstraint(&table.name, &have.name_spec())],
            Some(m) => if constraint_same(declared.tables[k].constraints[m], have) {
                Seq::empty()
            } else {
                seq![ChangeInstruction::DropConstraint(&table.name, &have.name_spec())]
            },
        },
    }
}

/// What is to be dropped for the object of the database that the node
/// stands for.
pub open spec fn node_drops<'a>(declared: Package, live: Package, node: NodeId) -> Seq<
    ChangeInstruction<'a>,
> {
    match node.kind {
        NodeKind::Type => match first_text(type_texts(live.types@), node.name) {
            Some(i) => match first_name(type_names(declared.types@), live.types[i].name) {
                None => seq![ChangeInstruction::DropType(&live.types[i].name)],
                Some(_) => Seq::empty(),
            },
            None => Seq::empty(),
        },
        NodeKind::Table => match first_text(table_texts(live.tables@), node.name) {
            Some(i) => match first_name(table_names(declared.tables@), live.tables[i].name) {
                None => seq![ChangeInstruction::DropTable(&live.tables[i].name)],
                Some(_) => Seq::empty(),
            },
            None => Seq::empty(),
        },
        NodeKind::Column => match first_owner(column_texts(live.tables@), node.name) {
            Some((i, j)) => column_drops(declared, live, i, j),
            None => Seq::empty(),
        },
        NodeKind::Constraint => match first_owner(constraint_texts(live.tables@), node.name) {
            Some((i, j)) => constraint_drops(declared, live, i, j),
            None => Seq::empty(),
        },
        NodeKind::Function => match first_text(function_texts(live.functions@), node.name) {
            Some(i) => match first_name(function_names(declared.functions@), live.functions[i].name) {
                None => seq![ChangeInstruction::DropFunction(&live.functions[i])],
                Some(_) => Seq::empty(),
            },
            None => Seq::empty(),
        },
        _ => Seq::empty(),
    }
}

/// What is to be created or altered, node by node in the order given.
pub open spec fn builds<'a>(declared: Package, live: Package, always: bool, order: Seq<NodeId>) -> Seq<
    ChangeInstruction<'a>,
>
    decreases order.len(),
{
    if order.len() == 0 {
        Seq::empty()
    } else {
        builds(declared, live, always, order.drop_last()) + node_builds(
            declared,
            live,
            always,
            order.last(),
        )
    }
}

/// What is to be dropped, node by node from the last of the order given to
/// its first.
pub open spec fn drops<'a>(declared: Package, live: Package, order: Seq<NodeId>) -> Seq<
    ChangeInstruction<'a>,
>
    decreases order.len(),
{
    if order.len() == 0 {
        Seq::empty()
    } else {
        drops(declared, live, order.drop_first()) + node_drops(declared, live, order[0])
    }
}

/// The order of a package: the one that it holds, else the build order of
/// its graph.
pub open spec fn order_of(p: Package) -> Seq<NodeId> {
    match p.order {
        Some(o) => ids(o@),
        None => choose|o: Seq<NodeId>| p.graph().is_build_order(o),
    }
}

/// The package holds an order, or its graph is valid.
pub open spec fn has_order(p: Package) -> bool {
    p.order is Some || p.graph().valid()
}

/// The message of the error for a package that holds no order and whose
/// graph is not valid.
pub open spec fn order_error(p: Package) -> Seq<char> {
    if p.graph().has_cycle() {
        "Circular reference detected"@
    } else {
        unresolved_message(p.graph().unresolved())
    }
}

/// The plan in the orders given: the scripts that run before; what is to be
/// dropped, from the last node of `live_order` to its first; the extensions
/// and schemas that the database lacks; what is to be created or altered,
/// in `declared_order`; and the scripts that run after.
pub open spec fn plan_with<'a>(
    declared: Package,
    live: Package,
    profile: PublishProfile,
    declared_order: Seq<NodeId>,
    live_order: Seq<NodeId>,
) -> Seq<ChangeInstruction<'a>> {
    scripts_at(declared.scripts@, ScriptStage::Pre) + drops(declared, live, live_order) + extension_changes(
        declared.extensions@,
        live.extensions@,
        profile.generation_options.force_extension_upgrade,
    ) + schema_changes(declared.schemas@, live.schemas@) + builds(
        declared,
        live,
        profile.generation_options.always_recreate_function,
        declared_order,
    ) + scripts_at(declared.scripts@, ScriptStage::Post)
}

/// The plan: [`plan_with`] in the orders of the two packages.
pub open spec fn plan_spec<'a>(declared: Package, live: Package, profile: PublishProfile) -> Seq<
    ChangeInstruction<'a>,
> {
    plan_with(declared, live, profile, order_of(declared), order_of(live))
}

/// The plan is refused: it would drop something, and the profile does not
/// allow that.
pub open spec fn drops_refused(declared: Package, live: Package, profile: PublishProfile) -> bool {
    !profile.allow_drops && drops(declared, live, order_of(live)).len() > 0
}

/// The order of a package: the one that it holds, else the build order of
/// its graph, which must be valid.
pub fn build_order(p: &Package) -> (r: Result<Vec<Node>, PsqlpackError>)
    ensures
        r is Ok <==> has_order(*p),
        r matches Ok(o) ==> ids(o@) == order_of(*p),
        r matches Err(e) ==> e matches PsqlpackError::GenerationError(m) && m@ == order_error(*p),
{
    match &p.order {
        Some(o) => {
            let mut copy: Vec<Node> = Vec::new();
            let mut i: usize = 0;
            while i < o.len()
                invariant
                    i <= o.len(),
                    copy.len() == i,
                    forall|k: int| 0 <= k < i ==> #[trigger] copy@[k] == o@[k],
                decreases o.len() - i,
            {
                copy.push(o[i].clone());
                i += 1;
            }
            assert(ids(copy@) =~= ids(o@));
            Ok(copy)
        },
        None => {
            match p.sorted() {
                Ok(order) => {
                    proof {
                        let chosen = choose|o: Seq<NodeId>| p.graph().is_build_order(o);
                        lemma_build_order_unique(p.graph(), ids(order@), chosen);
                    }
                    Ok(order)
                },
                Err(e) => Err(e),
            }
        },
    }
}

/// Appends the scripts of the given stage.
fn push_scripts<'a>(changes: &mut Vec<ChangeInstruction<'a>>, scripts: &'a Vec<ScriptDefinition>, stage: ScriptStage)
    ensures
        final(changes)@ == old(changes)@ + scripts_at(scripts@, stage),
{
    let mut i: usize = 0;
    assert(changes@ =~= old(changes)@ + scripts_at(scripts@.take(0), stage));
    while i < scripts.len()
        invariant
            i <= scripts.len(),
            changes@ == old(changes)@ + scripts_at(scripts@.take(i as int), stage),
        decreases scripts.len() - i,
    {
        proof {
            assert(scripts@.take(i + 1).drop_last() =~= scripts@.take(i as int));
        }
        if scripts[i].stage == stage {
            changes.push(ChangeInstruction::RunScript(&scripts[i]));
        }
        proof {
            assert(changes@ =~= old(changes)@ + scripts_at(scripts@.take(i + 1), stage));
        }
        i += 1;
    }
    proof {
        assert(scripts@.take(i as int) =~= scripts@);
    }
}

/// Appends the extensions to enable.
fn push_extensions<'a>(
    changes: &mut Vec<ChangeInstruction<'a>>,
    declared: &'a Vec<ExtensionDefinition>,
    live: &Vec<ExtensionDefinition>,
    force: bool,
)
    ensures
        final(changes)@ == old(changes)@ + extension_changes(declared@, live@, force),
{
    let mut i: usize = 0;
    assert(changes@ =~= old(changes)@ + extension_changes(declared@.take(0), live@, force));
    while i < declared.len()
        invariant
            i <= declared.len(),
            changes@ == old(changes)@ + extension_changes(declared@.take(i as int), live@, force),
        decreases declared.len() - i,
    {
        proof {
            assert(declared@.take(i + 1).drop_last() =~= declared@.take(i as int));
        }
        if force || find_extension(live, &declared[i].name).is_none() {
            changes.push(ChangeInstruction::EnableExtension(&declared[i]));
        }
        proof {
            assert(changes@ =~= old(changes)@ + extension_changes(declared@.take(i + 1), live@, force));
        }
        i += 1;
    }
    proof {
        assert(declared@.take(i as int) =~= declared@);
    }
}

/// Appends the schemas to create.
fn push_schemas<'a>(
    changes: &mut Vec<ChangeInstruction<'a>>,
    declared: &'a Vec<SchemaDefinition>,
    live: &Vec<SchemaDefinition>,
)
    ensures
        final(changes)@ == old(changes)@ + schema_changes(declared@, live@),
{
    let mut i: usize = 0;
    assert(changes@ =~= old(changes)@ + schema_changes(declared@.take(0), live@));
    while i < declared.len()
        invariant
            i <= declared.len(),
            changes@ == old(changes)@ + schema_changes(declared@.take(i as int), live@),
        decreases declared.len() - i,
    {
        proof {
            assert(declared@.take(i + 1).drop_last() =~= declared@.take(i as int));
        }
        if find_schema(live, &declared[i].name).is_none() {
            changes.push(ChangeInstruction::CreateSchema(&declared[i]));
        }
        proof {
            assert(changes@ =~= old(changes)@ + schema_changes(declared@.take(i + 1), live@));
        }
        i += 1;
    }
    proof {
        assert(declared@.take(i as int) =~= declared@);
    }
}

/// Appends the changes that bring the column `have` of `table` to `want`.
fn push_column_alters<'a>(
    changes: &mut Vec<ChangeInstruction<'a>>,
    table: &'a ObjectName,
    want: &'a ColumnDefinition,
    have: &ColumnDefinition,
)
    ensures
        final(changes)@ == old(changes)@ + column_alters(*table, *want, *have),
{
    if !same_type(&want.sql_type, &have.sql_type) {
        changes.push(ChangeInstruction::AlterColumn(table, want, ColumnChange::Type));
    }
    if want.not_null != have.not_null {
        changes.push(ChangeInstruction::AlterColumn(table, want, ColumnChange::Nullability));
    }
    if !same_default(&want.default, &have.default) {
        changes.push(ChangeInstruction::AlterColumn(table, want, ColumnChange::Default));
    }
    proof {
        assert(changes@ =~= old(changes)@ + column_alters(*table, *want, *have));
    }
}

/// Appends what is to be created or altered for the declared object that
/// `node` stands for.
fn push_node_builds<'a>(
    changes: &mut Vec<ChangeInstruction<'a>>,
    declared: &'a Package,
    live: &Package,
    catalog: &Catalog,
    always: bool,
    node: &Node,
)
    requires
        catalog.describes(declared.tables@, declared.functions@, declared.types@),
    ensures
        final(changes)@ == old(changes)@ + node_builds(*declared, *live, always, node@),
{
    let ghost before = changes@;
    match node {
        Node::Type(text) => {
            match find_text(&catalog.types, text) {
                Some(i) => {
                    let want = &declared.types[i];
                    match find_type(&live.types, &want.name) {
                        None => {
                            changes.push(ChangeInstruction::CreateType(want));
                        },
                        Some(j) => {
                            if !same_typedef(want, &live.types[j]) {
                                changes.push(ChangeInstruction::AlterType(want));
                            }
                        },
                    }
                },
                None => {},
            }
        },
        Node::Table(text) => {
            match find_text(&catalog.tables, text) {
                Some(i) => {
                    let want = &declared.tables[i];
                    if find_table(&live.tables, &want.name).is_none() {
                        changes.push(ChangeInstruction::CreateTable(want));
                    }
                },
                None => {},
            }
        },
        Node::Column(text) => {
            match find_owner(&catalog.columns, text) {
                Some((i, j)) => {
                    proof {
                        crate::model::lookup::lemma_owner_in_range(
                            column_texts(declared.tables@),
                            text@,
                            i as int,
                            j as int,
                        );
                    }
                    let table = &declared.tables[i];
                    let want = &table.columns[j];
                    match find_table(&live.tables, &table.name) {
                        None => {},
                        Some(k) => match find_column(&live.tables[k], &want.name) {
                            None => {
                                changes.push(ChangeInstruction::AddColumn(&table.name, want));
                            },
                            Some(m) => {
                                push_column_alters(changes, &table.name, want, &live.tables[k].columns[m]);
                            },
                        },
                    }
                },
                None => {},
            }
        },
        Node::Constraint(text) => {
            match find_owner(&catalog.constraints, text) {
                Some((i, j)) => {
                    proof {
                        crate::model::lookup::lemma_owner_in_range(
                            constraint_texts(declared.tables@),
                            text@,
                            i as int,
                            j as int,
                        );
                    }
                    let table = &declared.tables[i];
                    let want = &table.constraints[j];
                    match find_table(&live.tables, &table.name) {
                        None => {
                            changes.push(ChangeInstruction::AddConstraint(&table.name, want));
                        },
                        Some(k) => match find_constraint(&live.tables[k], want.name()) {
                            None => {
                                changes.push(ChangeInstruction::AddConstraint(&table.name, want));
                            },
                            Some(m) => {
                                if !same_constraint(want, &live.tables[k].constraints[m]) {
                                    changes.push(ChangeInstruction::AddConstraint(&table.name, want));
                                }
                            },
                        },
                    }
                },
                None => {},
            }
        },
        Node::Function(text) => {
            match find_text(&catalog.functions, text) {
                Some(i) => {
                    let want = &declared.functions[i];
                    match find_function(&live.functions, &want.name) {
                        None => {
                            changes.push(ChangeInstruction::CreateOrReplaceFunction(want));
                        },
                        Some(j) => {
                            if always || !same_function(want, &live.functions[j]) {
                                changes.push(ChangeInstruction::CreateOrReplaceFunction(want));
                            }
                        },
                    }
                },
                None => {},
            }
        },
        _ => {},
    }
    proof {
        assert(changes@ =~= before + node_builds(*declared, *live, always, node@));
    }
}

/// Appends what is to be dropped for the object of the database that `node`
/// stands for.
fn push_node_drops<'a>(
    changes: &mut Vec<ChangeInstruction<'a>>,
    declared: &Package,
    live: &'a Package,
    catalog: &Catalog,
    node: &Node,
)
    requires
        catalog.describes(live.tables@, live.functions@, live.types@),
    ensures
        final(changes)@ == old(changes)@ + node_drops(*declared, *live, node@),
{
    let ghost before = changes@;
    match node {
        Node::Type(text) => {
            match find_text(&catalog.types, text) {
                Some(i) => {
                    if find_type(&declared.types, &live.types[i].name).is_none() {
                        changes.push(ChangeInstruction::DropType(&live.types[i].name));
                    }
                },
                None => {},
            }
        },
        Node::Table(text) => {
            match find_text(&catalog.tables, text) {
                Some(i) => {
                    if find_table(&declared.tables, &live.tables[i].name).is_none() {
                        changes.push(ChangeInstruction::DropTable(&live.tables[i].name));
                    }
                },
                None => {},
            }
        },
        Node::Column(text) => {
            match find_owner(&catalog.columns, text) {
                Some((i, j)) => {
                    proof {
                        crate::model::lookup::lemma_owner_in_range(
                            column_texts(live.tables@),
                            text@,
                            i as int,
                            j as int,
                        );
                    }
                    let table = &live.tables[i];
                    let have = &table.columns[j];
                    match find_table(&declared.tables, &table.name) {
                        None => {},
                        Some(k) => {
                            if find_column(&declared.tables[k], &have.name).is_none() {
                                changes.push(ChangeInstruction::DropColumn(&table.name, &have.name));
                            }
                        },
                    }
                },
                None => {},
            }
        },
        Node::Constraint(text) => {
            match find_owner(&catalog.constraints, text) {
                Some((i, j)) => {
                    proof {
                        crate::model::lookup::lemma_owner_in_range(
                            constraint_texts(live.tables@),
                            text@,
                            i as int,
                            j as int,
                        );
                    }
                    let table = &live.tables[i];
                    let have = &table.constraints[j];
                    match find_table(&declared.tables, &table.name) {
                        None => {},
                        Some(k) => match find_constraint(&declared.tables[k], have.name()) {
                            None => {
                                changes.push(ChangeInstruction::DropConstraint(&table.name, have.name()));
                            },
                            Some(m) => {
                                if !same_constraint(&declared.tables[k].constraints[m], have) {
                                    changes.push(
                                        ChangeInstruction::DropConstraint(&table.name, have.name()),
                                    );
                                }
                            },
                        },
                    }
                },
                None => {},
            }
        },
        Node::Function(text) => {
            match find_text(&catalog.functions, text) {
                Some(i) => {
                    if find_function(&declared.functions, &live.functions[i].name).is_none() {
                        changes.push(ChangeInstruction::DropFunction(&live.functions[i]));
                    }
                },
                None => {},
            }
        },
        _ => {},
    }
    proof {
        assert(changes@ =~= before + node_drops(*declared, *live, node@));
    }
}

/// The message of the error for a plan that would drop something against
/// the profile.
pub open spec fn drops_refused_message() -> Seq<char> {
    "Drops are required but not allowed by the publish profile"@
}

/// Plans the changes that bring the database `live` to the package
/// `declared`: the scripts that run before; what is to be dropped, from the
/// last node of the order of `live` to its first; the extensions and
/// schemas that the database lacks; what is to be created or altered, in the
/// order of `declared`; and the scripts that run after. A package that holds
/// no order is ordered by its graph, which must then be valid. Where the
/// plan would drop something and the profile does not allow drops, no plan
/// is made.
pub fn plan<'a>(declared: &'a Package, live: &'a Package, profile: &PublishProfile) -> (r: Result<
    Vec<ChangeInstruction<'a>>,
    PsqlpackError,
>)
    ensures
        r is Ok <==> has_order(*declared) && has_order(*live) && !drops_refused(*declared, *live, *profile),
        r matches Ok(changes) ==> changes@ == plan_spec(*declared, *live, *profile),
        r matches Err(e) ==> e matches PsqlpackError::GenerationError(m) && m@ == (if !has_order(
            *declared,
        ) {
            order_error(*declared)
        } else if !has_order(*live) {
            order_error(*live)
        } else {
            drops_refused_message()
        }),
{
    let declared_order = match build_order(declared) {
        Ok(o) => o,
        Err(e) => {
            return Err(e);
        },
    };
    let live_order = match build_order(live) {
        Ok(o) => o,
        Err(e) => {
            return Err(e);
        },
    };
    let declared_catalog = Catalog::new(&declared.tables, &declared.functions, &declared.types);
    let live_catalog = Catalog::new(&live.tables, &live.functions, &live.types);
    let always = profile.generation_options.always_recreate_function;
    let force = profile.generation_options.force_extension_upgrade;
    let mut changes: Vec<ChangeInstruction<'a>> = Vec::new();
    push_scripts(&mut changes, &declared.scripts, ScriptStage::Pre);
    let ghost pre = changes@;
    let before_drops = changes.len();
    let mut i: usize = live_order.len();
    proof {
        assert(ids(live_order@).subrange(i as int, live_order.len() as int) =~= Seq::empty());
        assert(changes@ =~= pre + drops(*declared, *live, Seq::empty()));
    }
    while i > 0
        invariant
            i <= live_order.len(),
            live_catalog.describes(live.tables@, live.functions@, live.types@),
            changes@ == pre + drops(
                *declared,
                *live,
                ids(live_order@).subrange(i as int, live_order.len() as int),
            ),
        decreases i,
    {
        i -= 1;
        let ghost rest = ids(live_order@).subrange(i + 1, live_order.len() as int);
        let ghost here = ids(live_order@).subrange(i as int, live_order.len() as int);
        push_node_drops(&mut changes, declared, live, &live_catalog, &live_order[i]);
        proof {
            assert(here.drop_first() =~= rest);
            assert(here[0] == live_order@[i as int]@);
            assert(changes@ =~= pre + drops(*declared, *live, here));
        }
    }
    proof {
        assert(ids(live_order@).subrange(0, live_order.len() as int) =~= ids(live_order@));
    }
    let ghost dropped = drops(*declared, *live, order_of(*live));
    if !profile.allow_drops && changes.len() > before_drops {
        return Err(
            PsqlpackError::GenerationError(
                String::from_str("Drops are required but not allowed by the publish profile"),
            ),
        );
    }
    push_extensions(&mut changes, &declared.extensions, &live.extensions, force);
    push_schemas(&mut changes, &declared.schemas, &live.schemas);
    let ghost head = changes@;
    let mut i: usize = 0;
    proof {
        assert(ids(declared_order@).take(0) =~= Seq::empty());
        assert(changes@ =~= head + builds(*declared, *live, always, Seq::empty()));
    }
    while i < declared_order.len()
        invariant
            i <= declared_order.len(),
            declared_catalog.describes(declared.tables@, declared.functions@, declared.types@),
            changes@ == head + builds(*declared, *live, always, ids(declared_order@).take(i as int)),
        decreases declared_order.len() - i,
    {
        let ghost done = ids(declared_order@).take(i as int);
        let ghost next = ids(declared_order@).take(i + 1);
        push_node_builds(&mut changes, declared, live, &declared_catalog, always, &declared_order[i]);
        proof {
            assert(next.drop_last() =~= done);
            assert(next.last() == declared_order@[i as int]@);
            assert(changes@ =~= head + builds(*declared, *live, always, next));
        }
        i += 1;
    }
    proof {
        assert(ids(declared_order@).take(i as int) =~= ids(declared_order@));
    }
    push_scripts(&mut changes, &declared.scripts, ScriptStage::Post);
    Ok(changes)
}

} // verus!

//! What holds of the planner.

use vstd::prelude::*;
use crate::ast::{
    ExtensionDefinition, ObjectName, SchemaDefinition, ScriptStage, SqlType, TableConstraint,
    TypeDefinitionKind,
};
use crate::graph::{NodeId, NodeKind};
use crate::model::compare::{constraint_same, default_same, function_same, kind_same, type_same};
use crate::model::delta::{
    builds, column_alters, drops, extension_changes, node_builds, node_drops, plan_spec, plan_with,
    schema_changes, scripts_at, ChangeInstruction,
};
use crate::model::lookup::{
    column_names, column_texts, constraint_names, constraint_texts, extension_names, first_name,
    first_owner, first_text, function_names, function_texts, is_first_name, is_first_text,
    lemma_first_name, lemma_first_text, lemma_owner_in_range, schema_names, table_names,
    table_texts, type_names, type_texts,
};
use crate::model::package::{distinct_names, distinct_texts, Package};
use crate::model::profiles::PublishProfile;

verus! {

/// A type is the same as itself.
pub proof fn lemma_type_same_reflexive(a: SqlType)
    ensures
        type_same(a, a),
{
}

/// A constraint is the same as itself.
pub proof fn lemma_constraint_same_reflexive(a: TableConstraint)
    ensures
        constraint_same(a, a),
{
}

/// What a declared type is made of is the same as itself.
pub proof fn lemma_kind_same_reflexive(a: TypeDefinitionKind)
    ensures
        kind_same(a, a),
{
}

/// In a list of distinct names, each is first found at its own place.
pub proof fn lemma_own_name_first(names: Seq<ObjectName>, i: int)
    requires
        distinct_names(names),
        0 <= i < names.len(),
    ensures
        first_name(names, names[i]) == Some(i),
{
    assert forall|k: int| 0 <= k < i implies !(#[trigger] names[k]).same(&names[i]) by {
        let a = names[k];
        let b = names[i];
    }
    assert(is_first_name(names, names[i], i));
    lemma_first_name(names, names[i], i);
}

/// In a list of distinct texts, each is first found at its own place.
pub proof fn lemma_own_text_first(texts: Seq<Seq<char>>, i: int)
    requires
        distinct_texts(texts),
        0 <= i < texts.len(),
    ensures
        first_text(texts, texts[i]) == Some(i),
{
    assert forall|k: int| 0 <= k < i implies texts[k] != texts[i] by {
        let a = texts[k];
        let b = texts[i];
    }
    assert(is_first_text(texts, texts[i], i));
    lemma_first_text(texts, texts[i], i);
}

/// What [`first_text`] gives lies within the list and holds the text.
pub proof fn lemma_first_text_in_range(texts: Seq<Seq<char>>, t: Seq<char>, i: int)
    requires
        first_text(texts, t) == Some(i),
    ensures
        0 <= i < texts.len(),
        texts[i] == t,
{
    let c = choose|c: int| is_first_text(texts, t, c);
    assert(is_first_text(texts, t, c));
}

/// A text that a list holds is found in it.
pub proof fn lemma_text_found(texts: Seq<Seq<char>>, i: int)
    requires
        0 <= i < texts.len(),
    ensures
        first_text(texts, texts[i]) is Some,
    decreases i,
{
    if exists|k: int| 0 <= k < i && texts[k] == texts[i] {
        let k = choose|k: int| 0 <= k < i && texts[k] == texts[i];
        lemma_text_found(texts, k);
    } else {
        assert(is_first_text(texts, texts[i], i));
    }
}

/// A name of which a list holds the like is found in it.
pub proof fn lemma_same_name_found(names: Seq<ObjectName>, n: ObjectName, i: int)
    requires
        0 <= i < names.len(),
        names[i].same(&n),
    ensures
        first_name(names, n) is Some,
    decreases i,
{
    if exists|k: int| 0 <= k < i && (#[trigger] names[k]).same(&n) {
        let k = choose|k: int| 0 <= k < i && (#[trigger] names[k]).same(&n);
        lemma_same_name_found(names, n, k);
    } else {
        assert(is_first_name(names, n, i));
    }
}

/// No extension is to be enabled where the database has all that are
/// declared.
pub proof fn lemma_no_extension_changes(declared: Seq<ExtensionDefinition>, live: Seq<ExtensionDefinition>)
    requires
        forall|i: int|
            0 <= i < declared.len() ==> first_text(extension_names(live), (#[trigger] declared[i]).name@) is Some,
    ensures
        extension_changes(declared, live, false) == Seq::<ChangeInstruction>::empty(),
    decreases declared.len(),
{
    if declared.len() > 0 {
        assert forall|i: int| 0 <= i < declared.drop_last().len() implies first_text(
            extension_names(live),
            (#[trigger] declared.drop_last()[i]).name@,
        ) is Some by {
            assert(declared.drop_last()[i] == declared[i]);
        }
        lemma_no_extension_changes(declared.drop_last(), live);
        let l = declared.len() - 1;
        assert(first_text(extension_names(live), declared[l].name@) is Some);
    }
}

/// No schema is to be created where the database has all that are
/// declared.
pub proof fn lemma_no_schema_changes(declared: Seq<SchemaDefinition>, live: Seq<SchemaDefinition>)
    requires
        forall|i: int|
            0 <= i < declared.len() ==> first_text(schema_names(live), (#[trigger] declared[i]).name@) is Some,
    ensures
        schema_changes(declared, live) == Seq::<ChangeInstruction>::empty(),
    decreases declared.len(),
{
    if declared.len() > 0 {
        assert forall|i: int| 0 <= i < declared.drop_last().len() implies first_text(
            schema_names(live),
            (#[trigger] declared.drop_last()[i]).name@,
        ) is Some by {
            assert(declared.drop_last()[i] == declared[i]);
        }
        lemma_no_schema_changes(declared.drop_last(), live);
        let l = declared.len() - 1;
        assert(first_text(schema_names(live), declared[l].name@) is Some);
    }
}

/// Nothing is to be created or altered for a node where the database is
/// the package.
proof fn lemma_no_node_builds(p: Package, node: NodeId)
    requires
        p.names_unique(),
    ensures
        node_builds(p, p, false, node) == Seq::<ChangeInstruction>::empty(),
{
    match node.kind {
        NodeKind::Type => {
            match first_text(type_texts(p.types@), node.name) {
                Some(i) => {
                    lemma_first_text_in_range(type_texts(p.types@), node.name, i);
                    lemma_own_name_first(type_names(p.types@), i);
                    lemma_kind_same_reflexive(p.types[i].kind);
                },
                None => {},
            }
        },
        NodeKind::Table => {
            match first_text(table_texts(p.tables@), node.name) {
                Some(i) => {
                    lemma_first_text_in_range(table_texts(p.tables@), node.name, i);
                    lemma_own_name_first(table_names(p.tables@), i);
                },
                None => {},
            }
        },
        NodeKind::Column => {
            match first_owner(column_texts(p.tables@), node.name) {
                Some((i, j)) => {
                    lemma_owner_in_range(column_texts(p.tables@), node.name, i, j);
                    lemma_own_name_first(table_names(p.tables@), i);
                    lemma_own_text_first(column_names(p.tables[i]), j);
                    let c = p.tables[i].columns[j];
                    lemma_type_same_reflexive(c.sql_type);
                    assert(default_same(c.default, c.default));
                    assert(column_alters(p.tables[i].name, c, c) =~= Seq::<ChangeInstruction>::empty());
                },
                None => {},
            }
        },
        NodeKind::Constraint => {
            match first_owner(constraint_texts(p.tables@), node.name) {
                Some((i, j)) => {
                    lemma_owner_in_range(constraint_texts(p.tables@), node.name, i, j);
                    lemma_own_name_first(table_names(p.tables@), i);
                    lemma_own_text_first(constraint_names(p.tables[i]), j);
                    lemma_constraint_same_reflexive(p.tables[i].constraints[j]);
                },
                None => {},
            }
        },
        NodeKind::Function => {
            match first_text(function_texts(p.functions@), node.name) {
                Some(i) => {
                    lemma_first_text_in_range(function_texts(p.functions@), node.name, i);
                    lemma_own_name_first(function_names(p.functions@), i);
                    let f = p.functions[i];
                    lemma_type_same_reflexive(f.return_type);
                    assert(function_same(f, f));
                },
                None => {},
            }
        },
        _ => {},
    }
}

/// Nothing is to be dropped for a node where the database is the package.
proof fn lemma_no_node_drops(p: Package, node: NodeId)
    requires
        p.names_unique(),
    ensures
        node_drops(p, p, node) == Seq::<ChangeInstruction>::empty(),
{
    match node.kind {
        NodeKind::Type => {
            match first_text(type_texts(p.types@), node.name) {
                Some(i) => {
                    lemma_first_text_in_range(type_texts(p.types@), node.name, i);
                    lemma_own_name_first(type_names(p.types@), i);
                },
                None => {},
            }
        },
        NodeKind::Table => {
            match first_text(table_texts(p.tables@), node.name) {
                Some(i) => {
                    lemma_first_text_in_range(table_texts(p.tables@), node.name, i);
                    lemma_own_name_first(table_names(p.tables@), i);
                },
                None => {},
            }
        },
        NodeKind::Column => {
            match first_owner(column_texts(p.tables@), node.name) {
                Some((i, j)) => {
                    lemma_owner_in_range(column_texts(p.tables@), node.name, i, j);
                    lemma_own_name_first(table_names(p.tables@), i);
                    lemma_own_text_first(column_names(p.tables[i]), j);
                },
                None => {},
            }
        },
        NodeKind::Constraint => {
            match first_owner(constraint_texts(p.tables@), node.name) {
                Some((i, j)) => {
                    lemma_owner_in_range(constraint_texts(p.tables@), node.name, i, j);
                    lemma_own_name_first(table_names(p.tables@), i);
                    lemma_own_text_first(constraint_names(p.tables[i]), j);
                    lemma_constraint_same_reflexive(p.tables[i].constraints[j]);
                },
                None => {},
            }
        },
        NodeKind::Function => {
            match first_text(function_texts(p.functions@), node.name) {
                Some(i) => {
                    lemma_first_text_in_range(function_texts(p.functions@), node.name, i);
                    lemma_own_name_first(function_names(p.functions@), i);
                },
                None => {},
            }
        },
        _ => {},
    }
}

/// Nothing is to be created or altered where the database is the package,
/// whatever the order.
proof fn lemma_no_builds(p: Package, order: Seq<NodeId>)
    requires
        p.names_unique(),
    ensures
        builds(p, p, false, order) == Seq::<ChangeInstruction>::empty(),
    decreases order.len(),
{
    if order.len() > 0 {
        lemma_no_builds(p, order.drop_last());
        lemma_no_node_builds(p, order.last());
        assert(Seq::<ChangeInstruction>::empty() + Seq::<ChangeInstruction>::empty() =~= Seq::<
            ChangeInstruction,
        >::empty());
    }
}

/// Nothing is to be dropped where the database is the package, whatever
/// the order.
proof fn lemma_no_drops(p: Package, order: Seq<NodeId>)
    requires
        p.names_unique(),
    ensures
        drops(p, p, order) == Seq::<ChangeInstruction>::empty(),
    decreases order.len(),
{
    if order.len() > 0 {
        lemma_no_drops(p, order.drop_first());
        lemma_no_node_drops(p, order[0]);
        assert(Seq::<ChangeInstruction>::empty() + Seq::<ChangeInstruction>::empty() =~= Seq::<
            ChangeInstruction,
        >::empty());
    }
}

/// The plan that brings a database to the package that it already is runs
/// the scripts and changes nothing else, in whatever orders it is made,
/// unless the profile asks to replace every function or to enable every
/// extension. The names of the package must be unique.
pub proof fn lemma_plan_of_itself_with(p: Package, profile: PublishProfile, declared_order: Seq<NodeId>, live_order: Seq<NodeId>)
    requires
        p.names_unique(),
        !profile.generation_options.always_recreate_function,
        !profile.generation_options.force_extension_upgrade,
    ensures
        plan_with(p, p, profile, declared_order, live_order) == scripts_at(p.scripts@, ScriptStage::Pre)
            + scripts_at(p.scripts@, ScriptStage::Post),
        drops(p, p, live_order) == Seq::<ChangeInstruction>::empty(),
{
    lemma_no_drops(p, live_order);
    lemma_no_builds(p, declared_order);
    assert forall|i: int| 0 <= i < p.extensions@.len() implies first_text(
        extension_names(p.extensions@),
        (#[trigger] p.extensions@[i]).name@,
    ) is Some by {
        lemma_text_found(extension_names(p.extensions@), i);
    }
    lemma_no_extension_changes(p.extensions@, p.extensions@);
    assert forall|i: int| 0 <= i < p.schemas@.len() implies first_text(
        schema_names(p.schemas@),
        (#[trigger] p.schemas@[i]).name@,
    ) is Some by {
        lemma_text_found(schema_names(p.schemas@), i);
    }
    lemma_no_schema_changes(p.schemas@, p.schemas@);
    let none = Seq::<ChangeInstruction>::empty();
    let pre = scripts_at(p.scripts@, ScriptStage::Pre);
    let post = scripts_at(p.scripts@, ScriptStage::Post);
    assert(pre + none + none + none + none + post =~= pre + post);
}

/// The plan that brings a database to the package that it already is runs
/// the scripts and changes nothing else, unless the profile asks to
/// replace every function or to enable every extension. The names of the
/// package must be unique.
pub proof fn lemma_plan_of_itself(p: Package, profile: PublishProfile)
    requires
        p.names_unique(),
        !profile.generation_options.always_recreate_function,
        !profile.generation_options.force_extension_upgrade,
    ensures
        plan_spec(p, p, profile) == scripts_at(p.scripts@, ScriptStage::Pre) + scripts_at(
            p.scripts@,
            ScriptStage::Post,
        ),
        !crate::model::delta::drops_refused(p, p, profile),
{
    lemma_plan_of_itself_with(p, profile, crate::model::delta::order_of(p), crate::model::delta::order_of(p));
}

} // verus!

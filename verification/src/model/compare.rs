//! When two definitions count as the same: what the planner compares.

use vstd::prelude::*;
use crate::ast::{
    FunctionArgument, FunctionDefinition, IndexParameter, SqlType, TableConstraint, TypeDefinition,
    TypeDefinitionKind, TypeField,
};
use crate::text::{
    canonical, canonical_type, chars_eq, normalize_ws, trim_equal, trim_spec, ws_equal,
};

verus! {

/// Two types are the same: built-in types with the same canonical form, or
/// declared types of the same name.
pub open spec fn type_same(a: SqlType, b: SqlType) -> bool {
    match (a, b) {
        (SqlType::Simple(x), SqlType::Simple(y)) => canonical_type(x@) == canonical_type(y@),
        (SqlType::Custom(p), SqlType::Custom(q)) => p.same(&q),
        _ => false,
    }
}

/// Two defaults are the same: both absent, or equal once white space is
/// normalized.
pub open spec fn default_same(a: Option<String>, b: Option<String>) -> bool {
    match (a, b) {
        (Some(x), Some(y)) => normalize_ws(x@) == normalize_ws(y@),
        (None, None) => true,
        _ => false,
    }
}

/// Two lists hold the same texts in the same order.
pub open spec fn texts_same(a: Seq<String>, b: Seq<String>) -> bool {
    &&& a.len() == b.len()
    &&& forall|i: int| 0 <= i < a.len() ==> (#[trigger] a[i])@ == b[i]@
}

/// Two lists of index parameters are both absent, or equal.
pub open spec fn parameters_same(a: Option<Vec<IndexParameter>>, b: Option<Vec<IndexParameter>>) -> bool {
    match (a, b) {
        (Some(x), Some(y)) => x@ == y@,
        (None, None) => true,
        _ => false,
    }
}

/// Two constraints are the same: of the same kind and name, over the same
/// columns, and equal in what else their kind holds. The expressions of
/// checks are compared once white space is normalized.
pub open spec fn constraint_same(a: TableConstraint, b: TableConstraint) -> bool {
    match (a, b) {
        (
            TableConstraint::Primary { name, columns, parameters },
            TableConstraint::Primary { name: name2, columns: columns2, parameters: parameters2 },
        ) => name@ == name2@ && texts_same(columns@, columns2@) && parameters_same(
            parameters,
            parameters2,
        ),
        (
            TableConstraint::Foreign { name, columns, ref_table, ref_columns, on_delete, on_update },
            TableConstraint::Foreign {
                name: name2,
                columns: columns2,
                ref_table: ref_table2,
                ref_columns: ref_columns2,
                on_delete: on_delete2,
                on_update: on_update2,
            },
        ) => name@ == name2@ && texts_same(columns@, columns2@) && ref_table.same(&ref_table2)
            && texts_same(ref_columns@, ref_columns2@) && on_delete == on_delete2 && on_update
            == on_update2,
        (
            TableConstraint::Unique { name, columns },
            TableConstraint::Unique { name: name2, columns: columns2 },
        ) => name@ == name2@ && texts_same(columns@, columns2@),
        (
            TableConstraint::Check { name, expression },
            TableConstraint::Check { name: name2, expression: expression2 },
        ) => name@ == name2@ && normalize_ws(expression@) == normalize_ws(expression2@),
        _ => false,
    }
}

/// Two lists of arguments have the same names and types, in the same order.
pub open spec fn arguments_same(a: Seq<FunctionArgument>, b: Seq<FunctionArgument>) -> bool {
    &&& a.len() == b.len()
    &&& forall|i: int|
        0 <= i < a.len() ==> (#[trigger] a[i]).name@ == b[i].name@ && type_same(a[i].sql_type, b[i].sql_type)
}

/// Two functions are the same: same name, arguments, result, language and
/// volatility, and bodies that are equal once the white space at their ends
/// is cut off.
pub open spec fn function_same(a: FunctionDefinition, b: FunctionDefinition) -> bool {
    &&& a.name.same(&b.name)
    &&& arguments_same(a.arguments@, b.arguments@)
    &&& type_same(a.return_type, b.return_type)
    &&& a.language@ == b.language@
    &&& trim_spec(a.body@) == trim_spec(b.body@)
    &&& a.volatility == b.volatility
}

/// Two lists of fields have the same names and types, in the same order.
pub open spec fn fields_same(a: Seq<TypeField>, b: Seq<TypeField>) -> bool {
    &&& a.len() == b.len()
    &&& forall|i: int|
        0 <= i < a.len() ==> (#[trigger] a[i]).name@ == b[i].name@ && type_same(a[i].sql_type, b[i].sql_type)
}

/// Two declared types are made of the same.
pub open spec fn kind_same(a: TypeDefinitionKind, b: TypeDefinitionKind) -> bool {
    match (a, b) {
        (TypeDefinitionKind::Enum(x), TypeDefinitionKind::Enum(y)) => texts_same(x@, y@),
        (TypeDefinitionKind::Composite(x), TypeDefinitionKind::Composite(y)) => fields_same(x@, y@),
        (TypeDefinitionKind::Alias(x), TypeDefinitionKind::Alias(y)) => type_same(x, y),
        (TypeDefinitionKind::Domain(x, c), TypeDefinitionKind::Domain(y, d)) => type_same(x, y)
            && texts_same(c@, d@),
        _ => false,
    }
}

/// Two declared types are the same: same name, made of the same.
pub open spec fn typedef_same(a: TypeDefinition, b: TypeDefinition) -> bool {
    a.name.same(&b.name) && kind_same(a.kind, b.kind)
}

/// Whether two types are the same.
pub fn same_type(a: &SqlType, b: &SqlType) -> (r: bool)
    ensures
        r == type_same(*a, *b),
{
    match (a, b) {
        (SqlType::Simple(x), SqlType::Simple(y)) => {
            let p = canonical(x.as_str());
            let q = canonical(y.as_str());
            chars_eq(&p, &q)
        },
        (SqlType::Custom(p), SqlType::Custom(q)) => p.same_as(q),
        _ => false,
    }
}

/// Whether two defaults are the same.
pub fn same_default(a: &Option<String>, b: &Option<String>) -> (r: bool)
    ensures
        r == default_same(*a, *b),
{
    match (a, b) {
        (Some(x), Some(y)) => ws_equal(x.as_str(), y.as_str()),
        (None, None) => true,
        _ => false,
    }
}

/// Whether two lists hold the same texts in the same order.
pub fn same_texts(a: &Vec<String>, b: &Vec<String>) -> (r: bool)
    ensures
        r == texts_same(a@, b@),
{
    if a.len() != b.len() {
        return false;
    }
    let mut i: usize = 0;
    while i < a.len()
        invariant
            i <= a.len(),
            a.len() == b.len(),
            forall|k: int| 0 <= k < i ==> (#[trigger] a@[k])@ == b@[k]@,
        decreases a.len() - i,
    {
        if a[i] != b[i] {
            return false;
        }
        i += 1;
    }
    true
}

/// Whether two lists of index parameters are both absent, or equal.
pub fn same_parameters(a: &Option<Vec<IndexParameter>>, b: &Option<Vec<IndexParameter>>) -> (r: bool)
    ensures
        r == parameters_same(*a, *b),
{
    match (a, b) {
        (Some(x), Some(y)) => {
            if x.len() != y.len() {
                return false;
            }
            let mut i: usize = 0;
            while i < x.len()
                invariant
                    *a == Some(*x),
                    *b == Some(*y),
                    i <= x.len(),
                    x.len() == y.len(),
                    forall|k: int| 0 <= k < i ==> x@[k] == y@[k],
                decreases x.len() - i,
            {
                let same = match (x[i], y[i]) {
                    (IndexParameter::FillFactor(p), IndexParameter::FillFactor(q)) => p == q,
                };
                if !same {
                    assert(x@[i as int] != y@[i as int]);
                    return false;
                }
                i += 1;
            }
            assert(x@ =~= y@);
            true
        },
        (None, None) => true,
        _ => false,
    }
}

/// Whether two constraints are the same.
pub fn same_constraint(a: &TableConstraint, b: &TableConstraint) -> (r: bool)
    ensures
        r == constraint_same(*a, *b),
{
    match (a, b) {
        (
            TableConstraint::Primary { name, columns, parameters },
            TableConstraint::Primary { name: name2, columns: columns2, parameters: parameters2 },
        ) => *name == *name2 && same_texts(columns, columns2) && same_parameters(parameters, parameters2),
        (
            TableConstraint::Foreign { name, columns, ref_table, ref_columns, on_delete, on_update },
            TableConstraint::Foreign {
                name: name2,
                columns: columns2,
                ref_table: ref_table2,
                ref_columns: ref_columns2,
                on_delete: on_delete2,
                on_update: on_update2,
            },
        ) => *name == *name2 && same_texts(columns, columns2) && ref_table.same_as(ref_table2)
            && same_texts(ref_columns, ref_columns2) && *on_delete == *on_delete2 && *on_update
            == *on_update2,
        (
            TableConstraint::Unique { name, columns },
            TableConstraint::Unique { name: name2, columns: columns2 },
        ) => *name == *name2 && same_texts(columns, columns2),
        (
            TableConstraint::Check { name, expression },
            TableConstraint::Check { name: name2, expression: expression2 },
        ) => *name == *name2 && ws_equal(expression.as_str(), expression2.as_str()),
        _ => false,
    }
}

/// Whether two functions are the same.
pub fn same_function(a: &FunctionDefinition, b: &FunctionDefinition) -> (r: bool)
    ensures
        r == function_same(*a, *b),
{
    if !a.name.same_as(&b.name) {
        return false;
    }
    if a.arguments.len() != b.arguments.len() {
        return false;
    }
    let mut i: usize = 0;
    while i < a.arguments.len()
        invariant
            i <= a.arguments.len(),
            a.arguments.len() == b.arguments.len(),
            forall|k: int|
                0 <= k < i ==> (#[trigger] a.arguments@[k]).name@ == b.arguments@[k].name@ && type_same(
                    a.arguments@[k].sql_type,
                    b.arguments@[k].sql_type,
                ),
        decreases a.arguments.len() - i,
    {
        if a.arguments[i].name != b.arguments[i].name {
            return false;
        }
        if !same_type(&a.arguments[i].sql_type, &b.arguments[i].sql_type) {
            return false;
        }
        i += 1;
    }
    same_type(&a.return_type, &b.return_type) && a.language == b.language && trim_equal(
        a.body.as_str(),
        b.body.as_str(),
    ) && a.volatility == b.volatility
}

/// Whether two lists of fields have the same names and types.
fn same_fields(a: &Vec<TypeField>, b: &Vec<TypeField>) -> (r: bool)
    ensures
        r == fields_same(a@, b@),
{
    if a.len() != b.len() {
        return false;
    }
    let mut i: usize = 0;
    while i < a.len()
        invariant
            i <= a.len(),
            a.len() == b.len(),
            forall|k: int|
                0 <= k < i ==> (#[trigger] a@[k]).name@ == b@[k].name@ && type_same(
                    a@[k].sql_type,
                    b@[k].sql_type,
                ),
        decreases a.len() - i,
    {
        if a[i].name != b[i].name {
            return false;
        }
        if !same_type(&a[i].sql_type, &b[i].sql_type) {
            return false;
        }
        i += 1;
    }
    true
}

/// Whether two declared types are the same.
pub fn same_typedef(a: &TypeDefinition, b: &TypeDefinition) -> (r: bool)
    ensures
        r == typedef_same(*a, *b),
{
    if !a.name.same_as(&b.name) {
        return false;
    }
    match (&a.kind, &b.kind) {
        (TypeDefinitionKind::Enum(x), TypeDefinitionKind::Enum(y)) => same_texts(x, y),
        (TypeDefinitionKind::Composite(x), TypeDefinitionKind::Composite(y)) => same_fields(x, y),
        (TypeDefinitionKind::Alias(x), TypeDefinitionKind::Alias(y)) => same_type(x, y),
        (TypeDefinitionKind::Domain(x, c), TypeDefinitionKind::Domain(y, d)) => same_type(x, y)
            && same_texts(c, d),
        _ => false,
    }
}

} // verus!

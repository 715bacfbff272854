//! The package: what a project declares, by kind, and the order in which to
//! build it.

use vstd::prelude::*;
use vstd::string::StringExecFns;
use crate::ast::{
    ExtensionDefinition, FunctionDefinition, ObjectName, SchemaDefinition, ScriptDefinition,
    TableConstraint, TableDefinition, TypeDefinition,
};
use crate::errors::PsqlpackError;
use crate::graph::Node;
use crate::model::normalize::{
    lemma_name_full, lemma_type_full, name_full, name_sound, type_full, type_sound,
    default_function, default_table, default_typedef, function_defaulted, function_qualified,
    table_defaulted, table_qualified, typedef_defaulted, typedef_qualified,
};
use crate::model::lookup::{
    as_int, column_names, constraint_names, first_name, is_first_name, table_names,
};
use crate::model::project::Project;
use crate::text::{chars_of, eq_ignore_ascii_case, eq_ignore_case};

verus! {

/// The declared objects of a project, and the order in which to build them
/// once it has been computed.
#[derive(Debug, PartialEq, Eq)]
pub struct Package {
    pub extensions: Vec<ExtensionDefinition>,
    pub functions: Vec<FunctionDefinition>,
    pub schemas: Vec<SchemaDefinition>,
    pub scripts: Vec<ScriptDefinition>,
    pub tables: Vec<TableDefinition>,
    pub types: Vec<TypeDefinition>,
    pub order: Option<Vec<Node>>,
}

/// Some schema in the list is called `public`, in whatever case.
pub open spec fn has_public(schemas: Seq<SchemaDefinition>) -> bool {
    exists|i: int| 0 <= i < schemas.len() && eq_ignore_case("public"@, (#[trigger] schemas[i]).name@)
}

/// No two of the names are the same.
pub open spec fn distinct_names(names: Seq<ObjectName>) -> bool {
    forall|i: int, j: int|
        #![trigger names[i], names[j]]
        0 <= i < j < names.len() ==> !names[i].same(&names[j])
}

/// No two of the texts are equal.
pub open spec fn distinct_texts(texts: Seq<Seq<char>>) -> bool {
    forall|i: int, j: int|
        #![trigger texts[i], texts[j]]
        0 <= i < j < texts.len() ==> texts[i] != texts[j]
}

/// `after` is `before` normalized with the default schema `default`: it has
/// a schema `public`, added behind the others if `before` had none of that
/// name in whatever case, and every name in its tables, functions and
/// declared types that lacked a schema has `default`. Nothing else differs.
pub open spec fn is_normalized(before: Package, after: Package, default: String) -> bool {
    &&& has_public(after.schemas@)
    &&& has_public(before.schemas@) ==> after.schemas@ == before.schemas@
    &&& !has_public(before.schemas@) ==> after.schemas@.len() == before.schemas@.len() + 1
        && after.schemas@.drop_last() == before.schemas@ && after.schemas@.last().name@ == "public"@
    &&& after.tables.len() == before.tables.len()
    &&& forall|i: int|
        0 <= i < before.tables.len() ==> table_defaulted(before.tables[i], #[trigger] after.tables[i], default)
    &&& after.functions.len() == before.functions.len()
    &&& forall|i: int|
        0 <= i < before.functions.len() ==> function_defaulted(
            before.functions[i],
            #[trigger] after.functions[i],
            default,
        )
    &&& after.types.len() == before.types.len()
    &&& forall|i: int|
        0 <= i < before.types.len() ==> typedef_defaulted(before.types[i], #[trigger] after.types[i], default)
    &&& after.extensions == before.extensions
    &&& after.scripts == before.scripts
    &&& after.order == before.order
}

impl Package {
    /// Every table, function and declared type has a schema, and so has
    /// every name by which one of them refers to a table or a type.
    pub open spec fn is_qualified(&self) -> bool {
        &&& forall|i: int| 0 <= i < self.tables.len() ==> table_qualified(#[trigger] self.tables[i])
        &&& forall|i: int| 0 <= i < self.functions.len() ==> function_qualified(#[trigger] self.functions[i])
        &&& forall|i: int| 0 <= i < self.types.len() ==> typedef_qualified(#[trigger] self.types[i])
    }

    /// Within each kind, no two objects have the same name; nor have two
    /// columns or two constraints of one table.
    pub open spec fn names_unique(&self) -> bool {
        &&& distinct_texts(self.extensions@.map_values(|e: ExtensionDefinition| e.name@))
        &&& distinct_texts(self.schemas@.map_values(|s: SchemaDefinition| s.name@))
        &&& distinct_texts(self.scripts@.map_values(|s: ScriptDefinition| s.name@))
        &&& distinct_names(self.types@.map_values(|t: TypeDefinition| t.name))
        &&& distinct_names(self.tables@.map_values(|t: TableDefinition| t.name))
        &&& distinct_names(self.functions@.map_values(|f: FunctionDefinition| f.name))
        &&& forall|i: int| 0 <= i < self.tables.len() ==> distinct_texts(column_names(#[trigger] self.tables[i]))
        &&& forall|i: int|
            0 <= i < self.tables.len() ==> distinct_texts(constraint_names(#[trigger] self.tables[i]))
    }

    /// Every table, function and declared type has a schema, and none has
    /// the empty text for it.
    pub open spec fn schemas_resolved(&self) -> bool {
        &&& forall|i: int| 0 <= i < self.tables.len() ==> name_full((#[trigger] self.tables[i]).name)
        &&& forall|i: int| 0 <= i < self.functions.len() ==> name_full((#[trigger] self.functions[i]).name)
        &&& forall|i: int| 0 <= i < self.types.len() ==> name_full((#[trigger] self.types[i]).name)
    }

    /// The package has a table of the name `name`.
    pub open spec fn has_table(&self, name: ObjectName) -> bool {
        exists|k: int| 0 <= k < self.tables.len() && (#[trigger] self.tables[k]).name.same(&name)
    }

    /// Every foreign key refers to a table of the package.
    pub open spec fn references_resolved(&self) -> bool {
        forall|i: int, j: int|
            0 <= i < self.tables.len() && 0 <= j < self.tables[i].constraints.len() ==> (
            #[trigger] self.tables[i].constraints[j] matches TableConstraint::Foreign { ref_table, .. }
                ==> self.has_table(ref_table))
    }

    /// What [`Package::validate`] asks of a package.
    pub open spec fn is_valid(&self) -> bool {
        &&& self.names_unique()
        &&& self.schemas_resolved()
        &&& self.references_resolved()
    }

    /// A package without objects and without an order.
    pub fn new() -> (p: Package)
        ensures
            p.extensions@ == Seq::<ExtensionDefinition>::empty(),
            p.functions@ == Seq::<FunctionDefinition>::empty(),
            p.schemas@ == Seq::<SchemaDefinition>::empty(),
            p.scripts@ == Seq::<ScriptDefinition>::empty(),
            p.tables@ == Seq::<TableDefinition>::empty(),
            p.types@ == Seq::<TypeDefinition>::empty(),
            p.order is None,
    {
        Package {
            extensions: Vec::new(),
            functions: Vec::new(),
            schemas: Vec::new(),
            scripts: Vec::new(),
            tables: Vec::new(),
            types: Vec::new(),
            order: None,
        }
    }

    /// Appends an extension.
    pub fn push_extension(&mut self, extension: ExtensionDefinition)
        ensures
            final(self).extensions@ == old(self).extensions@.push(extension),
            final(self).functions == old(self).functions,
            final(self).schemas == old(self).schemas,
            final(self).scripts == old(self).scripts,
            final(self).tables == old(self).tables,
            final(self).types == old(self).types,
            final(self).order == old(self).order,
    {
        self.extensions.push(extension);
    }

    /// Appends a function.
    pub fn push_function(&mut self, function: FunctionDefinition)
        ensures
            final(self).functions@ == old(self).functions@.push(function),
            final(self).extensions == old(self).extensions,
            final(self).schemas == old(self).schemas,
            final(self).scripts == old(self).scripts,
            final(self).tables == old(self).tables,
            final(self).types == old(self).types,
            final(self).order == old(self).order,
    {
        self.functions.push(function);
    }

    /// Appends a script.
    pub fn push_script(&mut self, script: ScriptDefinition)
        ensures
            final(self).scripts@ == old(self).scripts@.push(script),
            final(self).extensions == old(self).extensions,
            final(self).functions == old(self).functions,
            final(self).schemas == old(self).schemas,
            final(self).tables == old(self).tables,
            final(self).types == old(self).types,
            final(self).order == old(self).order,
    {
        self.scripts.push(script);
    }

    /// Appends a schema.
    pub fn push_schema(&mut self, schema: SchemaDefinition)
        ensures
            final(self).schemas@ == old(self).schemas@.push(schema),
            final(self).extensions == old(self).extensions,
            final(self).functions == old(self).functions,
            final(self).scripts == old(self).scripts,
            final(self).tables == old(self).tables,
            final(self).types == old(self).types,
            final(self).order == old(self).order,
    {
        self.schemas.push(schema);
    }

    /// Appends a table.
    pub fn push_table(&mut self, table: TableDefinition)
        ensures
            final(self).tables@ == old(self).tables@.push(table),
            final(self).extensions == old(self).extensions,
            final(self).functions == old(self).functions,
            final(self).schemas == old(self).schemas,
            final(self).scripts == old(self).scripts,
            final(self).types == old(self).types,
            final(self).order == old(self).order,
    {
        self.tables.push(table);
    }

    /// Appends a declared type.
    pub fn push_type(&mut self, def: TypeDefinition)
        ensures
            final(self).types@ == old(self).types@.push(def),
            final(self).extensions == old(self).extensions,
            final(self).functions == old(self).functions,
            final(self).schemas == old(self).schemas,
            final(self).scripts == old(self).scripts,
            final(self).tables == old(self).tables,
            final(self).order == old(self).order,
    {
        self.types.push(def);
    }

    /// Normalizes the package: adds the schema `public` unless a schema of
    /// that name, in whatever case, is there, and gives every name that lacks
    /// a schema the default schema of the project.
    pub fn set_defaults(&mut self, project: &Project)
        ensures
            final(self).is_qualified(),
            is_normalized(*old(self), *final(self), project.default_schema),
    {
        let mut found = false;
        let mut i: usize = 0;
        while i < self.schemas.len()
            invariant
                i <= self.schemas.len(),
                *self == *old(self),
                found == exists|k: int|
                    0 <= k < i && eq_ignore_case("public"@, (#[trigger] self.schemas@[k]).name@),
            decreases self.schemas.len() - i,
        {
            if eq_ignore_ascii_case("public", self.schemas[i].name.as_str()) {
                found = true;
            }
            i += 1;
        }
        if !found {
            self.schemas.push(SchemaDefinition { name: String::from_str("public") });
            proof {
                let l = self.schemas@.len() - 1;
                assert(self.schemas@.drop_last() =~= old(self).schemas@);
                assert(eq_ignore_case("public"@, self.schemas@[l].name@));
            }
        }
        let default = &project.default_schema;
        let mut i: usize = 0;
        while i < self.tables.len()
            invariant
                i <= self.tables.len(),
                has_public(self.schemas@),
                has_public(old(self).schemas@) ==> self.schemas@ == old(self).schemas@,
                !has_public(old(self).schemas@) ==> self.schemas@.len() == old(self).schemas@.len() + 1
                    && self.schemas@.drop_last() == old(self).schemas@ && self.schemas@.last().name@
                    == "public"@,
                self.extensions == old(self).extensions,
                self.scripts == old(self).scripts,
                self.order == old(self).order,
                self.functions == old(self).functions,
                self.types == old(self).types,
                self.tables.len() == old(self).tables.len(),
                *default == project.default_schema,
                forall|k: int|
                    0 <= k < i ==> table_defaulted(old(self).tables[k], #[trigger] self.tables[k], *default),
                forall|k: int| 0 <= k < i ==> table_qualified(#[trigger] self.tables[k]),
                forall|k: int| i <= k < self.tables.len() ==> old(self).tables[k] == #[trigger] self.tables[k],
            decreases self.tables.len() - i,
        {
            default_table(&mut self.tables[i], default);
            i += 1;
        }
        let mut i: usize = 0;
        while i < self.functions.len()
            invariant
                i <= self.functions.len(),
                has_public(self.schemas@),
                has_public(old(self).schemas@) ==> self.schemas@ == old(self).schemas@,
                !has_public(old(self).schemas@) ==> self.schemas@.len() == old(self).schemas@.len() + 1
                    && self.schemas@.drop_last() == old(self).schemas@ && self.schemas@.last().name@
                    == "public"@,
                self.extensions == old(self).extensions,
                self.scripts == old(self).scripts,
                self.order == old(self).order,
                self.types == old(self).types,
                self.tables.len() == old(self).tables.len(),
                *default == project.default_schema,
                forall|k: int|
                    0 <= k < self.tables.len() ==> table_defaulted(
                        old(self).tables[k],
                        #[trigger] self.tables[k],
                        *default,
                    ),
                forall|k: int| 0 <= k < self.tables.len() ==> table_qualified(#[trigger] self.tables[k]),
                self.functions.len() == old(self).functions.len(),
                forall|k: int|
                    0 <= k < i ==> function_defaulted(
                        old(self).functions[k],
                        #[trigger] self.functions[k],
                        *default,
                    ),
                forall|k: int| 0 <= k < i ==> function_qualified(#[trigger] self.functions[k]),
                forall|k: int|
                    i <= k < self.functions.len() ==> old(self).functions[k] == #[trigger] self.functions[k],
            decreases self.functions.len() - i,
        {
            default_function(&mut self.functions[i], default);
            i += 1;
        }
        let mut i: usize = 0;
        while i < self.types.len()
            invariant
                i <= self.types.len(),
                has_public(self.schemas@),
                has_public(old(self).schemas@) ==> self.schemas@ == old(self).schemas@,
                !has_public(old(self).schemas@) ==> self.schemas@.len() == old(self).schemas@.len() + 1
                    && self.schemas@.drop_last() == old(self).schemas@ && self.schemas@.last().name@
                    == "public"@,
                self.extensions == old(self).extensions,
                self.scripts == old(self).scripts,
                self.order == old(self).order,
                self.tables.len() == old(self).tables.len(),
                *default == project.default_schema,
                forall|k: int|
                    0 <= k < self.tables.len() ==> table_defaulted(
                        old(self).tables[k],
                        #[trigger] self.tables[k],
                        *default,
                    ),
                forall|k: int| 0 <= k < self.tables.len() ==> table_qualified(#[trigger] self.tables[k]),
                self.functions.len() == old(self).functions.len(),
                forall|k: int|
                    0 <= k < self.functions.len() ==> function_defaulted(
                        old(self).functions[k],
                        #[trigger] self.functions[k],
                        *default,
                    ),
                forall|k: int|
                    0 <= k < self.functions.len() ==> function_qualified(#[trigger] self.functions[k]),
                self.types.len() == old(self).types.len(),
                forall|k: int|
                    0 <= k < i ==> typedef_defaulted(old(self).types[k], #[trigger] self.types[k], *default),
                forall|k: int| 0 <= k < i ==> typedef_qualified(#[trigger] self.types[k]),
                forall|k: int| i <= k < self.types.len() ==> old(self).types[k] == #[trigger] self.types[k],
            decreases self.types.len() - i,
        {
            default_typedef(&mut self.types[i], default);
            i += 1;
        }
    }
}

/// The names behind a list of references.
pub open spec fn names_of(refs: Seq<&ObjectName>) -> Seq<ObjectName> {
    refs.map_values(|n: &ObjectName| *n)
}

/// The texts behind a list of references.
pub open spec fn texts_of(refs: Seq<&String>) -> Seq<Seq<char>> {
    refs.map_values(|s: &String| s@)
}

/// Whether no two of the names are the same.
fn all_distinct_names(names: &Vec<&ObjectName>) -> (r: bool)
    ensures
        r == distinct_names(names_of(names@)),
{
    let ghost ns = names_of(names@);
    let mut j: usize = 0;
    while j < names.len()
        invariant
            j <= names.len(),
            ns == names_of(names@),
            forall|a: int, b: int| #![trigger ns[a], ns[b]] 0 <= a < b < j ==> !ns[a].same(&ns[b]),
        decreases names.len() - j,
    {
        let mut i: usize = 0;
        while i < j
            invariant
                i <= j,
                j < names.len(),
                ns == names_of(names@),
                forall|a: int| 0 <= a < i ==> !(#[trigger] ns[a]).same(&ns[j as int]),
            decreases j - i,
        {
            if names[i].same_as(names[j]) {
                assert(ns[i as int].same(&ns[j as int]));
                return false;
            }
            i += 1;
        }
        j += 1;
    }
    true
}

/// Whether no two of the texts are equal.
fn all_distinct_texts(texts: &Vec<&String>) -> (r: bool)
    ensures
        r == distinct_texts(texts_of(texts@)),
{
    let ghost ts = texts_of(texts@);
    let mut j: usize = 0;
    while j < texts.len()
        invariant
            j <= texts.len(),
            ts == texts_of(texts@),
            forall|a: int, b: int| #![trigger ts[a], ts[b]] 0 <= a < b < j ==> ts[a] != ts[b],
        decreases texts.len() - j,
    {
        let mut i: usize = 0;
        while i < j
            invariant
                i <= j,
                j < texts.len(),
                ts == texts_of(texts@),
                forall|a: int| 0 <= a < i ==> #[trigger] ts[a] != ts[j as int],
            decreases j - i,
        {
            if *texts[i] == *texts[j] {
                assert(ts[i as int] == ts[j as int]);
                return false;
            }
            i += 1;
        }
        j += 1;
    }
    true
}

impl Package {
    /// Whether, within each kind, no two objects have the same name.
    fn check_names_unique(&self) -> (r: bool)
        ensures
            r == self.names_unique(),
    {
        let mut texts: Vec<&String> = Vec::new();
        let mut i: usize = 0;
        while i < self.extensions.len()
            invariant
                i <= self.extensions.len(),
                texts.len() == i,
                forall|k: int| 0 <= k < i ==> #[trigger] texts@[k]@ == self.extensions@[k].name@,
            decreases self.extensions.len() - i,
        {
            texts.push(&self.extensions[i].name);
            i += 1;
        }
        assert(texts_of(texts@) =~= self.extensions@.map_values(|e: ExtensionDefinition| e.name@));
        if !all_distinct_texts(&texts) {
            return false;
        }
        let mut texts: Vec<&String> = Vec::new();
        let mut i: usize = 0;
        while i < self.schemas.len()
            invariant
                i <= self.schemas.len(),
                texts.len() == i,
                forall|k: int| 0 <= k < i ==> #[trigger] texts@[k]@ == self.schemas@[k].name@,
            decreases self.schemas.len() - i,
        {
            texts.push(&self.schemas[i].name);
            i += 1;
        }
        assert(texts_of(texts@) =~= self.schemas@.map_values(|e: SchemaDefinition| e.name@));
        if !all_distinct_texts(&texts) {
            return false;
        }
        let mut texts: Vec<&String> = Vec::new();
        let mut i: usize = 0;
        while i < self.scripts.len()
            invariant
                i <= self.scripts.len(),
                texts.len() == i,
                forall|k: int| 0 <= k < i ==> #[trigger] texts@[k]@ == self.scripts@[k].name@,
            decreases self.scripts.len() - i,
        {
            texts.push(&self.scripts[i].name);
            i += 1;
        }
        assert(texts_of(texts@) =~= self.scripts@.map_values(|e: ScriptDefinition| e.name@));
        if !all_distinct_texts(&texts) {
            return false;
        }
        let mut names: Vec<&ObjectName> = Vec::new();
        let mut i: usize = 0;
        while i < self.types.len()
            invariant
                i <= self.types.len(),
                names.len() == i,
                forall|k: int| 0 <= k < i ==> #[trigger] *names@[k] == self.types@[k].name,
            decreases self.types.len() - i,
        {
            names.push(&self.types[i].name);
            i += 1;
        }
        assert(names_of(names@) =~= self.types@.map_values(|e: TypeDefinition| e.name));
        if !all_distinct_names(&names) {
            return false;
        }
        let mut names: Vec<&ObjectName> = Vec::new();
        let mut i: usize = 0;
        while i < self.tables.len()
            invariant
                i <= self.tables.len(),
                names.len() == i,
                forall|k: int| 0 <= k < i ==> #[trigger] *names@[k] == self.tables@[k].name,
            decreases self.tables.len() - i,
        {
            names.push(&self.tables[i].name);
            i += 1;
        }
        assert(names_of(names@) =~= self.tables@.map_values(|e: TableDefinition| e.name));
        if !all_distinct_names(&names) {
            return false;
        }
        let mut names: Vec<&ObjectName> = Vec::new();
        let mut i: usize = 0;
        while i < self.functions.len()
            invariant
                i <= self.functions.len(),
                names.len() == i,
                forall|k: int| 0 <= k < i ==> #[trigger] *names@[k] == self.functions@[k].name,
            decreases self.functions.len() - i,
        {
            names.push(&self.functions[i].name);
            i += 1;
        }
        assert(names_of(names@) =~= self.functions@.map_values(|e: FunctionDefinition| e.name));
        if !all_distinct_names(&names) {
            return false;
        }
        let mut t: usize = 0;
        while t < self.tables.len()
            invariant
                t <= self.tables.len(),
                forall|k: int| 0 <= k < t ==> distinct_texts(column_names(#[trigger] self.tables[k])),
                forall|k: int| 0 <= k < t ==> distinct_texts(constraint_names(#[trigger] self.tables[k])),
            decreases self.tables.len() - t,
        {
            let table = &self.tables[t];
            let mut texts: Vec<&String> = Vec::new();
            let mut i: usize = 0;
            while i < table.columns.len()
                invariant
                    i <= table.columns.len(),
                    texts.len() == i,
                    forall|k: int| 0 <= k < i ==> #[trigger] texts@[k]@ == table.columns@[k].name@,
                decreases table.columns.len() - i,
            {
                texts.push(&table.columns[i].name);
                i += 1;
            }
            assert(texts_of(texts@) =~= column_names(*table));
            if !all_distinct_texts(&texts) {
                return false;
            }
            let mut texts: Vec<&String> = Vec::new();
            let mut i: usize = 0;
            while i < table.constraints.len()
                invariant
                    i <= table.constraints.len(),
                    texts.len() == i,
                    forall|k: int|
                        0 <= k < i ==> #[trigger] texts@[k]@ == table.constraints@[k].name_spec()@,
                decreases table.constraints.len() - i,
            {
                texts.push(table.constraints[i].name());
                i += 1;
            }
            assert(texts_of(texts@) =~= constraint_names(*table));
            if !all_distinct_texts(&texts) {
                return false;
            }
            t += 1;
        }
        true
    }

    /// Whether every table, function and declared type has a schema that is
    /// not the empty text.
    fn check_schemas_resolved(&self) -> (r: bool)
        ensures
            r == self.schemas_resolved(),
    {
        let mut i: usize = 0;
        while i < self.tables.len()
            invariant
                i <= self.tables.len(),
                forall|k: int| 0 <= k < i ==> name_full((#[trigger] self.tables[k]).name),
            decreases self.tables.len() - i,
        {
            if !has_schema(&self.tables[i].name) {
                return false;
            }
            i += 1;
        }
        let mut i: usize = 0;
        while i < self.functions.len()
            invariant
                i <= self.functions.len(),
                forall|k: int| 0 <= k < i ==> name_full((#[trigger] self.functions[k]).name),
            decreases self.functions.len() - i,
        {
            if !has_schema(&self.functions[i].name) {
                return false;
            }
            i += 1;
        }
        let mut i: usize = 0;
        while i < self.types.len()
            invariant
                i <= self.types.len(),
                forall|k: int| 0 <= k < i ==> name_full((#[trigger] self.types[k]).name),
            decreases self.types.len() - i,
        {
            if !has_schema(&self.types[i].name) {
                return false;
            }
            i += 1;
        }
        true
    }

    /// The place of the first table of the name `name`, if the package has
    /// one.
    pub fn find_table(&self, name: &ObjectName) -> (r: Option<usize>)
        ensures
            as_int(r) == first_name(table_names(self.tables@), *name),
            r is Some <==> self.has_table(*name),
            r matches Some(k) ==> k < self.tables.len() && self.tables[k as int].name.same(name),
    {
        let r = crate::model::lookup::find_table(&self.tables, name);
        proof {
            let names = table_names(self.tables@);
            match r {
                Some(k) => {
                    let c = choose|c: int| is_first_name(names, *name, c);
                    assert(is_first_name(names, *name, c));
                    assert(self.tables[k as int].name == names[k as int]);
                },
                None => {
                    if self.has_table(*name) {
                        let k = choose|k: int|
                            0 <= k < self.tables.len() && (#[trigger] self.tables[k]).name.same(name);
                        assert(names[k].same(name));
                        crate::model::laws::lemma_same_name_found(names, *name, k);
                    }
                },
            }
        }
        r
    }

    /// Whether every foreign key refers to a table of the package.
    fn check_references_resolved(&self) -> (r: bool)
        ensures
            r == self.references_resolved(),
    {
        let mut i: usize = 0;
        while i < self.tables.len()
            invariant
                i <= self.tables.len(),
                forall|a: int, b: int|
                    0 <= a < i && 0 <= b < self.tables[a].constraints.len() ==> (
                    #[trigger] self.tables[a].constraints[b] matches TableConstraint::Foreign {
                        ref_table,
                        ..
                    } ==> self.has_table(ref_table)),
            decreases self.tables.len() - i,
        {
            let mut j: usize = 0;
            while j < self.tables[i].constraints.len()
                invariant
                    i < self.tables.len(),
                    j <= self.tables[i as int].constraints.len(),
                    forall|b: int|
                        0 <= b < j ==> (#[trigger] self.tables[i as int].constraints[b] matches TableConstraint::Foreign {
                            ref_table,
                            ..
                        } ==> self.has_table(ref_table)),
                decreases self.tables[i as int].constraints.len() - j,
            {
                match &self.tables[i].constraints[j] {
                    TableConstraint::Foreign { ref_table, .. } => {
                        if self.find_table(ref_table).is_none() {
                            return false;
                        }
                    },
                    _ => {},
                }
                j += 1;
            }
            i += 1;
        }
        true
    }

    /// Checks the package: that no name is declared twice within its kind,
    /// that every table, function and declared type has a schema which is
    /// not the empty text, and that every foreign key refers to a table of
    /// the package. Reports the first of these that fails.
    pub fn validate(&self) -> (r: Result<(), PsqlpackError>)
        ensures
            r is Ok <==> self.is_valid(),
            r matches Err(e) ==> e matches PsqlpackError::GenerationError(m) && m@ == (if !self.names_unique() {
                "Duplicate object name detected"@
            } else if !self.schemas_resolved() {
                "Unqualified object name detected"@
            } else {
                "Unresolved table reference detected"@
            }),
    {
        if !self.check_names_unique() {
            return Err(
                PsqlpackError::GenerationError(String::from_str("Duplicate object name detected")),
            );
        }
        if !self.check_schemas_resolved() {
            return Err(
                PsqlpackError::GenerationError(String::from_str("Unqualified object name detected")),
            );
        }
        if !self.check_references_resolved() {
            return Err(
                PsqlpackError::GenerationError(
                    String::from_str("Unresolved table reference detected"),
                ),
            );
        }
        Ok(())
    }
}

/// Whether the name has a schema that is not the empty text.
pub fn has_schema(name: &ObjectName) -> (r: bool)
    ensures
        r == name_full(*name),
{
    match &name.schema {
        Some(s) => chars_of(s.as_str()).len() > 0,
        None => false,
    }
}

/// In a valid package every table, every function and every declared type
/// has a schema that is not the empty text, and so has every table that a
/// foreign key refers to.
pub proof fn lemma_valid_names_full(p: Package)
    requires
        p.is_valid(),
    ensures
        forall|i: int| 0 <= i < p.tables.len() ==> name_full((#[trigger] p.tables[i]).name),
        forall|i: int| 0 <= i < p.functions.len() ==> name_full((#[trigger] p.functions[i]).name),
        forall|i: int| 0 <= i < p.types.len() ==> name_full((#[trigger] p.types[i]).name),
        forall|i: int, j: int|
            0 <= i < p.tables.len() && 0 <= j < p.tables[i].constraints.len() ==> (
            #[trigger] p.tables[i].constraints[j] matches TableConstraint::Foreign { ref_table, .. }
                ==> name_full(ref_table)),
{
    assert forall|i: int, j: int|
        0 <= i < p.tables.len() && 0 <= j < p.tables[i].constraints.len() implies (
    #[trigger] p.tables[i].constraints[j] matches TableConstraint::Foreign { ref_table, .. } ==> name_full(
        ref_table,
    )) by {
        match p.tables[i].constraints[j] {
            TableConstraint::Foreign { ref_table, .. } => {
                assert(p.has_table(ref_table));
                let k = choose|k: int| 0 <= k < p.tables.len() && (#[trigger] p.tables[k]).name.same(&ref_table);
                assert(name_full(p.tables[k].name));
            },
            _ => {},
        }
    }
}

/// In a valid package, the table that a foreign key refers to is there, and
/// it is the only table of that name.
pub proof fn lemma_reference_matches_one_table(p: Package, i: int, j: int)
    requires
        p.is_valid(),
        0 <= i < p.tables.len(),
        0 <= j < p.tables[i].constraints.len(),
        p.tables[i].constraints[j] is Foreign,
    ensures
        exists|k: int|
            0 <= k < p.tables.len() && (#[trigger] p.tables[k]).name.same(
                &p.tables[i].constraints[j]->Foreign_ref_table,
            ) && forall|m: int|
                0 <= m < p.tables.len() && (#[trigger] p.tables[m]).name.same(
                    &p.tables[i].constraints[j]->Foreign_ref_table,
                ) ==> m == k,
{
    let target = p.tables[i].constraints[j]->Foreign_ref_table;
    assert(p.has_table(target));
    let k = choose|k: int| 0 <= k < p.tables.len() && (#[trigger] p.tables[k]).name.same(&target);
    let names = p.tables@.map_values(|t: TableDefinition| t.name);
    assert forall|m: int| 0 <= m < p.tables.len() && (#[trigger] p.tables[m]).name.same(&target) implies m
        == k by {
        if m < k {
            assert(!names[m].same(&names[k]));
        } else if k < m {
            assert(!names[k].same(&names[m]));
        }
    }
}

/// Whatever schema a name of the tables, functions and declared types of
/// the package has is not the empty text; so with the tables that foreign
/// keys refer to and the declared types that columns, arguments and
/// results are of.
pub open spec fn names_sound(p: Package) -> bool {
    &&& forall|i: int| 0 <= i < p.tables.len() ==> name_sound((#[trigger] p.tables[i]).name)
    &&& forall|i: int, j: int|
        0 <= i < p.tables.len() && 0 <= j < p.tables[i].columns.len() ==> type_sound(
            (#[trigger] p.tables[i].columns[j]).sql_type,
        )
    &&& forall|i: int, j: int|
        0 <= i < p.tables.len() && 0 <= j < p.tables[i].constraints.len() ==> (
        #[trigger] p.tables[i].constraints[j] matches TableConstraint::Foreign { ref_table, .. }
            ==> name_sound(ref_table))
    &&& forall|i: int| 0 <= i < p.functions.len() ==> name_sound((#[trigger] p.functions[i]).name)
    &&& forall|i: int| 0 <= i < p.functions.len() ==> type_sound((#[trigger] p.functions[i]).return_type)
    &&& forall|i: int, j: int|
        0 <= i < p.functions.len() && 0 <= j < p.functions[i].arguments.len() ==> type_sound(
            (#[trigger] p.functions[i].arguments[j]).sql_type,
        )
    &&& forall|i: int| 0 <= i < p.types.len() ==> name_sound((#[trigger] p.types[i]).name)
}

/// Every name of the tables, functions and declared types of the package
/// has a schema that is not the empty text; so with the tables that
/// foreign keys refer to and the declared types that columns, arguments
/// and results are of.
pub open spec fn names_full(p: Package) -> bool {
    &&& forall|i: int| 0 <= i < p.tables.len() ==> name_full((#[trigger] p.tables[i]).name)
    &&& forall|i: int, j: int|
        0 <= i < p.tables.len() && 0 <= j < p.tables[i].columns.len() ==> type_full(
            (#[trigger] p.tables[i].columns[j]).sql_type,
        )
    &&& forall|i: int, j: int|
        0 <= i < p.tables.len() && 0 <= j < p.tables[i].constraints.len() ==> (
        #[trigger] p.tables[i].constraints[j] matches TableConstraint::Foreign { ref_table, .. }
            ==> name_full(ref_table))
    &&& forall|i: int| 0 <= i < p.functions.len() ==> name_full((#[trigger] p.functions[i]).name)
    &&& forall|i: int| 0 <= i < p.functions.len() ==> type_full((#[trigger] p.functions[i]).return_type)
    &&& forall|i: int, j: int|
        0 <= i < p.functions.len() && 0 <= j < p.functions[i].arguments.len() ==> type_full(
            (#[trigger] p.functions[i].arguments[j]).sql_type,
        )
    &&& forall|i: int| 0 <= i < p.types.len() ==> name_full((#[trigger] p.types[i]).name)
}

/// After normalization with a default schema that is not the empty text,
/// every name has a schema that is not the empty text, if whatever schema
/// a name had before was not.
pub proof fn lemma_normalized_names_full(before: Package, after: Package, default: String)
    requires
        is_normalized(before, after, default),
        names_sound(before),
        default@.len() > 0,
    ensures
        names_full(after),
{
    assert forall|i: int| 0 <= i < after.tables.len() implies name_full((#[trigger] after.tables[i]).name) by {
        assert(table_defaulted(before.tables[i], after.tables[i], default));
        lemma_name_full(before.tables[i].name, after.tables[i].name, default);
    }
    assert forall|i: int, j: int|
        0 <= i < after.tables.len() && 0 <= j < after.tables[i].columns.len() implies type_full(
        (#[trigger] after.tables[i].columns[j]).sql_type,
    ) by {
        assert(table_defaulted(before.tables[i], after.tables[i], default));
        assert(crate::model::normalize::column_defaulted(
            before.tables[i].columns[j],
            after.tables[i].columns[j],
            default,
        ));
        lemma_type_full(before.tables[i].columns[j].sql_type, after.tables[i].columns[j].sql_type, default);
    }
    assert forall|i: int, j: int|
        0 <= i < after.tables.len() && 0 <= j < after.tables[i].constraints.len() implies (
    #[trigger] after.tables[i].constraints[j] matches TableConstraint::Foreign { ref_table, .. }
        ==> name_full(ref_table)) by {
        assert(table_defaulted(before.tables[i], after.tables[i], default));
        let b = before.tables[i].constraints[j];
        let a = after.tables[i].constraints[j];
        assert(crate::model::normalize::constraint_defaulted(b, a, default));
        if a is Foreign {
            assert(b is Foreign);
            lemma_name_full(b->Foreign_ref_table, a->Foreign_ref_table, default);
        }
    }
    assert forall|i: int| 0 <= i < after.functions.len() implies name_full(
        (#[trigger] after.functions[i]).name,
    ) by {
        assert(function_defaulted(before.functions[i], after.functions[i], default));
        lemma_name_full(before.functions[i].name, after.functions[i].name, default);
    }
    assert forall|i: int| 0 <= i < after.functions.len() implies type_full(
        (#[trigger] after.functions[i]).return_type,
    ) by {
        assert(function_defaulted(before.functions[i], after.functions[i], default));
        lemma_type_full(before.functions[i].return_type, after.functions[i].return_type, default);
    }
    assert forall|i: int, j: int|
        0 <= i < after.functions.len() && 0 <= j < after.functions[i].arguments.len() implies type_full(
        (#[trigger] after.functions[i].arguments[j]).sql_type,
    ) by {
        assert(function_defaulted(before.functions[i], after.functions[i], default));
        assert(crate::model::normalize::argument_defaulted(
            before.functions[i].arguments[j],
            after.functions[i].arguments[j],
            default,
        ));
        lemma_type_full(
            before.functions[i].arguments[j].sql_type,
            after.functions[i].arguments[j].sql_type,
            default,
        );
    }
    assert forall|i: int| 0 <= i < after.types.len() implies name_full((#[trigger] after.types[i]).name) by {
        assert(typedef_defaulted(before.types[i], after.types[i], default));
        lemma_name_full(before.types[i].name, after.types[i].name, default);
    }
}

} // verus!

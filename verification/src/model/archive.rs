//! The layout of a package artifact: which entry holds which object, and
//! which collection an entry is read into.

use vstd::prelude::*;
use vstd::string::StringExecFns;
use crate::ast::{
    ExtensionDefinition, FunctionDefinition, SchemaDefinition, ScriptDefinition, TableDefinition,
    TypeDefinition,
};
use crate::model::package::Package;
use crate::text::chars_of;

verus! {

/// The collection that an entry of an artifact is read into.
#[derive(Clone, Copy, Debug, PartialEq, Eq, Structural)]
pub enum EntryKind {
    Extension,
    Function,
    Schema,
    Script,
    Table,
    Type,
    Order,
    /// An entry of no size, or one of a directory that the package does not
    /// know: it is passed over.
    Ignored,
}

/// What an entry of an artifact holds: nothing, where it is a directory; the
/// object at the given place of its collection; or the build order.
#[derive(Clone, Copy, Debug, PartialEq, Eq, Structural)]
pub enum EntryContent {
    Directory,
    Extension(usize),
    Function(usize),
    Schema(usize),
    Script(usize),
    Table(usize),
    Type(usize),
    Order,
}

/// An entry of an artifact: its path, and what it holds.
#[derive(Clone, Debug, PartialEq, Eq)]
pub struct ArchiveEntry {
    pub path: String,
    pub content: EntryContent,
}

/// An entry as contracts see it.
pub struct EntryView {
    pub path: Seq<char>,
    pub content: EntryContent,
}

impl View for ArchiveEntry {
    type V = EntryView;

    open spec fn view(&self) -> EntryView {
        EntryView { path: self.path@, content: self.content }
    }
}

/// The collection that an entry of the given path and size is read into:
/// by the directory that the path starts with, or the build order where the
/// path is `order.json`. An entry of no size is passed over.
pub open spec fn entry_kind_spec(path: Seq<char>, size: u64) -> EntryKind {
    if size == 0 {
        EntryKind::Ignored
    } else if "extensions/"@.is_prefix_of(path) {
        EntryKind::Extension
    } else if "functions/"@.is_prefix_of(path) {
        EntryKind::Function
    } else if "schemas/"@.is_prefix_of(path) {
        EntryKind::Schema
    } else if "scripts/"@.is_prefix_of(path) {
        EntryKind::Script
    } else if "tables/"@.is_prefix_of(path) {
        EntryKind::Table
    } else if "types/"@.is_prefix_of(path) {
        EntryKind::Type
    } else if path == "order.json"@ {
        EntryKind::Order
    } else {
        EntryKind::Ignored
    }
}

/// Whether `s` starts with `prefix`.
pub fn starts_with(s: &Vec<char>, prefix: &str) -> (r: bool)
    ensures
        r == prefix@.is_prefix_of(s@),
{
    let p = chars_of(prefix);
    if p.len() > s.len() {
        return false;
    }
    let mut i: usize = 0;
    while i < p.len()
        invariant
            i <= p.len(),
            p.len() <= s.len(),
            p@ == prefix@,
            forall|k: int| 0 <= k < i ==> p@[k] == s@[k],
        decreases p.len() - i,
    {
        if p[i] != s[i] {
            assert(s@.subrange(0, p.len() as int)[i as int] != p@[i as int]);
            return false;
        }
        i += 1;
    }
    assert(p@ =~= s@.subrange(0, p.len() as int));
    true
}

/// The collection that an entry of the given path and size is read into.
pub fn entry_kind(path: &str, size: u64) -> (r: EntryKind)
    ensures
        r == entry_kind_spec(path@, size),
{
    if size == 0 {
        return EntryKind::Ignored;
    }
    let chars = chars_of(path);
    if starts_with(&chars, "extensions/") {
        EntryKind::Extension
    } else if starts_with(&chars, "functions/") {
        EntryKind::Function
    } else if starts_with(&chars, "schemas/") {
        EntryKind::Schema
    } else if starts_with(&chars, "scripts/") {
        EntryKind::Script
    } else if starts_with(&chars, "tables/") {
        EntryKind::Table
    } else if starts_with(&chars, "types/") {
        EntryKind::Type
    } else if crate::text::chars_eq(&chars, &chars_of("order.json")) {
        EntryKind::Order
    } else {
        EntryKind::Ignored
    }
}

/// The path of the entry for the object `name` in the directory `dir`.
pub open spec fn file_path(dir: Seq<char>, name: Seq<char>) -> Seq<char> {
    dir + name + ".json"@
}

/// The path of the entry for the object `name` in the directory `dir`,
/// which ends in a slash.
pub fn entry_path(dir: &str, name: &str) -> (r: String)
    ensures
        r@ == file_path(dir@, name@),
{
    let mut r = String::from_str(dir);
    r.append(name);
    r.append(".json");
    r
}

/// The entries of the extensions of a package.
pub open spec fn extension_entries(items: Seq<ExtensionDefinition>) -> Seq<EntryView> {
    seq![EntryView { path: "extensions/"@, content: EntryContent::Directory }] + Seq::new(
        items.len(),
        |i: int|
            EntryView {
                path: file_path("extensions/"@, items[i].name@),
                content: EntryContent::Extension(i as usize),
            },
    )
}

/// The entries of the functions of a package.
pub open spec fn function_entries(items: Seq<FunctionDefinition>) -> Seq<EntryView> {
    seq![EntryView { path: "functions/"@, content: EntryContent::Directory }] + Seq::new(
        items.len(),
        |i: int|
            EntryView {
                path: file_path("functions/"@, items[i].name.text()),
                content: EntryContent::Function(i as usize),
            },
    )
}

/// The entries of the schemas of a package.
pub open spec fn schema_entries(items: Seq<SchemaDefinition>) -> Seq<EntryView> {
    seq![EntryView { path: "schemas/"@, content: EntryContent::Directory }] + Seq::new(
        items.len(),
        |i: int|
            EntryView {
                path: file_path("schemas/"@, items[i].name@),
                content: EntryContent::Schema(i as usize),
            },
    )
}

/// The entries of the scripts of a package.
pub open spec fn script_entries(items: Seq<ScriptDefinition>) -> Seq<EntryView> {
    seq![EntryView { path: "scripts/"@, content: EntryContent::Directory }] + Seq::new(
        items.len(),
        |i: int|
            EntryView {
                path: file_path("scripts/"@, items[i].name@),
                content: EntryContent::Script(i as usize),
            },
    )
}

/// The entries of the tables of a package.
pub open spec fn table_entries(items: Seq<TableDefinition>) -> Seq<EntryView> {
    seq![EntryView { path: "tables/"@, content: EntryContent::Directory }] + Seq::new(
        items.len(),
        |i: int|
            EntryView {
                path: file_path("tables/"@, items[i].name.text()),
                content: EntryContent::Table(i as usize),
            },
    )
}

/// The entries of the declared types of a package.
pub open spec fn type_entries(items: Seq<TypeDefinition>) -> Seq<EntryView> {
    seq![EntryView { path: "types/"@, content: EntryContent::Directory }] + Seq::new(
        items.len(),
        |i: int|
            EntryView {
                path: file_path("types/"@, items[i].name.text()),
                content: EntryContent::Type(i as usize),
            },
    )
}

/// The entry of the build order, where the package holds one.
pub open spec fn order_entries(p: Package) -> Seq<EntryView> {
    if p.order is Some {
        seq![EntryView { path: "order.json"@, content: EntryContent::Order }]
    } else {
        Seq::empty()
    }
}

/// The entries of the artifact of a package, in the order in which they
/// are written: for each kind a directory and one entry for each object,
/// then the build order.
pub open spec fn layout_spec(p: Package) -> Seq<EntryView> {
    extension_entries(p.extensions@) + function_entries(p.functions@) + schema_entries(p.schemas@)
        + script_entries(p.scripts@) + table_entries(p.tables@) + type_entries(p.types@)
        + order_entries(p)
}

/// The views of a list of entries.
pub open spec fn entry_views(entries: Seq<ArchiveEntry>) -> Seq<EntryView> {
    entries.map_values(|e: ArchiveEntry| e@)
}

/// The collection that a file entry belongs to.
pub open spec fn kind_of(content: EntryContent) -> EntryKind {
    match content {
        EntryContent::Directory => EntryKind::Ignored,
        EntryContent::Extension(_) => EntryKind::Extension,
        EntryContent::Function(_) => EntryKind::Function,
        EntryContent::Schema(_) => EntryKind::Schema,
        EntryContent::Script(_) => EntryKind::Script,
        EntryContent::Table(_) => EntryKind::Table,
        EntryContent::Type(_) => EntryKind::Type,
        EntryContent::Order => EntryKind::Order,
    }
}

impl Package {
    /// The entries of the artifact of the package, in the order in which
    /// they are written.
    pub fn archive_layout(&self) -> (entries: Vec<ArchiveEntry>)
        ensures
            entry_views(entries@) == layout_spec(*self),
    {
        let mut entries: Vec<ArchiveEntry> = Vec::new();
        entries.push(ArchiveEntry { path: String::from_str("extensions/"), content: EntryContent::Directory });
        let mut i: usize = 0;
        while i < self.extensions.len()
            invariant
                i <= self.extensions.len(),
                entry_views(entries@) =~= extension_entries(self.extensions@).take(i + 1),
            decreases self.extensions.len() - i,
        {
            let path = entry_path("extensions/", self.extensions[i].name.as_str());
            let ghost before = entry_views(entries@);
            entries.push(ArchiveEntry { path, content: EntryContent::Extension(i) });
            proof {
                let all = extension_entries(self.extensions@);
                let added = entries@[entries@.len() - 1]@;
                assert(all[i + 1] == added);
                assert(entry_views(entries@) =~= before.push(added));
                assert(all.take(i + 2) =~= all.take(i + 1).push(all[i + 1]));
            }
            i += 1;
        }
        let ghost a = extension_entries(self.extensions@);
        assert(a.take(i + 1) =~= a);
        entries.push(ArchiveEntry { path: String::from_str("functions/"), content: EntryContent::Directory });
        let mut i: usize = 0;
        while i < self.functions.len()
            invariant
                i <= self.functions.len(),
                entry_views(entries@) =~= a + function_entries(self.functions@).take(i + 1),
            decreases self.functions.len() - i,
        {
            let name = self.functions[i].name.to_string();
            let path = entry_path("functions/", name.as_str());
            let ghost before = entry_views(entries@);
            entries.push(ArchiveEntry { path, content: EntryContent::Function(i) });
            proof {
                let all = function_entries(self.functions@);
                let added = entries@[entries@.len() - 1]@;
                assert(all[i + 1] == added);
                assert(entry_views(entries@) =~= before.push(added));
                assert(all.take(i + 2) =~= all.take(i + 1).push(all[i + 1]));
            }
            i += 1;
        }
        let ghost b = a + function_entries(self.functions@);
        assert(function_entries(self.functions@).take(i + 1) =~= function_entries(self.functions@));
        entries.push(ArchiveEntry { path: String::from_str("schemas/"), content: EntryContent::Directory });
        let mut i: usize = 0;
        while i < self.schemas.len()
            invariant
                i <= self.schemas.len(),
                entry_views(entries@) =~= b + schema_entries(self.schemas@).take(i + 1),
            decreases self.schemas.len() - i,
        {
            let path = entry_path("schemas/", self.schemas[i].name.as_str());
            let ghost before = entry_views(entries@);
            entries.push(ArchiveEntry { path, content: EntryContent::Schema(i) });
            proof {
                let all = schema_entries(self.schemas@);
                let added = entries@[entries@.len() - 1]@;
                assert(all[i + 1] == added);
                assert(entry_views(entries@) =~= before.push(added));
                assert(all.take(i + 2) =~= all.take(i + 1).push(all[i + 1]));
            }
            i += 1;
        }
        let ghost c = b + schema_entries(self.schemas@);
        assert(schema_entries(self.schemas@).take(i + 1) =~= schema_entries(self.schemas@));
        entries.push(ArchiveEntry { path: String::from_str("scripts/"), content: EntryContent::Directory });
        let mut i: usize = 0;
        while i < self.scripts.len()
            invariant
                i <= self.scripts.len(),
                entry_views(entries@) =~= c + script_entries(self.scripts@).take(i + 1),
            decreases self.scripts.len() - i,
        {
            let path = entry_path("scripts/", self.scripts[i].name.as_str());
            let ghost before = entry_views(entries@);
            entries.push(ArchiveEntry { path, content: EntryContent::Script(i) });
            proof {
                let all = script_entries(self.scripts@);
                let added = entries@[entries@.len() - 1]@;
                assert(all[i + 1] == added);
                assert(entry_views(entries@) =~= before.push(added));
                assert(all.take(i + 2) =~= all.take(i + 1).push(all[i + 1]));
            }
            i += 1;
        }
        let ghost d = c + script_entries(self.scripts@);
        assert(script_entries(self.scripts@).take(i + 1) =~= script_entries(self.scripts@));
        entries.push(ArchiveEntry { path: String::from_str("tables/"), content: EntryContent::Directory });
        let mut i: usize = 0;
        while i < self.tables.len()
            invariant
                i <= self.tables.len(),
                entry_views(entries@) =~= d + table_entries(self.tables@).take(i + 1),
            decreases self.tables.len() - i,
        {
            let name = self.tables[i].name.to_string();
            let path = entry_path("tables/", name.as_str());
            let ghost before = entry_views(entries@);
            entries.push(ArchiveEntry { path, content: EntryContent::Table(i) });
            proof {
                let all = table_entries(self.tables@);
                let added = entries@[entries@.len() - 1]@;
                assert(all[i + 1] == added);
                assert(entry_views(entries@) =~= before.push(added));
                assert(all.take(i + 2) =~= all.take(i + 1).push(all[i + 1]));
            }
            i += 1;
        }
        let ghost e = d + table_entries(self.tables@);
        assert(table_entries(self.tables@).take(i + 1) =~= table_entries(self.tables@));
        entries.push(ArchiveEntry { path: String::from_str("types/"), content: EntryContent::Directory });
        let mut i: usize = 0;
        while i < self.types.len()
            invariant
                i <= self.types.len(),
                entry_views(entries@) =~= e + type_entries(self.types@).take(i + 1),
            decreases self.types.len() - i,
        {
            let name = self.types[i].name.to_string();
            let path = entry_path("types/", name.as_str());
            let ghost before = entry_views(entries@);
            entries.push(ArchiveEntry { path, content: EntryContent::Type(i) });
            proof {
                let all = type_entries(self.types@);
                let added = entries@[entries@.len() - 1]@;
                assert(all[i + 1] == added);
                assert(entry_views(entries@) =~= before.push(added));
                assert(all.take(i + 2) =~= all.take(i + 1).push(all[i + 1]));
            }
            i += 1;
        }
        let ghost f = e + type_entries(self.types@);
        assert(type_entries(self.types@).take(i + 1) =~= type_entries(self.types@));
        if self.order.is_some() {
            entries.push(ArchiveEntry { path: String::from_str("order.json"), content: EntryContent::Order });
        }
        assert(entry_views(entries@) =~= f + order_entries(*self));
        entries
    }
}

/// What the paths of the artifact start with, letter by letter.
proof fn lemma_directory_names()
    ensures
        "extensions/"@ == seq!['e', 'x', 't', 'e', 'n', 's', 'i', 'o', 'n', 's', '/'],
        "functions/"@ == seq!['f', 'u', 'n', 'c', 't', 'i', 'o', 'n', 's', '/'],
        "schemas/"@ == seq!['s', 'c', 'h', 'e', 'm', 'a', 's', '/'],
        "scripts/"@ == seq!['s', 'c', 'r', 'i', 'p', 't', 's', '/'],
        "tables/"@ == seq!['t', 'a', 'b', 'l', 'e', 's', '/'],
        "types/"@ == seq!['t', 'y', 'p', 'e', 's', '/'],
        "order.json"@ == seq!['o', 'r', 'd', 'e', 'r', '.', 'j', 's', 'o', 'n'],
{
    reveal_strlit("extensions/");
    reveal_strlit("functions/");
    reveal_strlit("schemas/");
    reveal_strlit("scripts/");
    reveal_strlit("tables/");
    reveal_strlit("types/");
    reveal_strlit("order.json");
    assert("extensions/"@ =~= seq!['e', 'x', 't', 'e', 'n', 's', 'i', 'o', 'n', 's', '/']);
    assert("functions/"@ =~= seq!['f', 'u', 'n', 'c', 't', 'i', 'o', 'n', 's', '/']);
    assert("schemas/"@ =~= seq!['s', 'c', 'h', 'e', 'm', 'a', 's', '/']);
    assert("scripts/"@ =~= seq!['s', 'c', 'r', 'i', 'p', 't', 's', '/']);
    assert("tables/"@ =~= seq!['t', 'a', 'b', 'l', 'e', 's', '/']);
    assert("types/"@ =~= seq!['t', 'y', 'p', 'e', 's', '/']);
    assert("order.json"@ =~= seq!['o', 'r', 'd', 'e', 'r', '.', 'j', 's', 'o', 'n']);
}

/// A path that starts with one directory name does not start with another
/// that differs from it at the place `k`.
proof fn lemma_other_prefix(dir: Seq<char>, other: Seq<char>, rest: Seq<char>, k: int)
    requires
        0 <= k < dir.len(),
        k < other.len(),
        dir[k] != other[k],
    ensures
        !other.is_prefix_of(dir + rest),
{
    if other.is_prefix_of(dir + rest) {
        assert((dir + rest).subrange(0, other.len() as int)[k] == other[k]);
        assert((dir + rest)[k] == dir[k]);
    }
}

/// Every entry of the layout of a package is read back into the collection
/// that it was written for, whatever size its payload has, so long as it has
/// one; and the directories, which have none, are passed over.
pub proof fn lemma_layout_read_back(p: Package, k: int, size: u64)
    requires
        0 <= k < layout_spec(p).len(),
    ensures
        size > 0 && layout_spec(p)[k].content != EntryContent::Directory ==> entry_kind_spec(
            layout_spec(p)[k].path,
            size,
        ) == kind_of(layout_spec(p)[k].content),
        entry_kind_spec(layout_spec(p)[k].path, 0) == EntryKind::Ignored,
{
    lemma_directory_names();
    let e = layout_spec(p)[k];
    let tail = ".json"@;
    if size > 0 && e.content != EntryContent::Directory {
        let a = extension_entries(p.extensions@);
        let b = function_entries(p.functions@);
        let c = schema_entries(p.schemas@);
        let d = script_entries(p.scripts@);
        let f = table_entries(p.tables@);
        let g = type_entries(p.types@);
        if k < a.len() {
            let name = p.extensions@[k - 1].name@;
            assert(e.path == "extensions/"@ + name + tail);
            assert("extensions/"@.is_prefix_of(e.path)) by {
                assert(e.path.subrange(0, 11) =~= "extensions/"@);
            }
        } else if k < a.len() + b.len() {
            let name = p.functions@[k - a.len() - 1].name.text();
            assert(e.path == "functions/"@ + name + tail);
            assert(e.path =~= "functions/"@ + (name + tail));
            lemma_other_prefix("functions/"@, "extensions/"@, name + tail, 0);
            assert(e.path.subrange(0, 10) =~= "functions/"@);
        } else if k < a.len() + b.len() + c.len() {
            let name = p.schemas@[k - a.len() - b.len() - 1].name@;
            assert(e.path == "schemas/"@ + name + tail);
            assert(e.path =~= "schemas/"@ + (name + tail));
            lemma_other_prefix("schemas/"@, "extensions/"@, name + tail, 0);
            lemma_other_prefix("schemas/"@, "functions/"@, name + tail, 0);
            assert(e.path.subrange(0, 8) =~= "schemas/"@);
        } else if k < a.len() + b.len() + c.len() + d.len() {
            let name = p.scripts@[k - a.len() - b.len() - c.len() - 1].name@;
            assert(e.path == "scripts/"@ + name + tail);
            assert(e.path =~= "scripts/"@ + (name + tail));
            lemma_other_prefix("scripts/"@, "extensions/"@, name + tail, 0);
            lemma_other_prefix("scripts/"@, "functions/"@, name + tail, 0);
            lemma_other_prefix("scripts/"@, "schemas/"@, name + tail, 2);
            assert(e.path.subrange(0, 8) =~= "scripts/"@);
        } else if k < a.len() + b.len() + c.len() + d.len() + f.len() {
            let name = p.tables@[k - a.len() - b.len() - c.len() - d.len() - 1].name.text();
            assert(e.path == "tables/"@ + name + tail);
            assert(e.path =~= "tables/"@ + (name + tail));
            lemma_other_prefix("tables/"@, "extensions/"@, name + tail, 0);
            lemma_other_prefix("tables/"@, "functions/"@, name + tail, 0);
            lemma_other_prefix("tables/"@, "schemas/"@, name + tail, 0);
            lemma_other_prefix("tables/"@, "scripts/"@, name + tail, 0);
            assert(e.path.subrange(0, 7) =~= "tables/"@);
        } else if k < a.len() + b.len() + c.len() + d.len() + f.len() + g.len() {
            let name = p.types@[k - a.len() - b.len() - c.len() - d.len() - f.len() - 1].name.text();
            assert(e.path == "types/"@ + name + tail);
            assert(e.path =~= "types/"@ + (name + tail));
            lemma_other_prefix("types/"@, "extensions/"@, name + tail, 0);
            lemma_other_prefix("types/"@, "functions/"@, name + tail, 0);
            lemma_other_prefix("types/"@, "schemas/"@, name + tail, 0);
            lemma_other_prefix("types/"@, "scripts/"@, name + tail, 0);
            lemma_other_prefix("types/"@, "tables/"@, name + tail, 1);
            assert(e.path.subrange(0, 6) =~= "types/"@);
        } else {
            assert(e.path == "order.json"@);
            let none = Seq::<char>::empty();
            assert(e.path =~= "order.json"@ + none);
            lemma_other_prefix("order.json"@, "extensions/"@, none, 0);
            lemma_other_prefix("order.json"@, "functions/"@, none, 0);
            lemma_other_prefix("order.json"@, "schemas/"@, none, 0);
            lemma_other_prefix("order.json"@, "scripts/"@, none, 0);
            lemma_other_prefix("order.json"@, "tables/"@, none, 0);
            lemma_other_prefix("order.json"@, "types/"@, none, 0);
        }
    }
}

} // verus!

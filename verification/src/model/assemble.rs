//! The assembler: from the source files of a project to its package.

use vstd::prelude::*;
use vstd::string::StringExecFns;
use crate::ast::{
    ExtensionDefinition, FunctionDefinition, FunctionView, SchemaDefinition, ScriptDefinition,
    Statement, StatementView, TableDefinition, TableView, TypeDefinition, TypeDefinitionView,
};
use crate::errors::PsqlpackError;
use crate::graph::dependency::ids;
use crate::lexer::{lex, tokenize};
use crate::model::delta::order_error;
use crate::model::package::{
    is_normalized, lemma_normalized_names_full, names_full, names_sound, Package,
};
use crate::sql::sound::{
    constraint_view_sound, function_view_sound, lemma_lex_named, lemma_parse_sound, name_view_sound,
    statement_view_sound, statements_sound, table_view_sound, type_view_sound,
};
use crate::model::project::Project;
use crate::sql::statement::{
    parse_spec, parse_statement_list, report_all, statement_views, Outcome,
};
use crate::text::chars_of;

verus! {

/// A source file: its path and what it holds.
#[derive(Clone, Debug, PartialEq, Eq)]
pub struct SourceFile {
    pub path: String,
    pub contents: String,
}

/// The path names a file of SQL source: its last part is longer than
/// `.sql` and ends in it.
pub open spec fn is_sql_path(path: Seq<char>) -> bool {
    &&& path.len() > 4
    &&& path.subrange(path.len() - 4, path.len() as int) == ".sql"@
    &&& path[path.len() - 5] != '/'
}

/// Whether the path names a file of SQL source.
pub fn is_sql_file(path: &str) -> (r: bool)
    ensures
        r == is_sql_path(path@),
{
    let p = chars_of(path);
    let n = p.len();
    if n <= 4 {
        return false;
    }
    proof {
        reveal_strlit(".sql");
    }
    let ends = p[n - 4] == '.' && p[n - 3] == 's' && p[n - 2] == 'q' && p[n - 1] == 'l';
    proof {
        let tail = p@.subrange(n - 4, n as int);
        if ends {
            assert(tail =~= ".sql"@);
        } else {
            assert(tail[0] == p@[n - 4] && tail[1] == p@[n - 3] && tail[2] == p@[n - 2] && tail[3] == p@[n
                - 1]);
        }
    }
    ends && p[n - 5] != '/'
}

/// What the source text `s` holds: its statements if it can be split into
/// tokens, and the failures of the parser.
pub open spec fn source_outcome(s: Seq<char>) -> Outcome {
    match lex(s) {
        Ok(tokens) => parse_spec(tokens),
        Err(_) => Outcome { statements: Seq::empty(), failures: Seq::empty() },
    }
}

/// The source text cannot be split into tokens, or the parser fails on it.
pub open spec fn is_faulty(s: Seq<char>) -> bool {
    lex(s) is Err || source_outcome(s).failures.len() > 0
}

/// The error describes what is wrong with the file: where the lexer gave
/// up, or where the parser failed.
pub open spec fn describes(e: PsqlpackError, file: SourceFile) -> bool {
    match lex(file.contents@) {
        Err(fault) => {
            &&& e matches PsqlpackError::SyntaxError { file: path, line, line_number, start, end }
            &&& path@ == file.path@
            &&& line@ == fault.line
            &&& line_number == fault.line_number
            &&& start == fault.start
            &&& end == fault.end
        },
        Ok(tokens) => {
            &&& e matches PsqlpackError::ParseError(path, errors)
            &&& path@ == file.path@
            &&& errors.len() > 0
            &&& report_all(errors@, tokens, parse_spec(tokens).failures)
        },
    }
}

/// The files among `sources` that are faulty, in order.
pub open spec fn faulty_files(sources: Seq<SourceFile>) -> Seq<SourceFile>
    decreases sources.len(),
{
    if sources.len() == 0 {
        Seq::empty()
    } else if is_faulty(sources.last().contents@) {
        faulty_files(sources.drop_last()).push(sources.last())
    } else {
        faulty_files(sources.drop_last())
    }
}

/// The statements of all the files that are not faulty, in order.
pub open spec fn all_statements(sources: Seq<SourceFile>) -> Seq<StatementView>
    decreases sources.len(),
{
    if sources.len() == 0 {
        Seq::empty()
    } else if is_faulty(sources.last().contents@) {
        all_statements(sources.drop_last())
    } else {
        all_statements(sources.drop_last()) + source_outcome(sources.last().contents@).statements
    }
}

/// The errors describe the faulty files, one for one.
pub open spec fn describe_all(errors: Seq<PsqlpackError>, files: Seq<SourceFile>) -> bool {
    &&& errors.len() == files.len()
    &&& forall|k: int| 0 <= k < errors.len() ==> describes(#[trigger] errors[k], files[k])
}

/// Splits one source file into tokens and parses them.
pub fn parse_source(file: &SourceFile) -> (r: Result<Vec<Statement>, PsqlpackError>)
    ensures
        r is Ok <==> !is_faulty(file.contents@),
        r matches Ok(statements) ==> statement_views(statements@) == source_outcome(
            file.contents@,
        ).statements,
        r matches Err(e) ==> describes(e, *file),
{
    match tokenize(file.contents.as_str()) {
        Err(fault) => Err(
            PsqlpackError::SyntaxError {
                file: file.path.clone(),
                line: fault.line,
                line_number: fault.line_number,
                start: fault.start,
                end: fault.end,
            },
        ),
        Ok(tokens) => match parse_statement_list(&tokens) {
            Ok(statements) => Ok(statements),
            Err(errors) => Err(PsqlpackError::ParseError(file.path.clone(), errors)),
        },
    }
}

/// Parses all the source files. If any of them is faulty, the error holds
/// one error for each faulty file, in the order of the files.
pub fn parse_sources(sources: &Vec<SourceFile>) -> (r: Result<Vec<Statement>, PsqlpackError>)
    ensures
        r is Ok <==> faulty_files(sources@).len() == 0,
        r matches Ok(statements) ==> statement_views(statements@) == all_statements(sources@),
        r matches Err(e) ==> e matches PsqlpackError::MultipleErrors(errors) && describe_all(
            errors@,
            faulty_files(sources@),
        ),
{
    let mut statements: Vec<Statement> = Vec::new();
    let mut errors: Vec<PsqlpackError> = Vec::new();
    let mut i: usize = 0;
    assert(statement_views(statements@) =~= Seq::empty());
    while i < sources.len()
        invariant
            i <= sources.len(),
            statement_views(statements@) == all_statements(sources@.take(i as int)),
            describe_all(errors@, faulty_files(sources@.take(i as int))),
        decreases sources.len() - i,
    {
        let ghost before = statement_views(statements@);
        let ghost faults = faulty_files(sources@.take(i as int));
        proof {
            assert(sources@.take(i + 1).drop_last() =~= sources@.take(i as int));
            assert(sources@.take(i + 1).last() == sources@[i as int]);
        }
        match parse_source(&sources[i]) {
            Ok(mut parsed) => {
                let ghost added = statement_views(parsed@);
                statements.append(&mut parsed);
                proof {
                    assert(statement_views(statements@) =~= before + added);
                }
            },
            Err(e) => {
                errors.push(e);

            },
        }
        i += 1;
    }
    proof {
        assert(sources@.take(i as int) =~= sources@);
    }
    if errors.len() == 0 {
        Ok(statements)
    } else {
        Err(PsqlpackError::MultipleErrors(errors))
    }
}

/// The tables among the statements, in order.
pub open spec fn tables_in(statements: Seq<StatementView>) -> Seq<TableView>
    decreases statements.len(),
{
    if statements.len() == 0 {
        Seq::empty()
    } else {
        match statements.last() {
            StatementView::Table(t) => tables_in(statements.drop_last()).push(t),
            _ => tables_in(statements.drop_last()),
        }
    }
}

/// The functions among the statements, in order.
pub open spec fn functions_in(statements: Seq<StatementView>) -> Seq<FunctionView>
    decreases statements.len(),
{
    if statements.len() == 0 {
        Seq::empty()
    } else {
        match statements.last() {
            StatementView::Function(f) => functions_in(statements.drop_last()).push(f),
            _ => functions_in(statements.drop_last()),
        }
    }
}

/// The declared types among the statements, in order.
pub open spec fn types_in(statements: Seq<StatementView>) -> Seq<TypeDefinitionView>
    decreases statements.len(),
{
    if statements.len() == 0 {
        Seq::empty()
    } else {
        match statements.last() {
            StatementView::Type(t) => types_in(statements.drop_last()).push(t),
            _ => types_in(statements.drop_last()),
        }
    }
}

/// The names of the schemas among the statements, in order.
pub open spec fn schemas_in(statements: Seq<StatementView>) -> Seq<Seq<char>>
    decreases statements.len(),
{
    if statements.len() == 0 {
        Seq::empty()
    } else {
        match statements.last() {
            StatementView::Schema(n) => schemas_in(statements.drop_last()).push(n),
            _ => schemas_in(statements.drop_last()),
        }
    }
}

/// The names of the extensions among the statements, in order.
pub open spec fn extensions_in(statements: Seq<StatementView>) -> Seq<Seq<char>>
    decreases statements.len(),
{
    if statements.len() == 0 {
        Seq::empty()
    } else {
        match statements.last() {
            StatementView::Extension(n) => extensions_in(statements.drop_last()).push(n),
            _ => extensions_in(statements.drop_last()),
        }
    }
}

/// The scripts among the statements, in order.
pub open spec fn scripts_in(statements: Seq<StatementView>) -> Seq<crate::ast::ScriptView>
    decreases statements.len(),
{
    if statements.len() == 0 {
        Seq::empty()
    } else {
        match statements.last() {
            StatementView::Script(s) => scripts_in(statements.drop_last()).push(s),
            _ => scripts_in(statements.drop_last()),
        }
    }
}

/// The package holds the objects of the statements, each kind in the order
/// of the statements, and holds no order.
pub open spec fn holds(p: Package, statements: Seq<StatementView>) -> bool {
    &&& p.tables@.map_values(|t: TableDefinition| t@) == tables_in(statements)
    &&& p.functions@.map_values(|f: FunctionDefinition| f@) == functions_in(statements)
    &&& p.types@.map_values(|t: TypeDefinition| t@) == types_in(statements)
    &&& p.schemas@.map_values(|s: SchemaDefinition| s.name@) == schemas_in(statements)
    &&& p.extensions@.map_values(|e: ExtensionDefinition| e.name@) == extensions_in(statements)
    &&& p.scripts@.map_values(|s: ScriptDefinition| s@) == scripts_in(statements)
    &&& p.order is None
}

impl Package {
    /// Appends the object of the statement to the collection of its kind.
    pub fn push_statement(&mut self, statement: Statement)
        ensures
            final(self).order == old(self).order,
            match statement {
                Statement::Table(t) => *final(self) == (Package {
                    tables: final(self).tables,
                    ..*old(self)
                }) && final(self).tables@ == old(self).tables@.push(t),
                Statement::Function(f) => *final(self) == (Package {
                    functions: final(self).functions,
                    ..*old(self)
                }) && final(self).functions@ == old(self).functions@.push(f),
                Statement::Schema(s) => *final(self) == (Package {
                    schemas: final(self).schemas,
                    ..*old(self)
                }) && final(self).schemas@ == old(self).schemas@.push(s),
                Statement::Type(t) => *final(self) == (Package { types: final(self).types, ..*old(self) })
                    && final(self).types@ == old(self).types@.push(t),
                Statement::Extension(e) => *final(self) == (Package {
                    extensions: final(self).extensions,
                    ..*old(self)
                }) && final(self).extensions@ == old(self).extensions@.push(e),
                Statement::Script(s) => *final(self) == (Package {
                    scripts: final(self).scripts,
                    ..*old(self)
                }) && final(self).scripts@ == old(self).scripts@.push(s),
            },
    {
        match statement {
            Statement::Table(t) => self.push_table(t),
            Statement::Function(f) => self.push_function(f),
            Statement::Schema(s) => self.push_schema(s),
            Statement::Type(t) => self.push_type(t),
            Statement::Extension(e) => self.push_extension(e),
            Statement::Script(s) => self.push_script(s),
        }
    }

    /// The package that holds the objects of the statements.
    pub fn from_statements(statements: Vec<Statement>) -> (p: Package)
        ensures
            holds(p, statement_views(statements@)),
    {
        let mut p = Package::new();
        let ghost all = statements@;
        let ghost n = all.len();
        proof {
            assert(statement_views(all.take(0)) =~= Seq::empty());
            assert(p.tables@.map_values(|t: TableDefinition| t@) =~= Seq::empty());
            assert(p.functions@.map_values(|f: FunctionDefinition| f@) =~= Seq::empty());
            assert(p.types@.map_values(|t: TypeDefinition| t@) =~= Seq::empty());
            assert(p.schemas@.map_values(|s: SchemaDefinition| s.name@) =~= Seq::empty());
            assert(p.extensions@.map_values(|e: ExtensionDefinition| e.name@) =~= Seq::empty());
            assert(p.scripts@.map_values(|s: ScriptDefinition| s@) =~= Seq::empty());
        }
        for s in it: statements.into_iter()
            invariant
                n == all.len(),
                it.seq() == all,
                holds(p, statement_views(all.take(it.index@))),
        {
            let ghost i = it.index@;
            let ghost before = p;
            let ghost pushed = s;
            proof {
                assert(s == all[i]);
                assert(statement_views(all.take(i + 1)).drop_last() =~= statement_views(all.take(i)));
                assert(statement_views(all.take(i + 1)).last() == s@);
            }
            p.push_statement(s);
            proof {
                match pushed {
                    Statement::Table(t) => {
                        assert(p.tables@.map_values(|t: TableDefinition| t@) =~= before.tables@.map_values(
                            |t: TableDefinition| t@,
                        ).push(t@));
                    },
                    Statement::Function(f) => {
                        assert(p.functions@.map_values(|f: FunctionDefinition| f@)
                            =~= before.functions@.map_values(|f: FunctionDefinition| f@).push(f@));
                    },
                    Statement::Schema(x) => {
                        assert(p.schemas@.map_values(|s: SchemaDefinition| s.name@)
                            =~= before.schemas@.map_values(|s: SchemaDefinition| s.name@).push(x.name@));
                    },
                    Statement::Type(t) => {
                        assert(p.types@.map_values(|t: TypeDefinition| t@) =~= before.types@.map_values(
                            |t: TypeDefinition| t@,
                        ).push(t@));
                    },
                    Statement::Extension(e) => {
                        assert(p.extensions@.map_values(|e: ExtensionDefinition| e.name@)
                            =~= before.extensions@.map_values(|e: ExtensionDefinition| e.name@).push(
                            e.name@,
                        ));
                    },
                    Statement::Script(x) => {
                        assert(p.scripts@.map_values(|s: ScriptDefinition| s@)
                            =~= before.scripts@.map_values(|s: ScriptDefinition| s@).push(x@));
                    },
                }
            }
        }
        proof {
            assert(all.take(n as int) =~= all);
        }
        p
    }
}

/// The statements of source files are sound.
proof fn lemma_all_statements_sound(sources: Seq<SourceFile>)
    ensures
        statements_sound(all_statements(sources)),
    decreases sources.len(),
{
    if sources.len() > 0 {
        lemma_all_statements_sound(sources.drop_last());
        let before = all_statements(sources.drop_last());
        if !is_faulty(sources.last().contents@) {
            let tokens = lex(sources.last().contents@)->Ok_0;
            lemma_lex_named(sources.last().contents@);
            lemma_parse_sound(tokens);
            let added = source_outcome(sources.last().contents@).statements;
            assert forall|i: int| 0 <= i < (before + added).len() implies statement_view_sound(
                #[trigger] (before + added)[i],
            ) by {
                if i < before.len() {
                    assert((before + added)[i] == before[i]);
                } else {
                    assert((before + added)[i] == added[i - before.len()]);
                }
            }
        }
    }
}

/// The tables, functions and declared types among sound statements are
/// sound.
proof fn lemma_collected_sound(statements: Seq<StatementView>)
    requires
        statements_sound(statements),
    ensures
        forall|i: int| 0 <= i < tables_in(statements).len() ==> table_view_sound(#[trigger] tables_in(statements)[i]),
        forall|i: int|
            0 <= i < functions_in(statements).len() ==> function_view_sound(
                #[trigger] functions_in(statements)[i],
            ),
        forall|i: int|
            0 <= i < types_in(statements).len() ==> name_view_sound((#[trigger] types_in(statements)[i]).name),
    decreases statements.len(),
{
    if statements.len() > 0 {
        let rest = statements.drop_last();
        assert forall|i: int| 0 <= i < rest.len() implies statement_view_sound(#[trigger] rest[i]) by {
            assert(rest[i] == statements[i]);
        }
        lemma_collected_sound(rest);
        let last = statements.last();
        assert(statement_view_sound(last));
        assert forall|i: int| 0 <= i < tables_in(statements).len() implies table_view_sound(
            #[trigger] tables_in(statements)[i],
        ) by {
            if i < tables_in(rest).len() {
                assert(tables_in(statements)[i] == tables_in(rest)[i]);
            }
        }
        assert forall|i: int| 0 <= i < functions_in(statements).len() implies function_view_sound(
            #[trigger] functions_in(statements)[i],
        ) by {
            if i < functions_in(rest).len() {
                assert(functions_in(statements)[i] == functions_in(rest)[i]);
            }
        }
        assert forall|i: int| 0 <= i < types_in(statements).len() implies name_view_sound(
            (#[trigger] types_in(statements)[i]).name,
        ) by {
            if i < types_in(rest).len() {
                assert(types_in(statements)[i] == types_in(rest)[i]);
            }
        }
    }
}

/// A package that holds sound statements has sound names.
proof fn lemma_held_sound(p: Package, statements: Seq<StatementView>)
    requires
        holds(p, statements),
        statements_sound(statements),
    ensures
        names_sound(p),
{
    lemma_collected_sound(statements);
    let tables = p.tables@.map_values(|t: TableDefinition| t@);
    let functions = p.functions@.map_values(|f: FunctionDefinition| f@);
    let types = p.types@.map_values(|t: TypeDefinition| t@);
    assert forall|i: int| 0 <= i < p.tables.len() implies crate::model::normalize::name_sound(
        (#[trigger] p.tables[i]).name,
    ) by {
        assert(tables[i] == p.tables[i]@);
        assert(table_view_sound(tables[i]));
    }
    assert forall|i: int, j: int|
        0 <= i < p.tables.len() && 0 <= j < p.tables[i].columns.len() implies crate::model::normalize::type_sound(
        (#[trigger] p.tables[i].columns[j]).sql_type,
    ) by {
        assert(tables[i] == p.tables[i]@);
        assert(table_view_sound(tables[i]));
        assert(tables[i].columns[j] == p.tables[i].columns[j]@);
        assert(type_view_sound(tables[i].columns[j].sql_type));
    }
    assert forall|i: int, j: int|
        0 <= i < p.tables.len() && 0 <= j < p.tables[i].constraints.len() implies (
    #[trigger] p.tables[i].constraints[j] matches crate::ast::TableConstraint::Foreign { ref_table, .. }
        ==> crate::model::normalize::name_sound(ref_table)) by {
        assert(tables[i] == p.tables[i]@);
        assert(table_view_sound(tables[i]));
        assert(tables[i].constraints[j] == p.tables[i].constraints[j]@);
        assert(constraint_view_sound(tables[i].constraints[j]));
    }
    assert forall|i: int| 0 <= i < p.functions.len() implies crate::model::normalize::name_sound(
        (#[trigger] p.functions[i]).name,
    ) by {
        assert(functions[i] == p.functions[i]@);
        assert(function_view_sound(functions[i]));
    }
    assert forall|i: int| 0 <= i < p.functions.len() implies crate::model::normalize::type_sound(
        (#[trigger] p.functions[i]).return_type,
    ) by {
        assert(functions[i] == p.functions[i]@);
        assert(function_view_sound(functions[i]));
    }
    assert forall|i: int, j: int|
        0 <= i < p.functions.len() && 0 <= j < p.functions[i].arguments.len() implies crate::model::normalize::type_sound(
        (#[trigger] p.functions[i].arguments[j]).sql_type,
    ) by {
        assert(functions[i] == p.functions[i]@);
        assert(function_view_sound(functions[i]));
        assert(functions[i].arguments[j] == p.functions[i].arguments[j]@);
        assert(type_view_sound(functions[i].arguments[j].sql_type));
    }
    assert forall|i: int| 0 <= i < p.types.len() implies crate::model::normalize::name_sound(
        (#[trigger] p.types[i]).name,
    ) by {
        assert(types[i] == p.types[i]@);
        assert(name_view_sound(types[i].name));
    }
}

/// `p` is what the assembler makes of the sources and the scripts before it
/// orders it: the package that holds the statements of the sources, with
/// the scripts behind those of the sources, normalized with the default
/// schema of the project.
pub open spec fn is_assembly(project: Project, sources: Seq<SourceFile>, scripts: Seq<ScriptDefinition>, p: Package) -> bool {
    exists|parsed: Package, raw: Package|
        {
            &&& #[trigger] holds(parsed, all_statements(sources))
            &&& raw.scripts@ == parsed.scripts@ + scripts
            &&& raw == (Package { scripts: raw.scripts, ..parsed })
            &&& #[trigger] is_normalized(raw, p, project.default_schema)
        }
}

impl Project {
    /// Assembles the package of the project: parses the sources, collects
    /// their statements, attaches the scripts, normalizes the names, and
    /// computes the build order. Fails if the default schema of the project
    /// is the empty text; else with the errors of all the faulty files
    /// together if there are any; else with the error of the graph if that
    /// is not valid. In the package that it gives, every name has a schema
    /// that is not the empty text.
    pub fn assemble(&self, sources: &Vec<SourceFile>, scripts: Vec<ScriptDefinition>) -> (r: Result<
        Package,
        PsqlpackError,
    >)
        ensures
            match r {
                Ok(p) => {
                    &&& self.default_schema@.len() > 0
                    &&& faulty_files(sources@).len() == 0
                    &&& is_assembly(*self, sources@, scripts@, (Package { order: None, ..p }))
                    &&& p.is_qualified()
                    &&& names_full(p)
                    &&& p.graph().valid()
                    &&& p.order matches Some(order)
                    &&& p.graph().is_build_order(ids(order@))
                    &&& p.graph().is_total(ids(order@))
                    &&& p.graph().respects_edges(ids(order@))
                },
                Err(e) => if self.default_schema@.len() == 0 {
                    e matches PsqlpackError::ProjectError(m) && m@ == "Missing default_schema"@
                } else if faulty_files(sources@).len() > 0 {
                    e matches PsqlpackError::MultipleErrors(errors) && describe_all(
                        errors@,
                        faulty_files(sources@),
                    )
                } else {
                    exists|p: Package|
                        {
                            &&& #[trigger] is_assembly(*self, sources@, scripts@, p)
                            &&& !p.graph().valid()
                            &&& e matches PsqlpackError::GenerationError(m)
                            &&& m@ == order_error(p)
                        }
                },
            },
    {
        if chars_of(self.default_schema.as_str()).len() == 0 {
            return Err(PsqlpackError::ProjectError(String::from_str("Missing default_schema")));
        }
        let statements = match parse_sources(sources) {
            Err(e) => {
                return Err(e);
            },
            Ok(s) => s,
        };
        let mut package = Package::from_statements(statements);
        let ghost parsed = package;
        let ghost given = scripts@;
        let mut attached = scripts;
        package.scripts.append(&mut attached);
        let ghost raw = package;
        package.set_defaults(self);
        let ghost normal = package;
        proof {
            assert(holds(parsed, all_statements(sources@)));
            assert(is_normalized(raw, normal, self.default_schema));
            assert(is_assembly(*self, sources@, given, normal));
            lemma_all_statements_sound(sources@);
            lemma_held_sound(parsed, all_statements(sources@));
            assert(names_sound(raw));
            lemma_normalized_names_full(raw, normal, self.default_schema);
        }
        match package.generate_dependency_graph() {
            Err(e) => Err(e),
            Ok(_) => {
                proof {
                    assert((Package { order: None, ..package }) == normal);
                    assert(package.graph() == normal.graph());
                }
                Ok(package)
            },
        }
    }
}

} // verus!

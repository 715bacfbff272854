//! The errors of the pipeline.

use vstd::prelude::*;
use vstd::string::StringExecFns;
use crate::lexer::{token_text, Token};
use crate::text::{decimal, join, join_spec, push_decimal, push_repeated, repeated, views};

verus! {

/// What the parser found wrong at one place of a token stream.
#[derive(Clone, Debug, PartialEq, Eq)]
pub enum ParseError {
    /// A token that no rule accepts, with its position.
    InvalidToken { location: usize },
    /// A token that cannot stand where it does, or the end of the input where
    /// a token had to follow; with the tokens that could have followed.
    UnrecognizedToken { token: Option<Token>, expected: Vec<String> },
    /// A token after the end of what the grammar accepts.
    ExtraToken { token: Token },
    /// An error that an action of the grammar raised.
    User { error: String },
}

/// The kinds of error, each with what it is about.
#[derive(Debug, PartialEq, Eq)]
pub enum PsqlpackError {
    ProjectReadError(String),
    ProjectParseError(String),
    InvalidScriptPath(String),
    PublishProfileReadError(String),
    PublishProfileParseError(String),
    PackageReadError(String),
    PackageUnarchiveError(String),
    PackageInternalReadError(String),
    PackageQueryExtensionsError,
    PackageQuerySchemasError,
    PackageQueryTypesError,
    PackageQueryFunctionsError,
    PackageQueryTablesError,
    PackageFunctionArgsInspectError(String),
    PackageFunctionReturnTypeInspectError(String),
    IOError(String, String),
    LexicalError { line: String, line_number: usize, start: usize, end: usize },
    SyntaxError { file: String, line: String, line_number: usize, start: usize, end: usize },
    ParseError(String, Vec<ParseError>),
    InlineParseError(ParseError),
    GenerationError(String),
    FormatError(String, String),
    DatabaseError(String),
    DatabaseExecuteError(String),
    DatabaseConnectionFinishError,
    ProjectError(String),
    MultipleErrors(Vec<PsqlpackError>),
}

/// What a parse error says.
pub open spec fn parse_error_text(e: ParseError) -> Seq<char> {
    match e {
        ParseError::InvalidToken { .. } => "Invalid token"@,
        ParseError::UnrecognizedToken { token, expected } => (match token {
            Some(t) => "Unexpected "@ + token_text(t.kind, t.text@) + "\n"@,
            None => "Unexpected end of file\n"@,
        }) + "   Expected one of:\n   "@ + join_spec(views(expected@), ", "@),
        ParseError::ExtraToken { token } => "Extra token detected: "@ + token_text(token.kind, token.text@),
        ParseError::User { error } => error@,
    }
}

/// What a list of parse errors says: each with its number, counted from 0,
/// before it.
pub open spec fn parse_errors_text(errors: Seq<ParseError>) -> Seq<char>
    decreases errors.len(),
{
    if errors.len() == 0 {
        Seq::empty()
    } else {
        parse_errors_text(errors.drop_last()) + decimal((errors.len() - 1) as nat) + ": "@ + parse_error_text(
            errors.last(),
        )
    }
}

/// The line `line` and under it carets from the column `start` up to the
/// column `end`.
pub open spec fn underlined(line: Seq<char>, start: usize, end: usize) -> Seq<char> {
    "  "@ + line + "\n  "@ + repeated(' ', start as nat) + repeated(
        '^',
        if end >= start {
            (end - start) as nat
        } else {
            0
        },
    )
}

/// Appends what the parse error says.
pub fn write_err(f: &mut String, error: &ParseError)
    ensures
        final(f)@ == old(f)@ + parse_error_text(*error),
{
    match error {
        ParseError::InvalidToken { .. } => {
            f.append("Invalid token");
        },
        ParseError::UnrecognizedToken { token, expected } => {
            match token {
                Some(t) => {
                    f.append("Unexpected ");
                    let described = t.describe();
                    f.append(described.as_str());
                    f.append("\n");
                },
                None => {
                    f.append("Unexpected end of file\n");
                },
            }
            f.append("   Expected one of:\n   ");
            let listed = join(expected, ", ");
            f.append(listed.as_str());
            proof {
                assert(f@ =~= old(f)@ + parse_error_text(*error));
            }
        },
        ParseError::ExtraToken { token } => {
            f.append("Extra token detected: ");
            let described = token.describe();
            f.append(described.as_str());
            proof {
                assert(f@ =~= old(f)@ + parse_error_text(*error));
            }
        },
        ParseError::User { error } => {
            f.append(error.as_str());
        },
    }
}

/// Appends what the list of parse errors says.
pub fn write_errs(f: &mut String, errors: &Vec<ParseError>)
    ensures
        final(f)@ == old(f)@ + parse_errors_text(errors@),
{
    let mut i: usize = 0;
    assert(f@ =~= old(f)@ + parse_errors_text(errors@.take(0)));
    while i < errors.len()
        invariant
            i <= errors.len(),
            f@ == old(f)@ + parse_errors_text(errors@.take(i as int)),
        decreases errors.len() - i,
    {
        let ghost before = f@;
        push_decimal(f, i);
        f.append(": ");
        write_err(f, &errors[i]);
        proof {
            assert(errors@.take(i + 1).drop_last() =~= errors@.take(i as int));
            assert(f@ =~= old(f)@ + parse_errors_text(errors@.take(i + 1)));
        }
        i += 1;
    }
    proof {
        assert(errors@.take(i as int) =~= errors@);
    }
}

/// Appends the line `line` and under it carets from the column `start` up
/// to the column `end`.
pub fn write_underlined(f: &mut String, line: &String, start: usize, end: usize)
    ensures
        final(f)@ == old(f)@ + underlined(line@, start, end),
{
    f.append("  ");
    f.append(line.as_str());
    f.append("\n  ");
    push_repeated(f, ' ', start);
    push_repeated(
        f,
        '^',
        if end >= start {
            end - start
        } else {
            0
        },
    );
    proof {
        assert(f@ =~= old(f)@ + underlined(line@, start, end));
    }
}

impl PsqlpackError {
    /// What the error says.
    pub open spec fn text(&self) -> Seq<char>
        decreases self,
    {
        match self {
            PsqlpackError::ProjectReadError(path) => "Couldn't read project file: "@ + path@,
            PsqlpackError::ProjectParseError(path) => "Couldn't parse project file: "@ + path@,
            PsqlpackError::InvalidScriptPath(path) => "Invalid script path in project file: "@ + path@,
            PsqlpackError::PublishProfileReadError(path) => "Couldn't read publish profile file: "@
                + path@,
            PsqlpackError::PublishProfileParseError(path) => "Couldn't parse publish profile file: "@
                + path@,
            PsqlpackError::PackageReadError(path) => "Couldn't read package file: "@ + path@,
            PsqlpackError::PackageUnarchiveError(path) => "Couldn't unarchive package file: "@ + path@,
            PsqlpackError::PackageInternalReadError(name) => "Couldn't read part of the package file: "@
                + name@,
            PsqlpackError::PackageQueryExtensionsError => "Couldn't query extensions"@,
            PsqlpackError::PackageQuerySchemasError => "Couldn't query schemas"@,
            PsqlpackError::PackageQueryTypesError => "Couldn't query types"@,
            PsqlpackError::PackageQueryFunctionsError => "Couldn't query functions"@,
            PsqlpackError::PackageQueryTablesError => "Couldn't query tables"@,
            PsqlpackError::PackageFunctionArgsInspectError(args) => "Couldn't inspect function args: "@
                + args@,
            PsqlpackError::PackageFunctionReturnTypeInspectError(t) => "Couldn't inspect function return type: "@
                + t@,
            PsqlpackError::IOError(file, message) => "IO error when reading "@ + file@ + ": "@ + message@,
            PsqlpackError::LexicalError { line, line_number, start, end } => "Lexical error encountered on line "@
                + decimal(*line_number as nat) + ":\n"@ + underlined(line@, *start, *end),
            PsqlpackError::SyntaxError { file, line, line_number, start, end } => "SQL syntax error encountered in "@
                + file@ + " on line "@ + decimal(*line_number as nat) + ":\n"@ + underlined(
                line@,
                *start,
                *end,
            ),
            PsqlpackError::ParseError(file, errors) => "Parser errors in "@ + file@ + ":\n"@
                + parse_errors_text(errors@),
            PsqlpackError::InlineParseError(error) => "Parser error: "@ + parse_error_text(*error),
            PsqlpackError::GenerationError(message) => "Error generating package: "@ + message@,
            PsqlpackError::FormatError(file, message) => "Format error when reading "@ + file@ + ": "@
                + message@,
            PsqlpackError::DatabaseError(message) => "Database error: "@ + message@,
            PsqlpackError::DatabaseExecuteError(query) => "Database error executing: "@ + query@,
            PsqlpackError::DatabaseConnectionFinishError => "Database connection couldn't finish"@,
            PsqlpackError::ProjectError(message) => "Project format error: "@ + message@,
            PsqlpackError::MultipleErrors(errors) => "Multiple errors:\n"@ + Self::texts(
                *errors,
                errors.len() as nat,
            ),
        }
    }

    /// What the first `n` of a list of errors say: each under a line with
    /// its number, counted from 0.
    pub open spec fn texts(errors: Vec<PsqlpackError>, n: nat) -> Seq<char>
        decreases errors, n,
    {
        if n == 0 || n > errors.len() {
            Seq::empty()
        } else {
            Self::texts(errors, (n - 1) as nat) + "--- Error "@ + decimal((n - 1) as nat) + " ---\n"@
                + errors[n - 1].text()
        }
    }

    /// Appends what the error says.
    pub fn write(&self, f: &mut String)
        ensures
            final(f)@ == old(f)@ + self.text(),
        decreases self,
    {
        match self {
            PsqlpackError::ProjectReadError(path) => {
                f.append("Couldn't read project file: ");
                f.append(path.as_str());
            },
            PsqlpackError::ProjectParseError(path) => {
                f.append("Couldn't parse project file: ");
                f.append(path.as_str());
            },
            PsqlpackError::InvalidScriptPath(path) => {
                f.append("Invalid script path in project file: ");
                f.append(path.as_str());
            },
            PsqlpackError::PublishProfileReadError(path) => {
                f.append("Couldn't read publish profile file: ");
                f.append(path.as_str());
            },
            PsqlpackError::PublishProfileParseError(path) => {
                f.append("Couldn't parse publish profile file: ");
                f.append(path.as_str());
            },
            PsqlpackError::PackageReadError(path) => {
                f.append("Couldn't read package file: ");
                f.append(path.as_str());
            },
            PsqlpackError::PackageUnarchiveError(path) => {
                f.append("Couldn't unarchive package file: ");
                f.append(path.as_str());
            },
            PsqlpackError::PackageInternalReadError(name) => {
                f.append("Couldn't read part of the package file: ");
                f.append(name.as_str());
            },
            PsqlpackError::PackageQueryExtensionsError => {
                f.append("Couldn't query extensions");
            },
            PsqlpackError::PackageQuerySchemasError => {
                f.append("Couldn't query schemas");
            },
            PsqlpackError::PackageQueryTypesError => {
                f.append("Couldn't query types");
            },
            PsqlpackError::PackageQueryFunctionsError => {
                f.append("Couldn't query functions");
            },
            PsqlpackError::PackageQueryTablesError => {
                f.append("Couldn't query tables");
            },
            PsqlpackError::PackageFunctionArgsInspectError(args) => {
                f.append("Couldn't inspect function args: ");
                f.append(args.as_str());
            },
            PsqlpackError::PackageFunctionReturnTypeInspectError(t) => {
                f.append("Couldn't inspect function return type: ");
                f.append(t.as_str());
            },
            PsqlpackError::IOError(file, message) => {
                f.append("IO error when reading ");
                f.append(file.as_str());
                f.append(": ");
                f.append(message.as_str());
                proof {
                    assert(f@ =~= old(f)@ + self.text());
                }
            },
            PsqlpackError::LexicalError { line, line_number, start, end } => {
                f.append("Lexical error encountered on line ");
                push_decimal(f, *line_number);
                f.append(":\n");
                write_underlined(f, line, *start, *end);
                proof {
                    assert(f@ =~= old(f)@ + self.text());
                }
            },
            PsqlpackError::SyntaxError { file, line, line_number, start, end } => {
                f.append("SQL syntax error encountered in ");
                f.append(file.as_str());
                f.append(" on line ");
                push_decimal(f, *line_number);
                f.append(":\n");
                write_underlined(f, line, *start, *end);
                proof {
                    assert(f@ =~= old(f)@ + self.text());
                }
            },
            PsqlpackError::ParseError(file, errors) => {
                f.append("Parser errors in ");
                f.append(file.as_str());
                f.append(":\n");
                write_errs(f, errors);
                proof {
                    assert(f@ =~= old(f)@ + self.text());
                }
            },
            PsqlpackError::InlineParseError(error) => {
                f.append("Parser error: ");
                write_err(f, error);
                proof {
                    assert(f@ =~= old(f)@ + self.text());
                }
            },
            PsqlpackError::GenerationError(message) => {
                f.append("Error generating package: ");
                f.append(message.as_str());
            },
            PsqlpackError::FormatError(file, message) => {
                f.append("Format error when reading ");
                f.append(file.as_str());
                f.append(": ");
                f.append(message.as_str());
                proof {
                    assert(f@ =~= old(f)@ + self.text());
                }
            },
            PsqlpackError::DatabaseError(message) => {
                f.append("Database error: ");
                f.append(message.as_str());
            },
            PsqlpackError::DatabaseExecuteError(query) => {
                f.append("Database error executing: ");
                f.append(query.as_str());
            },
            PsqlpackError::DatabaseConnectionFinishError => {
                f.append("Database connection couldn't finish");
            },
            PsqlpackError::ProjectError(message) => {
                f.append("Project format error: ");
                f.append(message.as_str());
            },
            PsqlpackError::MultipleErrors(errors) => {
                f.append("Multiple errors:\n");
                let ghost head = f@;
                let mut i: usize = 0;
                assert(f@ =~= head + Self::texts(*errors, 0));
                while i < errors.len()
                    invariant
                        i <= errors.len(),
                        *self == PsqlpackError::MultipleErrors(*errors),
                        head == old(f)@ + "Multiple errors:\n"@,
                        f@ == head + Self::texts(*errors, i as nat),
                    decreases errors.len() - i,
                {
                    f.append("--- Error ");
                    push_decimal(f, i);
                    f.append(" ---\n");
                    proof {
                        vstd::std_specs::vec::axiom_vec_index_decreases(*errors, i as int);
                        assert(*errors == self->MultipleErrors_0);
                        assert(decreases_to!(*self => self->MultipleErrors_0));
                    }
                    errors[i].write(f);
                    proof {
                        assert(f@ =~= head + Self::texts(*errors, (i + 1) as nat));
                    }
                    i += 1;
                }
                proof {
                    assert(f@ =~= old(f)@ + self.text());
                }
            },
        }
    }

    /// What the error says.
    pub fn message(&self) -> (s: String)
        ensures
            s@ == self.text(),
    {
        let mut s = String::new();
        self.write(&mut s);
        proof {
            assert(Seq::<char>::empty() + self.text() =~= self.text());
        }
        s
    }
}

} // verus!

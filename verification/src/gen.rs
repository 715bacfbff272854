//! The connection string of a publication, and the errors of the command
//! line with what each prints.

use vstd::prelude::*;
use vstd::string::StringExecFns;
use crate::errors::{ParseError, PsqlpackError};
use crate::lexer::token_text;
use crate::text::{
    char_views, chars_eq, chars_eq_ignore_case, chars_of, eq_ignore_case, join, join_spec,
    push_chars, push_repeated, push_signed, repeated, signed_decimal, split, split_spec, trim_spec,
    trimmed, views,
};

verus! {

/// An error as the command line reports it.
#[derive(Clone, Debug, PartialEq, Eq)]
pub enum DacpacError {
    IOError { file: String, message: String },
    SyntaxError { file: String, line: String, line_number: i32, start_pos: i32, end_pos: i32 },
    ParseError { file: String, errors: Vec<ParseError> },
    GenerationError { message: String },
    FormatError { file: String, message: String },
    InvalidConnectionString { message: String },
    DatabaseError { message: String },
}

/// What is printed for one parse error.
pub open spec fn parse_error_lines(e: ParseError) -> Seq<char> {
    match e {
        ParseError::InvalidToken { .. } => "  Invalid token\n"@,
        ParseError::UnrecognizedToken { token, expected } => (match token {
            Some(t) => "  Unexpected "@ + token_text(t.kind, t.text@) + ".\n"@,
            None => "  Unexpected end of file\n"@,
        }) + "  Expected one of: "@ + join_spec(views(expected@), ", "@) + "\n"@,
        ParseError::ExtraToken { token } => "  Extra token detectd: "@ + token_text(token.kind, token.text@)
            + "\n"@,
        ParseError::User { error } => "  "@ + error@ + "\n"@,
    }
}

/// What is printed for a list of parse errors.
pub open spec fn parse_errors_lines(errors: Seq<ParseError>) -> Seq<char>
    decreases errors.len(),
{
    if errors.len() == 0 {
        Seq::empty()
    } else {
        parse_errors_lines(errors.drop_last()) + parse_error_lines(errors.last())
    }
}

/// The number of times that a loop from `from` up to `to` runs.
pub open spec fn span(from: int, to: int) -> nat {
    if to > from {
        (to - from) as nat
    } else {
        0
    }
}

impl DacpacError {
    /// What is printed for the error.
    pub open spec fn text(&self) -> Seq<char> {
        match self {
            DacpacError::IOError { file, message } => "IO Error when reading "@ + file@ + "\n  "@
                + message@ + "\n\n"@,
            DacpacError::FormatError { file, message } => "Formatting Error when reading "@ + file@
                + "\n  "@ + message@ + "\n\n"@,
            DacpacError::InvalidConnectionString { message } => "Invalid connection string\n  "@
                + message@ + "\n\n"@,
            DacpacError::SyntaxError { file, line, line_number, start_pos, end_pos } => "Syntax error in "@
                + file@ + " on line "@ + signed_decimal(*line_number as int) + "\n  "@ + line@
                + "\n  "@ + repeated(' ', span(0, *start_pos as int)) + repeated(
                '^',
                span(*start_pos as int, *end_pos as int),
            ) + "\n"@,
            DacpacError::ParseError { file, errors } => "Error in "@ + file@ + "\n"@
                + parse_errors_lines(errors@) + "\n"@,
            DacpacError::GenerationError { message } => "Error generating DACPAC\n  "@ + message@
                + "\n\n"@,
            DacpacError::DatabaseError { message } => "Database error:\n  "@ + message@ + "\n\n"@,
        }
    }

    /// What is printed for the error.
    pub fn render(&self) -> (s: String)
        ensures
            s@ == self.text(),
    {
        let mut s = String::new();
        match self {
            DacpacError::IOError { file, message } => {
                s.append("IO Error when reading ");
                s.append(file.as_str());
                s.append("\n  ");
                s.append(message.as_str());
                s.append("\n\n");
            },
            DacpacError::FormatError { file, message } => {
                s.append("Formatting Error when reading ");
                s.append(file.as_str());
                s.append("\n  ");
                s.append(message.as_str());
                s.append("\n\n");
            },
            DacpacError::InvalidConnectionString { message } => {
                s.append("Invalid connection string\n  ");
                s.append(message.as_str());
                s.append("\n\n");
            },
            DacpacError::SyntaxError { file, line, line_number, start_pos, end_pos } => {
                s.append("Syntax error in ");
                s.append(file.as_str());
                s.append(" on line ");
                push_signed(&mut s, *line_number);
                s.append("\n  ");
                s.append(line.as_str());
                s.append("\n  ");
                let spaces: usize = if *start_pos > 0 {
                    *start_pos as usize
                } else {
                    0
                };
                push_repeated(&mut s, ' ', spaces);
                let carets: usize = if *end_pos > *start_pos {
                    (*end_pos as i64 - *start_pos as i64) as usize
                } else {
                    0
                };
                push_repeated(&mut s, '^', carets);
                s.append("\n");
            },
            DacpacError::ParseError { file, errors } => {
                s.append("Error in ");
                s.append(file.as_str());
                s.append("\n");
                let ghost head = s@;
                let mut i: usize = 0;
                assert(s@ =~= head + parse_errors_lines(errors@.take(0)));
                while i < errors.len()
                    invariant
                        i <= errors.len(),
                        s@ == head + parse_errors_lines(errors@.take(i as int)),
                    decreases errors.len() - i,
                {
                    let ghost before = s@;
                    match &errors[i] {
                        ParseError::InvalidToken { .. } => {
                            s.append("  Invalid token\n");
                        },
                        ParseError::UnrecognizedToken { token, expected } => {
                            match token {
                                Some(t) => {
                                    s.append("  Unexpected ");
                                    let described = t.describe();
                                    s.append(described.as_str());
                                    s.append(".\n");
                                },
                                None => {
                                    s.append("  Unexpected end of file\n");
                                },
                            }
                            s.append("  Expected one of: ");
                            let listed = join(expected, ", ");
                            s.append(listed.as_str());
                            s.append("\n");
                        },
                        ParseError::ExtraToken { token } => {
                            s.append("  Extra token detectd: ");
                            let described = token.describe();
                            s.append(described.as_str());
                            s.append("\n");
                        },
                        ParseError::User { error } => {
                            s.append("  ");
                            s.append(error.as_str());
                            s.append("\n");
                        },
                    }
                    proof {
                        assert(s@ =~= before + parse_error_lines(errors@[i as int]));
                        assert(errors@.take(i + 1).drop_last() =~= errors@.take(i as int));
                        assert(s@ =~= head + parse_errors_lines(errors@.take(i + 1)));
                    }
                    i += 1;
                }
                proof {
                    assert(errors@.take(i as int) =~= errors@);
                }
                s.append("\n");
            },
            DacpacError::GenerationError { message } => {
                s.append("Error generating DACPAC\n  ");
                s.append(message.as_str());
                s.append("\n\n");
            },
            DacpacError::DatabaseError { message } => {
                s.append("Database error:\n  ");
                s.append(message.as_str());
                s.append("\n\n");
            },
        }
        proof {
            assert(s@ =~= self.text());
        }
        s
    }
}

/// What a connection string says of a connection.
#[derive(Clone, Debug, PartialEq, Eq)]
pub struct ConnectionString {
    pub database: Option<String>,
    pub host: Option<String>,
    pub user: Option<String>,
    pub password: Option<String>,
    pub tls_mode: bool,
}

/// A connection string as contracts see it.
pub struct ConnectionView {
    pub database: Option<Seq<char>>,
    pub host: Option<Seq<char>>,
    pub user: Option<Seq<char>>,
    pub password: Option<Seq<char>>,
    pub tls_mode: bool,
}

/// The view of a text that may be absent.
pub open spec fn text_view(s: Option<String>) -> Option<Seq<char>> {
    match s {
        Some(t) => Some(t@),
        None => None,
    }
}

impl View for ConnectionString {
    type V = ConnectionView;

    open spec fn view(&self) -> ConnectionView {
        ConnectionView {
            database: text_view(self.database),
            host: text_view(self.host),
            user: text_view(self.user),
            password: text_view(self.password),
            tls_mode: self.tls_mode,
        }
    }
}

impl ConnectionView {
    /// A connection of which nothing is known.
    pub open spec fn empty() -> ConnectionView {
        ConnectionView { database: None, host: None, user: None, password: None, tls_mode: false }
    }

    /// The connection after the setting `key` was given the value `value`.
    /// A key that is not known changes nothing.
    pub open spec fn set(self, key: Seq<char>, value: Seq<char>) -> ConnectionView {
        if key == "host"@ {
            ConnectionView { host: Some(value), ..self }
        } else if key == "database"@ {
            ConnectionView { database: Some(value), ..self }
        } else if key == "userid"@ {
            ConnectionView { user: Some(value), ..self }
        } else if key == "password"@ {
            ConnectionView { password: Some(value), ..self }
        } else if key == "tlsmode"@ {
            ConnectionView { tls_mode: eq_ignore_case(value, "true"@), ..self }
        } else {
            self
        }
    }

    /// What is wrong with the connection, in the order in which it is
    /// reported.
    pub open spec fn faults(self) -> Seq<Seq<char>> {
        (if self.database is None {
            seq!["No database defined"@]
        } else {
            Seq::empty()
        }) + (if self.host is None {
            seq!["No host defined"@]
        } else {
            Seq::empty()
        }) + (if self.user is None {
            seq!["No user defined"@]
        } else {
            Seq::empty()
        }) + (if self.tls_mode {
            seq!["TLS not supported"@]
        } else {
            Seq::empty()
        })
    }

    /// The address of the connection.
    pub open spec fn uri(self) -> Seq<char> {
        "postgres://"@ + self.user->0 + (match self.password {
            Some(p) => ":"@ + p,
            None => Seq::empty(),
        }) + "@"@ + self.host->0 + "/"@ + self.database->0
    }
}

/// The messages of a list of errors that are all about a connection
/// string.
pub open spec fn connection_faults(errors: Seq<DacpacError>) -> Seq<Seq<char>> {
    errors.map_values(
        |e: DacpacError|
            match e {
                DacpacError::InvalidConnectionString { message } => message@,
                _ => Seq::empty(),
            },
    )
}

/// Every error of the list is about a connection string.
pub open spec fn all_connection_faults(errors: Seq<DacpacError>) -> bool {
    forall|i: int| 0 <= i < errors.len() ==> #[trigger] errors[i] is InvalidConnectionString
}

/// The connection after the sections from `i` on were read, starting from
/// `c`; none if one of them is not well formed. A section of white space
/// says nothing; any other must be a key, an equals sign and a value.
pub open spec fn read_sections(sections: Seq<Seq<char>>, i: int, c: ConnectionView) -> Option<
    ConnectionView,
>
    decreases sections.len() - i,
{
    if i < 0 || i >= sections.len() {
        Some(c)
    } else if trim_spec(sections[i]).len() == 0 {
        read_sections(sections, i + 1, c)
    } else {
        let parts = split_spec(sections[i], '=');
        if parts.len() != 2 {
            None
        } else {
            read_sections(sections, i + 1, c.set(parts[0], parts[1]))
        }
    }
}

/// What a connection string says, section by section between semicolons;
/// none if a section is not well formed.
pub open spec fn read_connection(s: Seq<char>) -> Option<ConnectionView> {
    read_sections(split_spec(s, ';'), 0, ConnectionView::empty())
}

/// A string of the given characters.
fn string_of(chars: &Vec<char>) -> (s: String)
    ensures
        s@ == chars@,
{
    let mut s = String::new();
    push_chars(&mut s, chars);
    assert(Seq::<char>::empty() + chars@ =~= chars@);
    s
}

impl ConnectionString {
    /// A connection of which nothing is known.
    pub fn new() -> (c: ConnectionString)
        ensures
            c@ == ConnectionView::empty(),
    {
        ConnectionString { database: None, host: None, user: None, password: None, tls_mode: false }
    }

    /// Sets the database.
    pub fn set_database(&mut self, value: &str)
        ensures
            final(self)@ == (ConnectionView { database: Some(value@), ..old(self)@ }),
    {
        self.database = Some(String::from_str(value));
    }

    /// Sets the host.
    pub fn set_host(&mut self, value: &str)
        ensures
            final(self)@ == (ConnectionView { host: Some(value@), ..old(self)@ }),
    {
        self.host = Some(String::from_str(value));
    }

    /// Sets the user.
    pub fn set_user(&mut self, value: &str)
        ensures
            final(self)@ == (ConnectionView { user: Some(value@), ..old(self)@ }),
    {
        self.user = Some(String::from_str(value));
    }

    /// Sets the password.
    pub fn set_password(&mut self, value: &str)
        ensures
            final(self)@ == (ConnectionView { password: Some(value@), ..old(self)@ }),
    {
        self.password = Some(String::from_str(value));
    }

    /// Sets whether the connection is to use TLS: it is for the value
    /// `true`, in whatever case.
    pub fn set_tls_mode(&mut self, value: &str)
        ensures
            final(self)@ == (ConnectionView { tls_mode: eq_ignore_case(value@, "true"@), ..old(self)@ }),
    {
        self.tls_mode = crate::text::eq_ignore_ascii_case(value, "true");
    }

    /// Checks that the database, the host and the user are known and that
    /// TLS is not asked for, and reports everything that is wrong.
    pub fn validate(&self) -> (r: Result<(), Vec<DacpacError>>)
        ensures
            r is Ok <==> self@.faults().len() == 0,
            r matches Err(errors) ==> all_connection_faults(errors@) && connection_faults(errors@)
                == self@.faults(),
    {
        let mut errors: Vec<DacpacError> = Vec::new();
        if self.database.is_none() {
            errors.push(DacpacError::InvalidConnectionString { message: String::from_str("No database defined") });
        }
        if self.host.is_none() {
            errors.push(DacpacError::InvalidConnectionString { message: String::from_str("No host defined") });
        }
        if self.user.is_none() {
            errors.push(DacpacError::InvalidConnectionString { message: String::from_str("No user defined") });
        }
        if self.tls_mode {
            errors.push(DacpacError::InvalidConnectionString { message: String::from_str("TLS not supported") });
        }
        proof {
            assert(connection_faults(errors@) =~= self@.faults());
        }
        if errors.len() == 0 {
            Ok(())
        } else {
            Err(errors)
        }
    }

    /// The address of the connection, whose database, host and user must be
    /// known.
    pub fn uri(&self) -> (s: String)
        requires
            self.database is Some,
            self.host is Some,
            self.user is Some,
        ensures
            s@ == self@.uri(),
    {
        let mut s = String::from_str("postgres://");
        match &self.user {
            Some(u) => {
                s.append(u.as_str());
            },
            None => {},
        }
        match &self.password {
            Some(p) => {
                s.append(":");
                s.append(p.as_str());
            },
            None => {},
        }
        s.append("@");
        match &self.host {
            Some(h) => {
                s.append(h.as_str());
            },
            None => {},
        }
        s.append("/");
        match &self.database {
            Some(d) => {
                s.append(d.as_str());
            },
            None => {},
        }
        proof {
            assert(s@ =~= self@.uri());
        }
        s
    }

    /// Gives the setting `key` the value `value`.
    fn set(&mut self, key: &Vec<char>, value: &Vec<char>)
        ensures
            final(self)@ == old(self)@.set(key@, value@),
    {
        if chars_eq(key, &chars_of("host")) {
            self.host = Some(string_of(value));
        } else if chars_eq(key, &chars_of("database")) {
            self.database = Some(string_of(value));
        } else if chars_eq(key, &chars_of("userid")) {
            self.user = Some(string_of(value));
        } else if chars_eq(key, &chars_of("password")) {
            self.password = Some(string_of(value));
        } else if chars_eq(key, &chars_of("tlsmode")) {
            self.tls_mode = chars_eq_ignore_case(value, &chars_of("true"));
        }
    }
}

/// The entry points of the command line.
pub struct Dacpac;

impl Dacpac {
    /// Reads a connection string: settings of the form `key=value` between
    /// semicolons, with the keys `host`, `database`, `userid`, `password` and
    /// `tlsmode`. Fails on a section that is not of that form, and on a
    /// connection that does not pass [`ConnectionString::validate`].
    pub fn test_connection(target_connection_string: &str) -> (r: Result<ConnectionString, Vec<DacpacError>>)
        ensures
            match read_connection(target_connection_string@) {
                None => r matches Err(errors) && all_connection_faults(errors@) && connection_faults(
                    errors@,
                ) == seq!["Connection string was not well formed"@],
                Some(c) => if c.faults().len() == 0 {
                    r matches Ok(connection) && connection@ == c
                } else {
                    r matches Err(errors) && all_connection_faults(errors@) && connection_faults(errors@)
                        == c.faults()
                },
            },
    {
        let chars = chars_of(target_connection_string);
        let sections = split(&chars, ';');
        let mut connection_string = ConnectionString::new();
        let ghost all = split_spec(chars@, ';');
        let mut i: usize = 0;
        while i < sections.len()
            invariant
                i <= sections.len(),
                chars@ == target_connection_string@,
                all == split_spec(chars@, ';'),
                char_views(sections@) == all,
                read_connection(chars@) == read_sections(all, i as int, connection_string@),
            decreases sections.len() - i,
        {
            let section = &sections[i];
            assert(section@ == all[i as int]);
            if trimmed(section).len() != 0 {
                let parts = split(section, '=');
                if parts.len() != 2 {
                    let mut errors: Vec<DacpacError> = Vec::new();
                    errors.push(
                        DacpacError::InvalidConnectionString {
                            message: String::from_str("Connection string was not well formed"),
                        },
                    );
                    proof {
                        assert(connection_faults(errors@) =~= seq!["Connection string was not well formed"@]);
                    }
                    return Err(errors);
                }
                assert(parts@[0]@ == split_spec(section@, '=')[0]);
                assert(parts@[1]@ == split_spec(section@, '=')[1]);
                connection_string.set(&parts[0], &parts[1]);
            }
            i += 1;
        }
        match connection_string.validate() {
            Ok(_) => Ok(connection_string),
            Err(errors) => Err(errors),
        }
    }
}

/// A line number or a column as the command line holds it: the number
/// itself, or the largest that it can hold where the number is larger.
pub open spec fn clamped(n: usize) -> i32 {
    if n > 0x7fff_ffff {
        0x7fff_ffff
    } else {
        n as i32
    }
}

/// A line number or a column as the command line holds it.
pub fn clamp(n: usize) -> (r: i32)
    ensures
        r == clamped(n),
{
    if n > 0x7fff_ffff {
        0x7fff_ffff
    } else {
        n as i32
    }
}

/// `d` is what the command line reports for the one error `e` of the
/// library. A fault in a source file is reported with its file, its line
/// and its columns; the errors of the parser in a file with the file; an
/// error of reading and one of a format with its file. An error of the
/// database is reported as one, with what the error says; so is every
/// other error, as one of generation.
pub open spec fn reports_as(e: PsqlpackError, d: DacpacError) -> bool {
    match e {
        PsqlpackError::SyntaxError { file, line, line_number, start, end } => d == (DacpacError::SyntaxError {
            file,
            line,
            line_number: clamped(line_number),
            start_pos: clamped(start),
            end_pos: clamped(end),
        }),
        PsqlpackError::ParseError(file, errors) => d == (DacpacError::ParseError { file, errors }),
        PsqlpackError::IOError(file, message) => d == (DacpacError::IOError { file, message }),
        PsqlpackError::FormatError(file, message) => d == (DacpacError::FormatError { file, message }),
        PsqlpackError::DatabaseError(_) => d matches DacpacError::DatabaseError { message } && message@
            == e.text(),
        PsqlpackError::DatabaseExecuteError(_) => d matches DacpacError::DatabaseError { message } && message@
            == e.text(),
        PsqlpackError::DatabaseConnectionFinishError => d matches DacpacError::DatabaseError { message }
            && message@ == e.text(),
        _ => d matches DacpacError::GenerationError { message } && message@ == e.text(),
    }
}

/// `reports` is what the command line reports for the error `e` of the
/// library: for several errors together one report for each, in their
/// order; else one report.
pub open spec fn all_reported(e: PsqlpackError, reports: Seq<DacpacError>) -> bool {
    match e {
        PsqlpackError::MultipleErrors(errors) => {
            &&& reports.len() == errors.len()
            &&& forall|k: int| 0 <= k < errors.len() ==> reports_as(errors[k], #[trigger] reports[k])
        },
        _ => reports.len() == 1 && reports_as(e, reports[0]),
    }
}

/// The error is one of the database.
pub open spec fn is_database_error(e: PsqlpackError) -> bool {
    e is DatabaseError || e is DatabaseExecuteError || e is DatabaseConnectionFinishError
}

/// Whether the error is one of the database.
pub fn database_error(e: &PsqlpackError) -> (r: bool)
    ensures
        r == is_database_error(*e),
{
    match e {
        PsqlpackError::DatabaseError(_) => true,
        PsqlpackError::DatabaseExecuteError(_) => true,
        PsqlpackError::DatabaseConnectionFinishError => true,
        _ => false,
    }
}

/// What the command line reports for the one error `e` of the library.
pub fn report_one(e: PsqlpackError) -> (d: DacpacError)
    ensures
        reports_as(e, d),
{
    match e {
        PsqlpackError::SyntaxError { file, line, line_number, start, end } => DacpacError::SyntaxError {
            file,
            line,
            line_number: clamp(line_number),
            start_pos: clamp(start),
            end_pos: clamp(end),
        },
        PsqlpackError::ParseError(file, errors) => DacpacError::ParseError { file, errors },
        PsqlpackError::IOError(file, message) => DacpacError::IOError { file, message },
        PsqlpackError::FormatError(file, message) => DacpacError::FormatError { file, message },
        other => {
            let message = other.message();
            if database_error(&other) {
                DacpacError::DatabaseError { message }
            } else {
                DacpacError::GenerationError { message }
            }
        },
    }
}

/// What the command line reports for the error `e` of the library.
pub fn report(e: PsqlpackError) -> (reports: Vec<DacpacError>)
    ensures
        all_reported(e, reports@),
{
    let mut out: Vec<DacpacError> = Vec::new();
    match e {
        PsqlpackError::MultipleErrors(errors) => {
            let ghost all = errors@;
            for one in it: errors.into_iter()
                invariant
                    it.seq() == all,
                    out.len() == it.index@,
                    forall|k: int| 0 <= k < out.len() ==> reports_as(all[k], #[trigger] out[k]),
            {
                out.push(report_one(one));
            }
        },
        other => {
            out.push(report_one(other));
        },
    }
    out
}

} // verus!

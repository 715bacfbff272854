//! The lexer: from SQL source text to tokens with their positions.

use vstd::prelude::*;
use vstd::string::StringExecFns;
use crate::text::{ascii_lowercase, chars_eq, chars_of, is_space, is_ws, lower};

verus! {

/// The reserved words.
#[allow(non_camel_case_types)]
#[derive(Clone, Copy, Debug, PartialEq, Eq, Structural)]
pub enum Keyword {
    ACTION,
    ALWAYS,
    AS,
    BY,
    CASCADE,
    CHECK,
    CONSTRAINT,
    CREATE,
    DEFAULT,
    DELETE,
    DOMAIN,
    ENUM,
    EXISTS,
    EXTENSION,
    FILLFACTOR,
    FOREIGN,
    FUNCTION,
    GENERATED,
    IDENTITY,
    IF,
    IMMUTABLE,
    KEY,
    LANGUAGE,
    NO,
    NOT,
    NULL,
    ON,
    OR,
    PRIMARY,
    REFERENCES,
    REPLACE,
    RESTRICT,
    RETURNS,
    SCHEMA,
    SET,
    STABLE,
    TABLE,
    TYPE,
    UNIQUE,
    UPDATE,
    VOLATILE,
    WITH,
}

impl Keyword {
    /// The word in lower case.
    pub open spec fn text(self) -> Seq<char> {
        match self {
            Keyword::ACTION => "action"@,
            Keyword::ALWAYS => "always"@,
            Keyword::AS => "as"@,
            Keyword::BY => "by"@,
            Keyword::CASCADE => "cascade"@,
            Keyword::CHECK => "check"@,
            Keyword::CONSTRAINT => "constraint"@,
            Keyword::CREATE => "create"@,
            Keyword::DEFAULT => "default"@,
            Keyword::DELETE => "delete"@,
            Keyword::DOMAIN => "domain"@,
            Keyword::ENUM => "enum"@,
            Keyword::EXISTS => "exists"@,
            Keyword::EXTENSION => "extension"@,
            Keyword::FILLFACTOR => "fillfactor"@,
            Keyword::FOREIGN => "foreign"@,
            Keyword::FUNCTION => "function"@,
            Keyword::GENERATED => "generated"@,
            Keyword::IDENTITY => "identity"@,
            Keyword::IF => "if"@,
            Keyword::IMMUTABLE => "immutable"@,
            Keyword::KEY => "key"@,
            Keyword::LANGUAGE => "language"@,
            Keyword::NO => "no"@,
            Keyword::NOT => "not"@,
            Keyword::NULL => "null"@,
            Keyword::ON => "on"@,
            Keyword::OR => "or"@,
            Keyword::PRIMARY => "primary"@,
            Keyword::REFERENCES => "references"@,
            Keyword::REPLACE => "replace"@,
            Keyword::RESTRICT => "restrict"@,
            Keyword::RETURNS => "returns"@,
            Keyword::SCHEMA => "schema"@,
            Keyword::SET => "set"@,
            Keyword::STABLE => "stable"@,
            Keyword::TABLE => "table"@,
            Keyword::TYPE => "type"@,
            Keyword::UNIQUE => "unique"@,
            Keyword::UPDATE => "update"@,
            Keyword::VOLATILE => "volatile"@,
            Keyword::WITH => "with"@,
        }
    }

    /// The word in lower case.
    pub fn name(&self) -> (s: &'static str)
        ensures
            s@ == self.text(),
    {
        match self {
            Keyword::ACTION => "action",
            Keyword::ALWAYS => "always",
            Keyword::AS => "as",
            Keyword::BY => "by",
            Keyword::CASCADE => "cascade",
            Keyword::CHECK => "check",
            Keyword::CONSTRAINT => "constraint",
            Keyword::CREATE => "create",
            Keyword::DEFAULT => "default",
            Keyword::DELETE => "delete",
            Keyword::DOMAIN => "domain",
            Keyword::ENUM => "enum",
            Keyword::EXISTS => "exists",
            Keyword::EXTENSION => "extension",
            Keyword::FILLFACTOR => "fillfactor",
            Keyword::FOREIGN => "foreign",
            Keyword::FUNCTION => "function",
            Keyword::GENERATED => "generated",
            Keyword::IDENTITY => "identity",
            Keyword::IF => "if",
            Keyword::IMMUTABLE => "immutable",
            Keyword::KEY => "key",
            Keyword::LANGUAGE => "language",
            Keyword::NO => "no",
            Keyword::NOT => "not",
            Keyword::NULL => "null",
            Keyword::ON => "on",
            Keyword::OR => "or",
            Keyword::PRIMARY => "primary",
            Keyword::REFERENCES => "references",
            Keyword::REPLACE => "replace",
            Keyword::RESTRICT => "restrict",
            Keyword::RETURNS => "returns",
            Keyword::SCHEMA => "schema",
            Keyword::SET => "set",
            Keyword::STABLE => "stable",
            Keyword::TABLE => "table",
            Keyword::TYPE => "type",
            Keyword::UNIQUE => "unique",
            Keyword::UPDATE => "update",
            Keyword::VOLATILE => "volatile",
            Keyword::WITH => "with",
        }
    }
}

/// The reserved word that the lower-case text `t` is, if it is one.
pub open spec fn keyword_of(t: Seq<char>) -> Option<Keyword> {
    if t == "action"@ {
        Some(Keyword::ACTION)
    }     else if t == "always"@ {
        Some(Keyword::ALWAYS)
    }     else if t == "as"@ {
        Some(Keyword::AS)
    }     else if t == "by"@ {
        Some(Keyword::BY)
    }     else if t == "cascade"@ {
        Some(Keyword::CASCADE)
    }     else if t == "check"@ {
        Some(Keyword::CHECK)
    }     else if t == "constraint"@ {
        Some(Keyword::CONSTRAINT)
    }     else if t == "create"@ {
        Some(Keyword::CREATE)
    }     else if t == "default"@ {
        Some(Keyword::DEFAULT)
    }     else if t == "delete"@ {
        Some(Keyword::DELETE)
    }     else if t == "domain"@ {
        Some(Keyword::DOMAIN)
    }     else if t == "enum"@ {
        Some(Keyword::ENUM)
    }     else if t == "exists"@ {
        Some(Keyword::EXISTS)
    }     else if t == "extension"@ {
        Some(Keyword::EXTENSION)
    }     else if t == "fillfactor"@ {
        Some(Keyword::FILLFACTOR)
    }     else if t == "foreign"@ {
        Some(Keyword::FOREIGN)
    }     else if t == "function"@ {
        Some(Keyword::FUNCTION)
    }     else if t == "generated"@ {
        Some(Keyword::GENERATED)
    }     else if t == "identity"@ {
        Some(Keyword::IDENTITY)
    }     else if t == "if"@ {
        Some(Keyword::IF)
    }     else if t == "immutable"@ {
        Some(Keyword::IMMUTABLE)
    }     else if t == "key"@ {
        Some(Keyword::KEY)
    }     else if t == "language"@ {
        Some(Keyword::LANGUAGE)
    }     else if t == "no"@ {
        Some(Keyword::NO)
    }     else if t == "not"@ {
        Some(Keyword::NOT)
    }     else if t == "null"@ {
        Some(Keyword::NULL)
    }     else if t == "on"@ {
        Some(Keyword::ON)
    }     else if t == "or"@ {
        Some(Keyword::OR)
    }     else if t == "primary"@ {
        Some(Keyword::PRIMARY)
    }     else if t == "references"@ {
        Some(Keyword::REFERENCES)
    }     else if t == "replace"@ {
        Some(Keyword::REPLACE)
    }     else if t == "restrict"@ {
        Some(Keyword::RESTRICT)
    }     else if t == "returns"@ {
        Some(Keyword::RETURNS)
    }     else if t == "schema"@ {
        Some(Keyword::SCHEMA)
    }     else if t == "set"@ {
        Some(Keyword::SET)
    }     else if t == "stable"@ {
        Some(Keyword::STABLE)
    }     else if t == "table"@ {
        Some(Keyword::TABLE)
    }     else if t == "type"@ {
        Some(Keyword::TYPE)
    }     else if t == "unique"@ {
        Some(Keyword::UNIQUE)
    }     else if t == "update"@ {
        Some(Keyword::UPDATE)
    }     else if t == "volatile"@ {
        Some(Keyword::VOLATILE)
    }     else if t == "with"@ {
        Some(Keyword::WITH)
    } else {
        None
    }
}

/// The reserved word that the lower-case text `t` is, if it is one.
pub fn find_keyword(t: &Vec<char>) -> (r: Option<Keyword>)
    ensures
        r == keyword_of(t@),
{
    if chars_eq(t, &chars_of("action")) {
        Some(Keyword::ACTION)
    }     else if chars_eq(t, &chars_of("always")) {
        Some(Keyword::ALWAYS)
    }     else if chars_eq(t, &chars_of("as")) {
        Some(Keyword::AS)
    }     else if chars_eq(t, &chars_of("by")) {
        Some(Keyword::BY)
    }     else if chars_eq(t, &chars_of("cascade")) {
        Some(Keyword::CASCADE)
    }     else if chars_eq(t, &chars_of("check")) {
        Some(Keyword::CHECK)
    }     else if chars_eq(t, &chars_of("constraint")) {
        Some(Keyword::CONSTRAINT)
    }     else if chars_eq(t, &chars_of("create")) {
        Some(Keyword::CREATE)
    }     else if chars_eq(t, &chars_of("default")) {
        Some(Keyword::DEFAULT)
    }     else if chars_eq(t, &chars_of("delete")) {
        Some(Keyword::DELETE)
    }     else if chars_eq(t, &chars_of("domain")) {
        Some(Keyword::DOMAIN)
    }     else if chars_eq(t, &chars_of("enum")) {
        Some(Keyword::ENUM)
    }     else if chars_eq(t, &chars_of("exists")) {
        Some(Keyword::EXISTS)
    }     else if chars_eq(t, &chars_of("extension")) {
        Some(Keyword::EXTENSION)
    }     else if chars_eq(t, &chars_of("fillfactor")) {
        Some(Keyword::FILLFACTOR)
    }     else if chars_eq(t, &chars_of("foreign")) {
        Some(Keyword::FOREIGN)
    }     else if chars_eq(t, &chars_of("function")) {
        Some(Keyword::FUNCTION)
    }     else if chars_eq(t, &chars_of("generated")) {
        Some(Keyword::GENERATED)
    }     else if chars_eq(t, &chars_of("identity")) {
        Some(Keyword::IDENTITY)
    }     else if chars_eq(t, &chars_of("if")) {
        Some(Keyword::IF)
    }     else if chars_eq(t, &chars_of("immutable")) {
        Some(Keyword::IMMUTABLE)
    }     else if chars_eq(t, &chars_of("key")) {
        Some(Keyword::KEY)
    }     else if chars_eq(t, &chars_of("language")) {
        Some(Keyword::LANGUAGE)
    }     else if chars_eq(t, &chars_of("no")) {
        Some(Keyword::NO)
    }     else if chars_eq(t, &chars_of("not")) {
        Some(Keyword::NOT)
    }     else if chars_eq(t, &chars_of("null")) {
        Some(Keyword::NULL)
    }     else if chars_eq(t, &chars_of("on")) {
        Some(Keyword::ON)
    }     else if chars_eq(t, &chars_of("or")) {
        Some(Keyword::OR)
    }     else if chars_eq(t, &chars_of("primary")) {
        Some(Keyword::PRIMARY)
    }     else if chars_eq(t, &chars_of("references")) {
        Some(Keyword::REFERENCES)
    }     else if chars_eq(t, &chars_of("replace")) {
        Some(Keyword::REPLACE)
    }     else if chars_eq(t, &chars_of("restrict")) {
        Some(Keyword::RESTRICT)
    }     else if chars_eq(t, &chars_of("returns")) {
        Some(Keyword::RETURNS)
    }     else if chars_eq(t, &chars_of("schema")) {
        Some(Keyword::SCHEMA)
    }     else if chars_eq(t, &chars_of("set")) {
        Some(Keyword::SET)
    }     else if chars_eq(t, &chars_of("stable")) {
        Some(Keyword::STABLE)
    }     else if chars_eq(t, &chars_of("table")) {
        Some(Keyword::TABLE)
    }     else if chars_eq(t, &chars_of("type")) {
        Some(Keyword::TYPE)
    }     else if chars_eq(t, &chars_of("unique")) {
        Some(Keyword::UNIQUE)
    }     else if chars_eq(t, &chars_of("update")) {
        Some(Keyword::UPDATE)
    }     else if chars_eq(t, &chars_of("volatile")) {
        Some(Keyword::VOLATILE)
    }     else if chars_eq(t, &chars_of("with")) {
        Some(Keyword::WITH)
    } else {
        None
    }
}

/// The kinds of token.
#[derive(Clone, Copy, Debug, PartialEq, Eq, Structural)]
pub enum TokenKind {
    Identifier,
    StringLiteral,
    Number,
    Keyword(Keyword),
    Comma,
    Semicolon,
    LeftParen,
    RightParen,
    Period,
    Star,
    Equals,
    NotEquals,
    LessEq,
    GreaterEq,
    Less,
    Greater,
    DoubleColon,
}

impl TokenKind {
    /// The name of the kind.
    pub open spec fn text(self) -> Seq<char> {
        match self {
            TokenKind::Identifier => "Identifier"@,
            TokenKind::StringLiteral => "StringLiteral"@,
            TokenKind::Number => "Number"@,
            TokenKind::Keyword(_) => "Keyword"@,
            TokenKind::Comma => "Comma"@,
            TokenKind::Semicolon => "Semicolon"@,
            TokenKind::LeftParen => "LeftParen"@,
            TokenKind::RightParen => "RightParen"@,
            TokenKind::Period => "Period"@,
            TokenKind::Star => "Star"@,
            TokenKind::Equals => "Equals"@,
            TokenKind::NotEquals => "NotEquals"@,
            TokenKind::LessEq => "LessEq"@,
            TokenKind::GreaterEq => "GreaterEq"@,
            TokenKind::Less => "Less"@,
            TokenKind::Greater => "Greater"@,
            TokenKind::DoubleColon => "DoubleColon"@,
        }
    }

    /// The name of the kind.
    pub fn name(&self) -> (s: &'static str)
        ensures
            s@ == self.text(),
    {
        match self {
            TokenKind::Identifier => "Identifier",
            TokenKind::StringLiteral => "StringLiteral",
            TokenKind::Number => "Number",
            TokenKind::Keyword(_) => "Keyword",
            TokenKind::Comma => "Comma",
            TokenKind::Semicolon => "Semicolon",
            TokenKind::LeftParen => "LeftParen",
            TokenKind::RightParen => "RightParen",
            TokenKind::Period => "Period",
            TokenKind::Star => "Star",
            TokenKind::Equals => "Equals",
            TokenKind::NotEquals => "NotEquals",
            TokenKind::LessEq => "LessEq",
            TokenKind::GreaterEq => "GreaterEq",
            TokenKind::Less => "Less",
            TokenKind::Greater => "Greater",
            TokenKind::DoubleColon => "DoubleColon",
        }
    }

    /// The text of a token of this kind varies.
    pub open spec fn has_text(self) -> bool {
        self is Identifier || self is StringLiteral || self is Number || self is Keyword
    }
}

/// How a token is written in a message: the name of its kind, and its text
/// in round brackets where the text varies.
pub open spec fn token_text(kind: TokenKind, text: Seq<char>) -> Seq<char> {
    if kind.has_text() {
        kind.text() + "("@ + text + ")"@
    } else {
        kind.text()
    }
}

/// A token: its kind, its text, the line on which it starts, counted from
/// 1, the column at which it starts, counted from 0, and the column behind
/// its last character. The text of an identifier is its name: in lower case
/// if it was written without quotes, as written if within them. The text
/// of a string literal is what it stands for, without the quotes.
#[derive(Debug, PartialEq, Eq)]
pub struct Token {
    pub kind: TokenKind,
    pub text: String,
    pub line: usize,
    pub start: usize,
    pub end: usize,
}

impl Clone for Token {
    fn clone(&self) -> (r: Self)
        ensures
            r == *self,
    {
        Token { kind: self.kind, text: self.text.clone(), line: self.line, start: self.start, end: self.end }
    }
}

impl Token {
    /// The token as it is written in a message.
    pub fn describe(&self) -> (s: String)
        ensures
            s@ == token_text(self.kind, self.text@),
    {
        let mut s = String::from_str(self.kind.name());
        let varies = match self.kind {
            TokenKind::Identifier => true,
            TokenKind::StringLiteral => true,
            TokenKind::Number => true,
            TokenKind::Keyword(_) => true,
            _ => false,
        };
        if varies {
            s.append("(");
            s.append(self.text.as_str());
            s.append(")");
        }
        s
    }
}

/// A token as contracts see it.
pub struct TokenView {
    pub kind: TokenKind,
    pub text: Seq<char>,
    pub line: int,
    pub start: int,
    pub end: int,
}

impl View for Token {
    type V = TokenView;

    open spec fn view(&self) -> TokenView {
        TokenView {
            kind: self.kind,
            text: self.text@,
            line: self.line as int,
            start: self.start as int,
            end: self.end as int,
        }
    }
}

/// Where the lexer gave up: the text of the line, its number, counted from
/// 1, and the columns, counted from 0, between which the fault lies.
#[derive(Clone, Debug, PartialEq, Eq)]
pub struct LexicalError {
    pub line: String,
    pub line_number: usize,
    pub start: usize,
    pub end: usize,
}

/// A lexical error as contracts see it.
pub struct LexicalErrorView {
    pub line: Seq<char>,
    pub line_number: int,
    pub start: int,
    pub end: int,
}

impl View for LexicalError {
    type V = LexicalErrorView;

    open spec fn view(&self) -> LexicalErrorView {
        LexicalErrorView {
            line: self.line@,
            line_number: self.line_number as int,
            start: self.start as int,
            end: self.end as int,
        }
    }
}

/// Whether an identifier can start with the character.
pub open spec fn is_ident_start(c: char) -> bool {
    ('a' <= c && c <= 'z') || ('A' <= c && c <= 'Z') || c == '_'
}

/// Whether the character is a decimal digit.
pub open spec fn is_digit(c: char) -> bool {
    '0' <= c && c <= '9'
}

/// Whether an identifier can go on with the character.
pub open spec fn is_ident_part(c: char) -> bool {
    is_ident_start(c) || is_digit(c)
}

/// Whether an identifier can start with the character.
pub fn ident_start(c: char) -> (r: bool)
    ensures
        r == is_ident_start(c),
{
    ('a' <= c && c <= 'z') || ('A' <= c && c <= 'Z') || c == '_'
}

/// Whether the character is a decimal digit.
pub fn digit(c: char) -> (r: bool)
    ensures
        r == is_digit(c),
{
    '0' <= c && c <= '9'
}

/// Whether an identifier can go on with the character.
pub fn ident_part(c: char) -> (r: bool)
    ensures
        r == is_ident_part(c),
{
    ident_start(c) || digit(c)
}

/// The number of line feeds before the position `i`.
pub open spec fn newlines_before(s: Seq<char>, i: int) -> int
    decreases i,
{
    if i <= 0 {
        0
    } else {
        newlines_before(s, i - 1) + if s[i - 1] == '\n' {
            1int
        } else {
            0int
        }
    }
}

/// The position at which the line of the position `i` starts.
pub open spec fn line_start_of(s: Seq<char>, i: int) -> int
    decreases i,
{
    if i <= 0 {
        0
    } else if s[i - 1] == '\n' {
        i
    } else {
        line_start_of(s, i - 1)
    }
}

/// The first position from `i` on that holds the character `c`, or the
/// length of `s` if none does.
pub open spec fn find_char(s: Seq<char>, i: int, c: char) -> int
    decreases s.len() - i,
{
    if 0 <= i < s.len() && s[i] != c {
        find_char(s, i + 1, c)
    } else if i < 0 {
        0
    } else if i < s.len() {
        i
    } else {
        s.len() as int
    }
}

/// The first position from `i` on that holds no character of an
/// identifier.
pub open spec fn ident_end(s: Seq<char>, i: int) -> int
    decreases s.len() - i,
{
    if 0 <= i < s.len() && is_ident_part(s[i]) {
        ident_end(s, i + 1)
    } else {
        i
    }
}

/// The first position from `i` on that holds no digit.
pub open spec fn digits_end(s: Seq<char>, i: int) -> int
    decreases s.len() - i,
{
    if 0 <= i < s.len() && is_digit(s[i]) {
        digits_end(s, i + 1)
    } else {
        i
    }
}

/// A run of digits ends within the text, and not before it starts.
pub proof fn lemma_digits_end(s: Seq<char>, i: int)
    requires
        0 <= i <= s.len(),
    ensures
        i <= digits_end(s, i) <= s.len(),
    decreases s.len() - i,
{
    if i < s.len() && is_digit(s[i]) {
        lemma_digits_end(s, i + 1);
    }
}

/// The first position from `i` on that holds no character of an
/// identifier.
pub fn scan_ident(s: &Vec<char>, i: usize) -> (r: usize)
    requires
        i <= s.len(),
    ensures
        r == ident_end(s@, i as int),
        i <= r <= s.len(),
{
    let mut j = i;
    while j < s.len() && ident_part(s[j])
        invariant
            i <= j <= s.len(),
            ident_end(s@, i as int) == ident_end(s@, j as int),
        decreases s.len() - j,
    {
        j += 1;
    }
    j
}

/// The first position from `i` on that holds no digit.
pub fn scan_digits(s: &Vec<char>, i: usize) -> (r: usize)
    requires
        i <= s.len(),
    ensures
        r == digits_end(s@, i as int),
        i <= r <= s.len(),
{
    let mut j = i;
    while j < s.len() && digit(s[j])
        invariant
            i <= j <= s.len(),
            digits_end(s@, i as int) == digits_end(s@, j as int),
        decreases s.len() - j,
    {
        j += 1;
    }
    j
}

/// The first position from `i` on that holds the character `c`, or the
/// length of `s`.
pub fn scan_to(s: &Vec<char>, i: usize, c: char) -> (r: usize)
    requires
        i <= s.len(),
    ensures
        r == find_char(s@, i as int, c),
        i <= r <= s.len(),
{
    let mut j = i;
    while j < s.len() && s[j] != c
        invariant
            i <= j <= s.len(),
            find_char(s@, i as int, c) == find_char(s@, j as int, c),
        decreases s.len() - j,
    {
        j += 1;
    }
    j
}

/// What the lexer is in while it passes over what is no token: code, a
/// comment that ends with its line, or a comment in brackets, nested so
/// many deep.
pub enum Mode {
    Code,
    Line,
    Block(nat),
}

/// How passing over white space and comments ends: at a position, which
/// holds the start of a token or is the end of the text; or within a
/// comment in brackets that started at the position given and is not closed.
pub enum Skip {
    To(int),
    Unterminated(int),
}

/// The two characters at `i` are `a` and `b`.
pub open spec fn pair_at(s: Seq<char>, i: int, a: char, b: char) -> bool {
    0 <= i && i + 1 < s.len() && s[i] == a && s[i + 1] == b
}

/// Passes over white space and comments from `i` on. Comments in brackets
/// nest; `start` is where the outermost began.
pub open spec fn skip(s: Seq<char>, i: int, start: int, mode: Mode) -> Skip
    decreases s.len() - i,
{
    if i < 0 || i >= s.len() {
        match mode {
            Mode::Block(_) => Skip::Unterminated(start),
            _ => Skip::To(s.len() as int),
        }
    } else {
        match mode {
            Mode::Code => if is_ws(s[i]) {
                skip(s, i + 1, start, Mode::Code)
            } else if pair_at(s, i, '-', '-') {
                skip(s, i + 2, start, Mode::Line)
            } else if pair_at(s, i, '/', '*') {
                skip(s, i + 2, i, Mode::Block(1))
            } else {
                Skip::To(i)
            },
            Mode::Line => if s[i] == '\n' {
                skip(s, i + 1, start, Mode::Code)
            } else {
                skip(s, i + 1, start, Mode::Line)
            },
            Mode::Block(depth) => if pair_at(s, i, '*', '/') {
                if depth <= 1 {
                    skip(s, i + 2, start, Mode::Code)
                } else {
                    skip(s, i + 2, start, Mode::Block((depth - 1) as nat))
                }
            } else if pair_at(s, i, '/', '*') {
                skip(s, i + 2, start, Mode::Block(depth + 1))
            } else {
                skip(s, i + 1, start, Mode::Block(depth))
            },
        }
    }
}

/// The text of a string literal whose opening quote stands before `i`, and
/// the position behind its closing quote; none if the literal is not closed.
/// Two quotes in a row stand for one.
pub open spec fn string_scan(s: Seq<char>, i: int) -> Option<(Seq<char>, int)>
    decreases s.len() - i,
{
    if i < 0 || i >= s.len() {
        None
    } else if s[i] == '\'' {
        if i + 1 < s.len() && s[i + 1] == '\'' {
            match string_scan(s, i + 2) {
                Some((t, e)) => Some((seq!['\''] + t, e)),
                None => None,
            }
        } else {
            Some((Seq::empty(), i + 1))
        }
    } else {
        match string_scan(s, i + 1) {
            Some((t, e)) => Some((seq![s[i]] + t, e)),
            None => None,
        }
    }
}

/// The first position from `j` on at which `s` holds `pat`, if any.
pub open spec fn find_seq(s: Seq<char>, j: int, pat: Seq<char>) -> Option<int>
    decreases s.len() - j,
{
    if j < 0 || j >= s.len() || j + pat.len() > s.len() {
        None
    } else if s.subrange(j, j + pat.len()) == pat {
        Some(j)
    } else {
        find_seq(s, j + 1, pat)
    }
}

/// The position behind the number that starts at `i`: digits, then
/// optionally a point and digits, then optionally an exponent.
pub open spec fn number_end(s: Seq<char>, i: int) -> int {
    let whole = digits_end(s, i);
    let fraction = if whole < s.len() && s[whole] == '.' {
        digits_end(s, whole + 1)
    } else {
        whole
    };
    if fraction < s.len() && (s[fraction] == 'e' || s[fraction] == 'E') {
        let digits = if fraction + 1 < s.len() && (s[fraction + 1] == '+' || s[fraction + 1] == '-') {
            fraction + 2
        } else {
            fraction + 1
        };
        if digits < s.len() && is_digit(s[digits]) {
            digits_end(s, digits)
        } else {
            fraction
        }
    } else {
        fraction
    }
}

/// What stands at a position: a token, with its kind, its text and the
/// position behind it; or nothing that the lexer accepts. The fault is then
/// the one character, or whatever follows on the line where something was
/// opened and not closed.
pub enum Scan {
    Token { kind: TokenKind, text: Seq<char>, end: int },
    Invalid { whole_line: bool },
}

/// The punctuation that starts at `i`, if any: its kind and its length.
pub open spec fn punctuation(s: Seq<char>, i: int) -> Option<(TokenKind, int)> {
    if pair_at(s, i, '<', '>') {
        Some((TokenKind::NotEquals, 2))
    } else if pair_at(s, i, '<', '=') {
        Some((TokenKind::LessEq, 2))
    } else if pair_at(s, i, '>', '=') {
        Some((TokenKind::GreaterEq, 2))
    } else if pair_at(s, i, ':', ':') {
        Some((TokenKind::DoubleColon, 2))
    } else if s[i] == ',' {
        Some((TokenKind::Comma, 1))
    } else if s[i] == ';' {
        Some((TokenKind::Semicolon, 1))
    } else if s[i] == '(' {
        Some((TokenKind::LeftParen, 1))
    } else if s[i] == ')' {
        Some((TokenKind::RightParen, 1))
    } else if s[i] == '.' {
        Some((TokenKind::Period, 1))
    } else if s[i] == '*' {
        Some((TokenKind::Star, 1))
    } else if s[i] == '=' {
        Some((TokenKind::Equals, 1))
    } else if s[i] == '<' {
        Some((TokenKind::Less, 1))
    } else if s[i] == '>' {
        Some((TokenKind::Greater, 1))
    } else {
        None
    }
}

/// The string in dollar quotes that starts at `i`: a tag between two dollar
/// signs, the text, and the same tag between dollar signs again.
pub open spec fn dollar_scan(s: Seq<char>, i: int) -> Scan {
    let tag_end = ident_end(s, i + 1);
    if tag_end < s.len() && s[tag_end] == '$' {
        let tag = s.subrange(i, tag_end + 1);
        match find_seq(s, tag_end + 1, tag) {
            Some(j) => Scan::Token {
                kind: TokenKind::StringLiteral,
                text: s.subrange(tag_end + 1, j),
                end: j + tag.len(),
            },
            None => Scan::Invalid { whole_line: true },
        }
    } else {
        Scan::Invalid { whole_line: false }
    }
}

/// What stands at the position `i`, which holds neither white space nor the
/// start of a comment.
pub open spec fn scan(s: Seq<char>, i: int) -> Scan {
    let c = s[i];
    if is_ident_start(c) {
        let e = ident_end(s, i + 1);
        let t = ascii_lowercase(s.subrange(i, e));
        match keyword_of(t) {
            Some(k) => Scan::Token { kind: TokenKind::Keyword(k), text: t, end: e },
            None => Scan::Token { kind: TokenKind::Identifier, text: t, end: e },
        }
    } else if c == '"' {
        let e = find_char(s, i + 1, '"');
        if i + 1 < e < s.len() {
            Scan::Token { kind: TokenKind::Identifier, text: s.subrange(i + 1, e), end: e + 1 }
        } else {
            Scan::Invalid { whole_line: e >= s.len() }
        }
    } else if c == '\'' {
        match string_scan(s, i + 1) {
            Some((t, e)) => Scan::Token { kind: TokenKind::StringLiteral, text: t, end: e },
            None => Scan::Invalid { whole_line: true },
        }
    } else if c == '$' {
        dollar_scan(s, i)
    } else if is_digit(c) {
        let e = number_end(s, i);
        Scan::Token { kind: TokenKind::Number, text: s.subrange(i, e), end: e }
    } else {
        match punctuation(s, i) {
            Some((kind, n)) => Scan::Token { kind, text: s.subrange(i, i + n), end: i + n },
            None => Scan::Invalid { whole_line: false },
        }
    }
}

/// The error for a fault at the position `i`: the line of `i`, and the
/// columns of the one character there or, if `whole_line`, from there to
/// the end of the line.
pub open spec fn error_at(s: Seq<char>, i: int, whole_line: bool) -> LexicalErrorView {
    let from = line_start_of(s, i);
    let to = find_char(s, i, '\n');
    LexicalErrorView {
        line: s.subrange(from, to),
        line_number: newlines_before(s, i) + 1,
        start: i - from,
        end: if whole_line {
            to - from
        } else {
            i - from + 1
        },
    }
}

/// The token of the given kind and text that stands from `i` up to `end`.
pub open spec fn token_at(s: Seq<char>, i: int, kind: TokenKind, text: Seq<char>, end: int) -> TokenView {
    TokenView {
        kind,
        text,
        line: newlines_before(s, i) + 1,
        start: i - line_start_of(s, i),
        end: end - line_start_of(s, end),
    }
}

/// The tokens of `s` from the position `i` on, or the first fault.
pub open spec fn lex_from(s: Seq<char>, i: int) -> Result<Seq<TokenView>, LexicalErrorView>
    decreases s.len() - i,
{
    match skip(s, i, i, Mode::Code) {
        Skip::Unterminated(start) => Err(error_at(s, start, true)),
        Skip::To(j) => if j >= s.len() || j < i {
            Ok(Seq::empty())
        } else {
            match scan(s, j) {
                Scan::Invalid { whole_line } => Err(error_at(s, j, whole_line)),
                Scan::Token { kind, text, end } => if j < end <= s.len() {
                    match lex_from(s, end) {
                        Ok(rest) => Ok(seq![token_at(s, j, kind, text, end)] + rest),
                        Err(e) => Err(e),
                    }
                } else {
                    Ok(Seq::empty())
                },
            }
        },
    }
}

/// The tokens of the source text `s`, or the first fault. White space and
/// comments separate tokens and are passed over; a comment runs from two
/// hyphens to the end of the line, or stands between `/*` and `*/`, and
/// comments of the second form nest.
pub open spec fn lex(s: Seq<char>) -> Result<Seq<TokenView>, LexicalErrorView> {
    lex_from(s, 0)
}

/// How passing over white space and comments ended.
enum Skipped {
    To(usize),
    Unterminated(usize),
}

impl Skipped {
    spec fn view(&self) -> Skip {
        match self {
            Skipped::To(j) => Skip::To(*j as int),
            Skipped::Unterminated(j) => Skip::Unterminated(*j as int),
        }
    }
}

/// What the lexer is in while it passes over what is no token.
enum Passing {
    Code,
    Line,
    Block(usize),
}

impl Passing {
    spec fn view(&self) -> Mode {
        match self {
            Passing::Code => Mode::Code,
            Passing::Line => Mode::Line,
            Passing::Block(d) => Mode::Block(*d as nat),
        }
    }
}

/// Whether the two characters at `i` are `a` and `b`.
fn pair(s: &Vec<char>, i: usize, a: char, b: char) -> (r: bool)
    requires
        i < s.len(),
    ensures
        r == pair_at(s@, i as int, a, b),
{
    i + 1 < s.len() && s[i] == a && s[i + 1] == b
}

/// Passes over white space and comments from `i` on.
fn skip_blank(s: &Vec<char>, i: usize) -> (r: Skipped)
    requires
        i <= s.len(),
    ensures
        r.view() == skip(s@, i as int, i as int, Mode::Code),
        r matches Skipped::To(j) ==> i <= j <= s.len(),
        r matches Skipped::Unterminated(j) ==> i <= j < s.len(),
{
    let mut j = i;
    let mut start = i;
    let mut mode = Passing::Code;
    while j < s.len()
        invariant
            i <= j <= s.len(),
            i <= start <= j,
            mode is Block ==> start < s.len(),
            mode matches Passing::Block(d) ==> d <= j,
            skip(s@, i as int, i as int, Mode::Code) == skip(s@, j as int, start as int, mode.view()),
        decreases s.len() - j,
    {
        match mode {
            Passing::Code => {
                if is_space(s[j]) {
                    j += 1;
                } else if pair(s, j, '-', '-') {
                    mode = Passing::Line;
                    j += 2;
                } else if pair(s, j, '/', '*') {
                    mode = Passing::Block(1);
                    start = j;
                    j += 2;
                } else {
                    return Skipped::To(j);
                }
            },
            Passing::Line => {
                if s[j] == '\n' {
                    mode = Passing::Code;
                }
                j += 1;
            },
            Passing::Block(depth) => {
                if pair(s, j, '*', '/') {
                    if depth <= 1 {
                        mode = Passing::Code;
                    } else {
                        mode = Passing::Block(depth - 1);
                    }
                    j += 2;
                } else if pair(s, j, '/', '*') {
                    mode = Passing::Block(depth + 1);
                    j += 2;
                } else {
                    j += 1;
                }
            },
        }
    }
    match mode {
        Passing::Block(_) => Skipped::Unterminated(start),
        _ => Skipped::To(j),
    }
}

/// The text of the string literal whose opening quote stands before `i`,
/// and the position behind its closing quote.
fn scan_string(s: &Vec<char>, i: usize) -> (r: Option<(String, usize)>)
    requires
        i <= s.len(),
    ensures
        match r {
            Some((t, e)) => string_scan(s@, i as int) == Some((t@, e as int)) && i < e <= s.len(),
            None => string_scan(s@, i as int) is None,
        },
{
    let mut text = String::new();
    let mut j = i;
    while j < s.len()
        invariant
            i <= j <= s.len(),
            string_scan(s@, i as int) == match string_scan(s@, j as int) {
                Some((t, e)) => Some((text@ + t, e)),
                None => None,
            },
        decreases s.len() - j,
    {
        let ghost before = text@;
        if s[j] == '\'' {
            if j + 1 < s.len() && s[j + 1] == '\'' {
                text.push('\'');
                proof {
                    match string_scan(s@, j + 2) {
                        Some((t, e)) => {
                            assert(before + (seq!['\''] + t) =~= text@ + t);
                        },
                        None => {},
                    }
                }
                j += 2;
            } else {
                proof {
                    assert(text@ + Seq::<char>::empty() =~= text@);
                }
                return Some((text, j + 1));
            }
        } else {
            text.push(s[j]);
            proof {
                match string_scan(s@, j + 1) {
                    Some((t, e)) => {
                        assert(before + (seq![s@[j as int]] + t) =~= text@ + t);
                    },
                    None => {},
                }
            }
            j += 1;
        }
    }
    None
}

/// Whether `s` holds at `j` the `n` characters that it holds at `i`.
fn same_at(s: &Vec<char>, j: usize, i: usize, n: usize) -> (r: bool)
    requires
        i + n <= s.len(),
        j + n <= s.len(),
    ensures
        r == (s@.subrange(j as int, j + n) == s@.subrange(i as int, i + n)),
{
    let mut k: usize = 0;
    while k < n
        invariant
            k <= n,
            i + n <= s.len(),
            j + n <= s.len(),
            forall|m: int|
                0 <= m < k ==> s@.subrange(j as int, j + n)[m] == #[trigger] s@.subrange(i as int, i + n)[m],
        decreases n - k,
    {
        if s[j + k] != s[i + k] {
            assert(s@.subrange(j as int, j + n)[k as int] != s@.subrange(i as int, i + n)[k as int]);
            return false;
        }
        k += 1;
    }
    assert(s@.subrange(j as int, j + n) =~= s@.subrange(i as int, i + n));
    true
}

/// The first position from `j` on at which `s` holds the `n` characters
/// that it holds at `i`.
fn find_same(s: &Vec<char>, j: usize, i: usize, n: usize) -> (r: Option<usize>)
    requires
        i + n <= s.len(),
        j <= s.len(),
    ensures
        match r {
            Some(k) => find_seq(s@, j as int, s@.subrange(i as int, i + n)) == Some(k as int) && j <= k && k
                + n <= s.len(),
            None => find_seq(s@, j as int, s@.subrange(i as int, i + n)) is None,
        },
{
    let ghost pat = s@.subrange(i as int, i + n);
    let mut k = j;
    while k < s.len() && n <= s.len() - k
        invariant
            j <= k <= s.len(),
            i + n <= s.len(),
            pat == s@.subrange(i as int, i + n),
            find_seq(s@, j as int, pat) == find_seq(s@, k as int, pat),
        decreases s.len() - k,
    {
        if same_at(s, k, i, n) {
            return Some(k);
        }
        k += 1;
    }
    None
}

/// The position behind the number that starts at `i`.
fn scan_number(s: &Vec<char>, i: usize) -> (r: usize)
    requires
        i < s.len(),
        is_digit(s@[i as int]),
    ensures
        r == number_end(s@, i as int),
        i < r <= s.len(),
{
    let whole = scan_digits(s, i);
    assert(whole > i) by {
        assert(digits_end(s@, i as int) == digits_end(s@, i + 1));
        lemma_digits_end(s@, i + 1);
    }
    let fraction = if whole < s.len() && s[whole] == '.' {
        scan_digits(s, whole + 1)
    } else {
        whole
    };
    if fraction < s.len() && (s[fraction] == 'e' || s[fraction] == 'E') {
        let digits = if fraction + 1 < s.len() && (s[fraction + 1] == '+' || s[fraction + 1] == '-') {
            fraction + 2
        } else {
            fraction + 1
        };
        if digits < s.len() && digit(s[digits]) {
            scan_digits(s, digits)
        } else {
            fraction
        }
    } else {
        fraction
    }
}

/// The punctuation that starts at `i`, if any: its kind and its length.
fn scan_punctuation(s: &Vec<char>, i: usize) -> (r: Option<(TokenKind, usize)>)
    requires
        i < s.len(),
    ensures
        match r {
            Some((kind, n)) => punctuation(s@, i as int) == Some((kind, n as int)) && 1 <= n && i + n
                <= s.len(),
            None => punctuation(s@, i as int) is None,
        },
{
    let c = s[i];
    if pair(s, i, '<', '>') {
        Some((TokenKind::NotEquals, 2))
    } else if pair(s, i, '<', '=') {
        Some((TokenKind::LessEq, 2))
    } else if pair(s, i, '>', '=') {
        Some((TokenKind::GreaterEq, 2))
    } else if pair(s, i, ':', ':') {
        Some((TokenKind::DoubleColon, 2))
    } else if c == ',' {
        Some((TokenKind::Comma, 1))
    } else if c == ';' {
        Some((TokenKind::Semicolon, 1))
    } else if c == '(' {
        Some((TokenKind::LeftParen, 1))
    } else if c == ')' {
        Some((TokenKind::RightParen, 1))
    } else if c == '.' {
        Some((TokenKind::Period, 1))
    } else if c == '*' {
        Some((TokenKind::Star, 1))
    } else if c == '=' {
        Some((TokenKind::Equals, 1))
    } else if c == '<' {
        Some((TokenKind::Less, 1))
    } else if c == '>' {
        Some((TokenKind::Greater, 1))
    } else {
        None
    }
}

/// What stands at a position.
enum Scanned {
    Token { kind: TokenKind, text: String, end: usize },
    Invalid { whole_line: bool },
}

impl Scanned {
    spec fn view(&self) -> Scan {
        match self {
            Scanned::Token { kind, text, end } => Scan::Token { kind: *kind, text: text@, end: *end as int },
            Scanned::Invalid { whole_line } => Scan::Invalid { whole_line: *whole_line },
        }
    }
}

/// The characters of `s` from `from` up to `to`, in lower case.
fn collect_lower(s: &Vec<char>, from: usize, to: usize) -> (r: Vec<char>)
    requires
        from <= to <= s.len(),
    ensures
        r@ == ascii_lowercase(s@.subrange(from as int, to as int)),
{
    let mut r: Vec<char> = Vec::new();
    let mut i = from;
    while i < to
        invariant
            from <= i <= to <= s.len(),
            r@ == ascii_lowercase(s@.subrange(from as int, i as int)),
        decreases to - i,
    {
        r.push(lower(s[i]));
        proof {
            assert(r@ =~= ascii_lowercase(s@.subrange(from as int, i + 1)));
        }
        i += 1;
    }
    r
}

/// What stands at the position `i`.
fn scan_at(s: &Vec<char>, i: usize) -> (r: Scanned)
    requires
        i < s.len(),
    ensures
        r.view() == scan(s@, i as int),
        r matches Scanned::Token { end, .. } ==> i < end <= s.len(),
{
    let c = s[i];
    if ident_start(c) {
        let e = scan_ident(s, i + 1);
        let lowered = collect_lower(s, i, e);
        let text = crate::text::collect(&lowered, 0, lowered.len());
        assert(lowered@.subrange(0, lowered.len() as int) =~= lowered@);
        match find_keyword(&lowered) {
            Some(k) => Scanned::Token { kind: TokenKind::Keyword(k), text, end: e },
            None => Scanned::Token { kind: TokenKind::Identifier, text, end: e },
        }
    } else if c == '"' {
        let e = scan_to(s, i + 1, '"');
        if i + 1 < e && e < s.len() {
            Scanned::Token { kind: TokenKind::Identifier, text: crate::text::collect(s, i + 1, e), end: e + 1 }
        } else {
            Scanned::Invalid { whole_line: e >= s.len() }
        }
    } else if c == '\'' {
        match scan_string(s, i + 1) {
            Some((text, e)) => Scanned::Token { kind: TokenKind::StringLiteral, text, end: e },
            None => Scanned::Invalid { whole_line: true },
        }
    } else if c == '$' {
        let tag_end = scan_ident(s, i + 1);
        if tag_end < s.len() && s[tag_end] == '$' {
            let n = tag_end + 1 - i;
            match find_same(s, tag_end + 1, i, n) {
                Some(j) => Scanned::Token {
                    kind: TokenKind::StringLiteral,
                    text: crate::text::collect(s, tag_end + 1, j),
                    end: j + n,
                },
                None => Scanned::Invalid { whole_line: true },
            }
        } else {
            Scanned::Invalid { whole_line: false }
        }
    } else if digit(c) {
        let e = scan_number(s, i);
        Scanned::Token { kind: TokenKind::Number, text: crate::text::collect(s, i, e), end: e }
    } else {
        match scan_punctuation(s, i) {
            Some((kind, n)) => Scanned::Token { kind, text: crate::text::collect(s, i, i + n), end: i + n },
            None => Scanned::Invalid { whole_line: false },
        }
    }
}

/// The line of a position starts at or before it, and there are no more
/// line feeds before a position than characters.
pub proof fn lemma_line_bounds(s: Seq<char>, i: int)
    requires
        0 <= i,
    ensures
        0 <= line_start_of(s, i) <= i,
        0 <= newlines_before(s, i) <= i,
    decreases i,
{
    if i > 0 {
        lemma_line_bounds(s, i - 1);
    }
}

/// A place in the text, with the number of line feeds before it and the
/// position at which its line starts.
struct Cursor {
    pos: usize,
    newlines: usize,
    line_start: usize,
}

impl Cursor {
    spec fn wf(&self, s: Seq<char>) -> bool {
        &&& self.pos <= s.len()
        &&& self.newlines == newlines_before(s, self.pos as int)
        &&& self.line_start == line_start_of(s, self.pos as int)
    }

    /// The cursor moved on to `target`.
    fn advance(&self, s: &Vec<char>, target: usize) -> (r: Cursor)
        requires
            self.wf(s@),
            self.pos <= target <= s.len(),
        ensures
            r.wf(s@),
            r.pos == target,
    {
        let mut k = self.pos;
        let mut newlines = self.newlines;
        let mut line_start = self.line_start;
        while k < target
            invariant
                self.pos <= k <= target <= s.len(),
                newlines == newlines_before(s@, k as int),
                line_start == line_start_of(s@, k as int),
            decreases target - k,
        {
            proof {
                lemma_line_bounds(s@, k as int);
            }
            if s[k] == '\n' {
                newlines += 1;
                line_start = k + 1;
            }
            k += 1;
        }
        Cursor { pos: k, newlines, line_start }
    }

    /// The error for a fault at the cursor.
    fn error(&self, s: &Vec<char>, whole_line: bool) -> (e: LexicalError)
        requires
            self.wf(s@),
            self.pos < s.len(),
        ensures
            e@ == error_at(s@, self.pos as int, whole_line),
    {
        proof {
            lemma_line_bounds(s@, self.pos as int);
        }
        let to = scan_to(s, self.pos, '\n');
        LexicalError {
            line: crate::text::collect(s, self.line_start, to),
            line_number: self.newlines + 1,
            start: self.pos - self.line_start,
            end: if whole_line {
                to - self.line_start
            } else {
                self.pos - self.line_start + 1
            },
        }
    }
}

/// The views of a list of tokens.
pub open spec fn token_views(tokens: Seq<Token>) -> Seq<TokenView> {
    tokens.map_values(|t: Token| t@)
}

/// The tokens `done`, followed by what is still to come.
pub open spec fn prepend(done: Seq<TokenView>, rest: Result<Seq<TokenView>, LexicalErrorView>) -> Result<
    Seq<TokenView>,
    LexicalErrorView,
> {
    match rest {
        Ok(more) => Ok(done + more),
        Err(e) => Err(e),
    }
}

/// Splits SQL source text into tokens, or reports the first fault.
pub fn tokenize(source: &str) -> (r: Result<Vec<Token>, LexicalError>)
    ensures
        match r {
            Ok(tokens) => lex(source@) == Ok::<Seq<TokenView>, LexicalErrorView>(token_views(tokens@)),
            Err(e) => lex(source@) == Err::<Seq<TokenView>, LexicalErrorView>(e@),
        },
{
    let s = chars_of(source);
    let mut tokens: Vec<Token> = Vec::new();
    let mut cursor = Cursor { pos: 0, newlines: 0, line_start: 0 };
    proof {
        match lex_from(s@, 0) {
            Ok(more) => {
                assert(token_views(tokens@) + more =~= more);
            },
            Err(e) => {},
        }
    }
    loop
        invariant
            s@ == source@,
            cursor.wf(s@),
            lex(s@) == prepend(token_views(tokens@), lex_from(s@, cursor.pos as int)),
        decreases s.len() - cursor.pos,
    {
        let ghost done = token_views(tokens@);
        match skip_blank(&s, cursor.pos) {
            Skipped::Unterminated(start) => {
                let at = cursor.advance(&s, start);
                return Err(at.error(&s, true));
            },
            Skipped::To(j) => {
                if j >= s.len() {
                    proof {
                        assert(done + Seq::<TokenView>::empty() =~= done);
                    }
                    return Ok(tokens);
                }
                let at = cursor.advance(&s, j);
                match scan_at(&s, j) {
                    Scanned::Invalid { whole_line } => {
                        return Err(at.error(&s, whole_line));
                    },
                    Scanned::Token { kind, text, end } => {
                        let after = at.advance(&s, end);
                        proof {
                            lemma_line_bounds(s@, j as int);
                            lemma_line_bounds(s@, end as int);
                        }
                        let token = Token {
                            kind,
                            text,
                            line: at.newlines + 1,
                            start: j - at.line_start,
                            end: end - after.line_start,
                        };
                        proof {
                            assert(token@ == token_at(s@, j as int, kind, text@, end as int));
                            match lex_from(s@, end as int) {
                                Ok(more) => {
                                    assert(done + (seq![token@] + more) =~= done.push(token@) + more);
                                },
                                Err(e) => {},
                            }
                        }
                        tokens.push(token);
                        proof {
                            assert(token_views(tokens@) =~= done.push(token@));
                        }
                        cursor = after;
                    },
                }
            },
        }
    }
}

} // verus!

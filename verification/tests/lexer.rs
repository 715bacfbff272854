use psqlpack::lexer::{tokenize, Keyword, LexicalError, Token, TokenKind};

fn token(kind: TokenKind, text: &str, line: usize, start: usize, end: usize) -> Token {
    Token { kind, text: text.to_string(), line, start, end }
}

fn kinds(source: &str) -> Vec<TokenKind> {
    tokenize(source).unwrap().into_iter().map(|t| t.kind).collect()
}

#[test]
fn create_table_is_split_into_tokens_with_positions() {
    let tokens = tokenize("CREATE TABLE Users (\n  Id INT NOT NULL\n);").unwrap();
    assert_eq!(
        tokens,
        vec![
            token(TokenKind::Keyword(Keyword::CREATE), "create", 1, 0, 6),
            token(TokenKind::Keyword(Keyword::TABLE), "table", 1, 7, 12),
            token(TokenKind::Identifier, "users", 1, 13, 18),
            token(TokenKind::LeftParen, "(", 1, 19, 20),
            token(TokenKind::Identifier, "id", 2, 2, 4),
            token(TokenKind::Identifier, "int", 2, 5, 8),
            token(TokenKind::Keyword(Keyword::NOT), "not", 2, 9, 12),
            token(TokenKind::Keyword(Keyword::NULL), "null", 2, 13, 17),
            token(TokenKind::RightParen, ")", 3, 0, 1),
            token(TokenKind::Semicolon, ";", 3, 1, 2),
        ]
    );
}

#[test]
fn quoted_identifiers_keep_their_case() {
    assert_eq!(
        tokenize("\"Users\" users USERS").unwrap(),
        vec![
            token(TokenKind::Identifier, "Users", 1, 0, 7),
            token(TokenKind::Identifier, "users", 1, 8, 13),
            token(TokenKind::Identifier, "users", 1, 14, 19),
        ]
    );
}

#[test]
fn string_literals_unescape_doubled_quotes() {
    assert_eq!(
        tokenize("'it''s' ''").unwrap(),
        vec![
            token(TokenKind::StringLiteral, "it's", 1, 0, 7),
            token(TokenKind::StringLiteral, "", 1, 8, 10),
        ]
    );
}

#[test]
fn dollar_quoted_strings_end_at_their_own_tag() {
    assert_eq!(
        tokenize("$$a$b$$ $fn$x $$ y$fn$").unwrap(),
        vec![
            token(TokenKind::StringLiteral, "a$b", 1, 0, 7),
            token(TokenKind::StringLiteral, "x $$ y", 1, 8, 22),
        ]
    );
    let tokens = tokenize("$$line one\nline two$$;").unwrap();
    assert_eq!(
        tokens,
        vec![
            token(TokenKind::StringLiteral, "line one\nline two", 1, 0, 10),
            token(TokenKind::Semicolon, ";", 2, 10, 11),
        ]
    );
}

#[test]
fn numbers_take_fraction_and_exponent() {
    assert_eq!(
        tokenize("10 2.5 1e10 3.25E-2 7e 8.").unwrap(),
        vec![
            token(TokenKind::Number, "10", 1, 0, 2),
            token(TokenKind::Number, "2.5", 1, 3, 6),
            token(TokenKind::Number, "1e10", 1, 7, 11),
            token(TokenKind::Number, "3.25E-2", 1, 12, 19),
            token(TokenKind::Number, "7", 1, 20, 21),
            token(TokenKind::Identifier, "e", 1, 21, 22),
            token(TokenKind::Number, "8.", 1, 23, 25),
        ]
    );
}

#[test]
fn punctuation_prefers_the_longer_token() {
    assert_eq!(
        kinds(", ; ( ) . * = <> <= >= < > :: <>="),
        vec![
            TokenKind::Comma,
            TokenKind::Semicolon,
            TokenKind::LeftParen,
            TokenKind::RightParen,
            TokenKind::Period,
            TokenKind::Star,
            TokenKind::Equals,
            TokenKind::NotEquals,
            TokenKind::LessEq,
            TokenKind::GreaterEq,
            TokenKind::Less,
            TokenKind::Greater,
            TokenKind::DoubleColon,
            TokenKind::NotEquals,
            TokenKind::Equals,
        ]
    );
}

#[test]
fn comments_are_skipped_and_count_for_positions() {
    assert_eq!(
        tokenize("-- first\na /* x /* nested */ y */ b\n/* over\nlines */ c").unwrap(),
        vec![
            token(TokenKind::Identifier, "a", 2, 0, 1),
            token(TokenKind::Identifier, "b", 2, 25, 26),
            token(TokenKind::Identifier, "c", 4, 9, 10),
        ]
    );
    assert_eq!(tokenize("").unwrap(), vec![]);
    assert_eq!(tokenize("  -- only a comment").unwrap(), vec![]);
}

#[test]
fn invalid_character_is_a_lexical_error() {
    assert_eq!(
        tokenize("select 1;\n  a ? b"),
        Err(LexicalError { line: "  a ? b".to_string(), line_number: 2, start: 4, end: 5 })
    );
    assert_eq!(
        tokenize("a : b"),
        Err(LexicalError { line: "a : b".to_string(), line_number: 1, start: 2, end: 3 })
    );
}

#[test]
fn unterminated_constructs_are_lexical_errors() {
    assert_eq!(
        tokenize("x 'abc\ndef"),
        Err(LexicalError { line: "x 'abc".to_string(), line_number: 1, start: 2, end: 6 })
    );
    assert_eq!(
        tokenize("a\n /* b /* c */ d"),
        Err(LexicalError { line: " /* b /* c */ d".to_string(), line_number: 2, start: 1, end: 15 })
    );
    assert_eq!(
        tokenize("\"abc"),
        Err(LexicalError { line: "\"abc".to_string(), line_number: 1, start: 0, end: 4 })
    );
    assert_eq!(
        tokenize("\"\""),
        Err(LexicalError { line: "\"\"".to_string(), line_number: 1, start: 0, end: 1 })
    );
    assert_eq!(
        tokenize("$tag$ body $other$"),
        Err(LexicalError { line: "$tag$ body $other$".to_string(), line_number: 1, start: 0, end: 18 })
    );
    assert_eq!(
        tokenize("$1"),
        Err(LexicalError { line: "$1".to_string(), line_number: 1, start: 0, end: 1 })
    );
}

#[test]
fn every_reserved_word_is_a_keyword_in_any_case() {
    for word in [
        "CREATE", "TABLE", "SCHEMA", "FUNCTION", "RETURNS", "LANGUAGE", "AS", "PRIMARY", "FOREIGN", "KEY",
        "REFERENCES", "UNIQUE", "CHECK", "NOT", "NULL", "DEFAULT", "ON", "DELETE", "UPDATE", "CASCADE",
        "RESTRICT", "NO", "ACTION", "SET", "TYPE", "ENUM", "EXTENSION", "WITH",
    ] {
        for source in [word.to_string(), word.to_lowercase()] {
            let tokens = tokenize(&source).unwrap();
            assert_eq!(tokens.len(), 1);
            assert!(matches!(tokens[0].kind, TokenKind::Keyword(_)), "{}", source);
            assert_eq!(tokens[0].text, word.to_lowercase());
        }
    }
    assert_eq!(kinds("creates tables"), vec![TokenKind::Identifier, TokenKind::Identifier]);
    assert_eq!(Keyword::CREATE.name(), "create");
}

#[test]
fn tokens_describe_themselves() {
    let tokens = tokenize("users , 'x' 12 create").unwrap();
    let described: Vec<String> = tokens.iter().map(|t| t.describe()).collect();
    assert_eq!(
        described,
        vec!["Identifier(users)", "Comma", "StringLiteral(x)", "Number(12)", "Keyword(create)"]
    );
}

#[test]
fn tokens_are_written_with_a_blank_behind_each() {
    let tokens = tokenize("CREATE TABLE \"My Table\"(id INT DEFAULT 1.5e3, note text DEFAULT $x$it's$x$);").unwrap();
    assert_eq!(
        psqlpack::sql::readback::write_tokens(&tokens),
        "create table \"My Table\" ( id int default 1.5e3 , note text default 'it''s' ) ; "
    );
    assert_eq!(psqlpack::sql::readback::write_tokens(&vec![]), "");
}

#[test]
fn written_tokens_are_read_back() {
    for source in [
        "",
        "CREATE TABLE Users (Id INT NOT NULL, Name VARCHAR(100));",
        "a<>b<=c>=d<e>f=g::h.*",
        "\"create\" \"x\" \"With Blank\" \"a.b\" x1 _y",
        "'' 'a''b' '''' $$ $$ $tag$ body $ $tag$ $q$'$q$",
        "1 1. 1.5 1e5 1e+5 1E-7 1ex 1.e 2e 12.34e56x 7..8",
        "select /* a /* nested */ comment */ 1 -- to the end\n, 2",
        "CREATE FUNCTION f(a int) RETURNS int LANGUAGE sql AS 'select a' IMMUTABLE;",
    ] {
        let tokens = tokenize(source).unwrap();
        let written = psqlpack::sql::readback::write_tokens(&tokens);
        let again = tokenize(&written).unwrap();
        assert_eq!(again.len(), tokens.len(), "{}", source);
        for (a, b) in again.iter().zip(tokens.iter()) {
            assert_eq!(a.kind, b.kind, "{}", source);
            assert_eq!(a.text, b.text, "{}", source);
        }
        assert_eq!(psqlpack::sql::readback::write_tokens(&again), written, "{}", source);
    }
}

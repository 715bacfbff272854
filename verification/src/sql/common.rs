//! What the parsers of the grammar share: the result of a parser, what was
//! expected where one fails, and the parsers of names.

use vstd::prelude::*;
use crate::ast::{NameView, ObjectName};
use crate::lexer::{token_views, Keyword, Token, TokenKind, TokenView};
use crate::text::{char_views, chars_of, push_chars, split, split_spec, views};

verus! {

/// What a parser makes of the tokens from a position on: a value and the
/// position behind what it read, or the position of the token that it
/// could not take and what could have stood there.
pub enum Parsed<V> {
    Done(V, int),
    Fail(int, Seq<Seq<char>>),
}

/// Where a parser failed, and what could have stood there.
#[derive(Debug)]
pub struct Failure {
    pub at: usize,
    pub expected: Vec<String>,
}

/// The words of `list`, which separates them by bars.
pub open spec fn words(list: Seq<char>) -> Seq<Seq<char>> {
    split_spec(list, '|')
}

/// A failure at `at`, where one of the words of `list` was expected.
pub fn fail<T>(at: usize, list: &str) -> (r: Result<T, Failure>)
    ensures
        r matches Err(f) && f.at == at && views(f.expected@) == words(list@),
{
    let parts = split(&chars_of(list), '|');
    let mut expected: Vec<String> = Vec::new();
    let mut i: usize = 0;
    while i < parts.len()
        invariant
            i <= parts.len(),
            expected.len() == i,
            forall|k: int| 0 <= k < i ==> (#[trigger] expected@[k])@ == parts@[k]@,
        decreases parts.len() - i,
    {
        let mut s = String::new();
        push_chars(&mut s, &parts[i]);
        assert(Seq::<char>::empty() + parts@[i as int]@ =~= parts@[i as int]@);
        expected.push(s);
        i += 1;
    }
    assert(views(expected@) =~= char_views(parts@));
    Err(Failure { at, expected })
}

/// The kind of the token at `i`, if there is one.
pub open spec fn kind_at(ts: Seq<TokenView>, i: int) -> Option<TokenKind> {
    if 0 <= i < ts.len() {
        Some(ts[i].kind)
    } else {
        None
    }
}

/// The token at `i` is of the kind `k`.
pub open spec fn is_kind(ts: Seq<TokenView>, i: int, k: TokenKind) -> bool {
    kind_at(ts, i) == Some(k)
}

/// The token at `i` is the reserved word `k`.
pub open spec fn is_kw(ts: Seq<TokenView>, i: int, k: Keyword) -> bool {
    kind_at(ts, i) == Some(TokenKind::Keyword(k))
}

/// The token at `i` is an identifier with the text `t`.
pub open spec fn is_word(ts: Seq<TokenView>, i: int, t: Seq<char>) -> bool {
    is_kind(ts, i, TokenKind::Identifier) && ts[i].text == t
}

/// Whether the token at `i` is of the kind `k`.
pub fn at_kind(ts: &Vec<Token>, i: usize, k: TokenKind) -> (r: bool)
    ensures
        r == is_kind(token_views(ts@), i as int, k),
{
    i < ts.len() && ts[i].kind == k
}

/// Whether the token at `i` is the reserved word `k`.
pub fn at_kw(ts: &Vec<Token>, i: usize, k: Keyword) -> (r: bool)
    ensures
        r == is_kw(token_views(ts@), i as int, k),
{
    i < ts.len() && ts[i].kind == TokenKind::Keyword(k)
}

/// Whether the token at `i` is an identifier with the text `t`.
pub fn at_word(ts: &Vec<Token>, i: usize, t: &str) -> (r: bool)
    ensures
        r == is_word(token_views(ts@), i as int, t@),
{
    i < ts.len() && ts[i].kind == TokenKind::Identifier && crate::text::chars_eq(
        &chars_of(ts[i].text.as_str()),
        &chars_of(t),
    )
}

/// The text of the token at `i`, which there is.
pub fn text_at(ts: &Vec<Token>, i: usize) -> (r: String)
    requires
        i < ts.len(),
    ensures
        r@ == token_views(ts@)[i as int].text,
{
    ts[i].text.clone()
}

/// An identifier.
pub open spec fn p_ident(ts: Seq<TokenView>, i: int) -> Parsed<Seq<char>> {
    if is_kind(ts, i, TokenKind::Identifier) {
        Parsed::Done(ts[i].text, i + 1)
    } else {
        Parsed::Fail(i, words("identifier"@))
    }
}

/// An identifier.
pub fn ident(ts: &Vec<Token>, i: usize) -> (r: Result<(String, usize), Failure>)
    requires
        i <= ts.len(),
    ensures
        match r {
            Ok((v, j)) => p_ident(token_views(ts@), i as int) == Parsed::Done(v@, j as int) && i < j
                <= ts.len(),
            Err(f) => p_ident(token_views(ts@), i as int) == Parsed::<Seq<char>>::Fail(
                f.at as int,
                views(f.expected@),
            ) && i <= f.at <= ts.len(),
        },
{
    if at_kind(ts, i, TokenKind::Identifier) {
        Ok((text_at(ts, i), i + 1))
    } else {
        fail(i, "identifier")
    }
}

/// A token of the kind `k`, of which `list` says how it is written.
pub open spec fn p_token(ts: Seq<TokenView>, i: int, k: TokenKind, list: Seq<char>) -> Parsed<()> {
    if is_kind(ts, i, k) {
        Parsed::Done((), i + 1)
    } else {
        Parsed::Fail(i, words(list))
    }
}

/// A token of the kind `k`.
pub fn token(ts: &Vec<Token>, i: usize, k: TokenKind, list: &str) -> (r: Result<usize, Failure>)
    requires
        i <= ts.len(),
    ensures
        match r {
            Ok(j) => p_token(token_views(ts@), i as int, k, list@) == Parsed::Done((), j as int) && j == i
                + 1 && j <= ts.len(),
            Err(f) => p_token(token_views(ts@), i as int, k, list@) == Parsed::<()>::Fail(
                f.at as int,
                views(f.expected@),
            ) && f.at == i,
        },
{
    if at_kind(ts, i, k) {
        Ok(i + 1)
    } else {
        fail(i, list)
    }
}

/// A name: an identifier, or a schema, a point and an identifier.
pub open spec fn p_name(ts: Seq<TokenView>, i: int) -> Parsed<NameView> {
    match p_ident(ts, i) {
        Parsed::Fail(at, e) => Parsed::Fail(at, e),
        Parsed::Done(first, j) => if is_kind(ts, j, TokenKind::Period) {
            match p_ident(ts, j + 1) {
                Parsed::Fail(at, e) => Parsed::Fail(at, e),
                Parsed::Done(second, k) => Parsed::Done(NameView { schema: Some(first), name: second }, k),
            }
        } else {
            Parsed::Done(NameView { schema: None, name: first }, j)
        },
    }
}

/// A name: an identifier, or a schema, a point and an identifier.
pub fn name(ts: &Vec<Token>, i: usize) -> (r: Result<(ObjectName, usize), Failure>)
    requires
        i <= ts.len(),
    ensures
        match r {
            Ok((v, j)) => p_name(token_views(ts@), i as int) == Parsed::Done(v@, j as int) && i < j
                <= ts.len(),
            Err(f) => p_name(token_views(ts@), i as int) == Parsed::<NameView>::Fail(
                f.at as int,
                views(f.expected@),
            ) && i <= f.at <= ts.len(),
        },
{
    match ident(ts, i) {
        Err(f) => Err(f),
        Ok((first, j)) => {
            if at_kind(ts, j, TokenKind::Period) {
                match ident(ts, j + 1) {
                    Err(f) => Err(f),
                    Ok((second, k)) => Ok((ObjectName { schema: Some(first), name: second }, k)),
                }
            } else {
                Ok((ObjectName { schema: None, name: first }, j))
            }
        },
    }
}

/// Identifiers with commas between them, and a closing bracket behind the
/// last; `done` holds those before `i`.
pub open spec fn p_idents(ts: Seq<TokenView>, i: int, done: Seq<Seq<char>>) -> Parsed<Seq<Seq<char>>>
    decreases ts.len() - i,
{
    if !is_kind(ts, i, TokenKind::Identifier) {
        Parsed::Fail(i, words("identifier"@))
    } else if is_kind(ts, i + 1, TokenKind::Comma) {
        p_idents(ts, i + 2, done.push(ts[i].text))
    } else if is_kind(ts, i + 1, TokenKind::RightParen) {
        Parsed::Done(done.push(ts[i].text), i + 2)
    } else {
        Parsed::Fail(i + 1, words(",|)"@))
    }
}

/// A list of identifiers in round brackets, with commas between them.
pub open spec fn p_ident_list(ts: Seq<TokenView>, i: int) -> Parsed<Seq<Seq<char>>> {
    if is_kind(ts, i, TokenKind::LeftParen) {
        p_idents(ts, i + 1, Seq::empty())
    } else {
        Parsed::Fail(i, words("("@))
    }
}

/// A list of identifiers in round brackets, with commas between them.
pub fn ident_list(ts: &Vec<Token>, i: usize) -> (r: Result<(Vec<String>, usize), Failure>)
    requires
        i <= ts.len(),
    ensures
        match r {
            Ok((v, j)) => p_ident_list(token_views(ts@), i as int) == Parsed::Done(views(v@), j as int)
                && i < j <= ts.len(),
            Err(f) => p_ident_list(token_views(ts@), i as int) == Parsed::<Seq<Seq<char>>>::Fail(
                f.at as int,
                views(f.expected@),
            ) && i <= f.at <= ts.len(),
        },
{
    let ghost tv = token_views(ts@);
    if !at_kind(ts, i, TokenKind::LeftParen) {
        return fail(i, "(");
    }
    let mut list: Vec<String> = Vec::new();
    let mut j = i + 1;
    assert(views(list@) =~= Seq::empty());
    loop
        invariant
            i < j <= ts.len(),
            tv == token_views(ts@),
            p_ident_list(tv, i as int) == p_idents(tv, j as int, views(list@)),
        decreases ts.len() - j,
    {
        if !at_kind(ts, j, TokenKind::Identifier) {
            return fail(j, "identifier");
        }
        let ghost before = views(list@);
        list.push(text_at(ts, j));
        assert(views(list@) =~= before.push(tv[j as int].text));
        if at_kind(ts, j + 1, TokenKind::Comma) {
            j += 2;
        } else if at_kind(ts, j + 1, TokenKind::RightParen) {
            return Ok((list, j + 2));
        } else {
            return fail(j + 1, ",|)");
        }
    }
}

} // verus!

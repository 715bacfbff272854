//! Expressions: the text of a default or of a check is kept as its tokens
//! say it, and not looked into.

use vstd::prelude::*;
use vstd::string::StringExecFns;
use crate::lexer::{
    find_keyword, ident_part, ident_start, is_ident_part, is_ident_start, keyword_of, token_views,
    Keyword, Token, TokenKind, TokenView,
};
use crate::sql::common::{at_kind, fail, is_kind, words, Failure, Parsed};
use crate::text::{ascii_lower, chars_of, lower, views};

verus! {

/// A column option can start with a token of this kind.
pub open spec fn is_option_start(k: TokenKind) -> bool {
    k == TokenKind::Keyword(Keyword::NOT) || k == TokenKind::Keyword(Keyword::NULL) || k
        == TokenKind::Keyword(Keyword::DEFAULT) || k == TokenKind::Keyword(Keyword::PRIMARY) || k
        == TokenKind::Keyword(Keyword::UNIQUE) || k == TokenKind::Keyword(Keyword::REFERENCES) || k
        == TokenKind::Keyword(Keyword::CHECK) || k == TokenKind::Keyword(Keyword::CONSTRAINT) || k
        == TokenKind::Keyword(Keyword::GENERATED)
}

/// Whether a column option can start with a token of this kind.
pub fn option_start(k: TokenKind) -> (r: bool)
    ensures
        r == is_option_start(k),
{
    match k {
        TokenKind::Keyword(w) => match w {
            Keyword::NOT => true,
            Keyword::NULL => true,
            Keyword::DEFAULT => true,
            Keyword::PRIMARY => true,
            Keyword::UNIQUE => true,
            Keyword::REFERENCES => true,
            Keyword::CHECK => true,
            Keyword::CONSTRAINT => true,
            Keyword::GENERATED => true,
            _ => false,
        },
        _ => false,
    }
}

/// Where the expression that starts at `start` ends: before the first
/// comma or closing bracket that is in no bracket of its own, before a
/// semicolon, and, behind its first token, before what can start a column
/// option and is in no bracket.
pub open spec fn expr_end(ts: Seq<TokenView>, i: int, depth: nat, first: bool) -> int
    decreases ts.len() - i,
{
    if i < 0 || i >= ts.len() {
        i
    } else if ts[i].kind == TokenKind::Semicolon {
        i
    } else if ts[i].kind == TokenKind::Comma {
        if depth == 0 {
            i
        } else {
            expr_end(ts, i + 1, depth, false)
        }
    } else if ts[i].kind == TokenKind::RightParen {
        if depth == 0 {
            i
        } else {
            expr_end(ts, i + 1, (depth - 1) as nat, false)
        }
    } else if ts[i].kind == TokenKind::LeftParen {
        expr_end(ts, i + 1, depth + 1, false)
    } else if depth == 0 && !first && is_option_start(ts[i].kind) {
        i
    } else {
        expr_end(ts, i + 1, depth, false)
    }
}

/// Where the bracket that was opened before `i` is closed: at the first
/// closing bracket that closes no bracket opened in between. A semicolon
/// ends the search.
pub open spec fn paren_end(ts: Seq<TokenView>, i: int, depth: nat) -> int
    decreases ts.len() - i,
{
    if i < 0 || i >= ts.len() {
        i
    } else if ts[i].kind == TokenKind::Semicolon {
        i
    } else if ts[i].kind == TokenKind::RightParen {
        if depth == 0 {
            i
        } else {
            paren_end(ts, i + 1, (depth - 1) as nat)
        }
    } else if ts[i].kind == TokenKind::LeftParen {
        paren_end(ts, i + 1, depth + 1)
    } else {
        paren_end(ts, i + 1, depth)
    }
}

/// `s` with each single quote twice.
pub open spec fn doubled(s: Seq<char>) -> Seq<char>
    decreases s.len(),
{
    if s.len() == 0 {
        Seq::empty()
    } else if s.last() == '\'' {
        doubled(s.drop_last()).push('\'').push('\'')
    } else {
        doubled(s.drop_last()).push(s.last())
    }
}

/// `s` as a string literal: within single quotes, each single quote of its
/// own twice.
pub open spec fn quoted(s: Seq<char>) -> Seq<char> {
    seq!['\''] + doubled(s) + seq!['\'']
}

/// Every character of `s` can stand in an identifier without quotes.
pub open spec fn all_plain(s: Seq<char>) -> bool {
    forall|k: int| 0 <= k < s.len() ==> is_ident_part(#[trigger] s[k]) && ascii_lower(s[k]) == s[k]
}

/// `s` can be written as an identifier without quotes: it starts as an
/// identifier does, holds only lower-case letters, digits and underscores,
/// and is no reserved word.
pub open spec fn is_plain(s: Seq<char>) -> bool {
    s.len() > 0 && is_ident_start(s[0]) && all_plain(s) && keyword_of(s) is None
}

/// `s` as an identifier: as it is where it needs no quotes, else within
/// double quotes.
pub open spec fn identifier(s: Seq<char>) -> Seq<char> {
    if is_plain(s) {
        s
    } else {
        seq!['"'] + s + seq!['"']
    }
}

/// How a token is written in the text of an expression.
pub open spec fn render(t: TokenView) -> Seq<char> {
    match t.kind {
        TokenKind::StringLiteral => quoted(t.text),
        TokenKind::Identifier => identifier(t.text),
        _ => t.text,
    }
}

/// The token `b` follows the token `a` with nothing between them.
pub open spec fn adjacent(a: TokenView, b: TokenView) -> bool {
    a.line == b.line && a.end == b.start
}

/// The text of the tokens from `i` up to `j`: each as [`render`] writes it,
/// with one blank between two that do not touch.
pub open spec fn expr_text(ts: Seq<TokenView>, i: int, j: int) -> Seq<char>
    decreases j - i,
{
    if j <= i {
        Seq::empty()
    } else if j == i + 1 {
        render(ts[i])
    } else {
        expr_text(ts, i, j - 1) + (if adjacent(ts[j - 2], ts[j - 1]) {
            Seq::empty()
        } else {
            seq![' ']
        }) + render(ts[j - 1])
    }
}

/// An expression: one token at least, up to where [`expr_end`] says.
pub open spec fn p_expr(ts: Seq<TokenView>, i: int) -> Parsed<Seq<char>> {
    let j = expr_end(ts, i, 0, true);
    if j > i {
        Parsed::Done(expr_text(ts, i, j), j)
    } else {
        Parsed::Fail(i, words("expression"@))
    }
}

/// An expression in round brackets: one token at least between the
/// opening bracket and the one that closes it.
pub open spec fn p_paren_expr(ts: Seq<TokenView>, i: int) -> Parsed<Seq<char>> {
    if !is_kind(ts, i, TokenKind::LeftParen) {
        Parsed::Fail(i, words("("@))
    } else {
        let c = paren_end(ts, i + 1, 0);
        if c <= i + 1 {
            Parsed::Fail(i + 1, words("expression"@))
        } else if is_kind(ts, c, TokenKind::RightParen) {
            Parsed::Done(expr_text(ts, i + 1, c), c + 1)
        } else {
            Parsed::Fail(c, words(")"@))
        }
    }
}

/// Appends `s` as a string literal.
pub fn push_quoted(out: &mut String, s: &str)
    ensures
        final(out)@ == old(out)@ + quoted(s@),
{
    let chars = chars_of(s);
    out.push('\'');
    let ghost head = out@;
    let mut i: usize = 0;
    assert(out@ =~= head + doubled(chars@.take(0)));
    while i < chars.len()
        invariant
            i <= chars.len(),
            out@ == head + doubled(chars@.take(i as int)),
        decreases chars.len() - i,
    {
        proof {
            assert(chars@.take(i + 1).drop_last() =~= chars@.take(i as int));
        }
        if chars[i] == '\'' {
            out.push('\'');
            out.push('\'');
        } else {
            out.push(chars[i]);
        }
        proof {
            assert(out@ =~= head + doubled(chars@.take(i + 1)));
        }
        i += 1;
    }
    proof {
        assert(chars@.take(i as int) =~= chars@);
    }
    out.push('\'');
    proof {
        assert(out@ =~= old(out)@ + quoted(s@));
    }
}

/// Whether `s` can be written as an identifier without quotes.
pub fn plain(s: &str) -> (r: bool)
    ensures
        r == is_plain(s@),
{
    let chars = chars_of(s);
    if chars.len() == 0 || !ident_start(chars[0]) {
        return false;
    }
    let mut i: usize = 0;
    while i < chars.len()
        invariant
            i <= chars.len(),
            chars@ == s@,
            forall|k: int| 0 <= k < i ==> is_ident_part(#[trigger] chars@[k]) && ascii_lower(chars@[k])
                == chars@[k],
        decreases chars.len() - i,
    {
        if !ident_part(chars[i]) || lower(chars[i]) != chars[i] {
            assert(!(is_ident_part(s@[i as int]) && ascii_lower(s@[i as int]) == s@[i as int]));
            return false;
        }
        i += 1;
    }
    find_keyword(&chars).is_none()
}

/// Appends `s` as an identifier.
pub fn push_identifier(out: &mut String, s: &str)
    ensures
        final(out)@ == old(out)@ + identifier(s@),
{
    if plain(s) {
        out.append(s);
    } else {
        out.push('"');
        out.append(s);
        out.push('"');
        proof {
            assert(out@ =~= old(out)@ + identifier(s@));
        }
    }
}

/// Appends the token as it is written in the text of an expression.
pub fn push_rendered(out: &mut String, t: &Token)
    ensures
        final(out)@ == old(out)@ + render(t@),
{
    match t.kind {
        TokenKind::StringLiteral => {
            push_quoted(out, t.text.as_str());
        },
        TokenKind::Identifier => {
            push_identifier(out, t.text.as_str());
        },
        _ => {
            out.append(t.text.as_str());
        },
    }
}

/// The text of the tokens from `i` up to `j`.
pub fn expression_text(ts: &Vec<Token>, i: usize, j: usize) -> (r: String)
    requires
        i <= j <= ts.len(),
    ensures
        r@ == expr_text(token_views(ts@), i as int, j as int),
{
    let ghost tv = token_views(ts@);
    let mut out = String::new();
    let mut k = i;
    while k < j
        invariant
            i <= k <= j <= ts.len(),
            tv == token_views(ts@),
            out@ == expr_text(tv, i as int, k as int),
        decreases j - k,
    {
        let ghost before = out@;
        if k > i && !(ts[k - 1].line == ts[k].line && ts[k - 1].end == ts[k].start) {
            out.push(' ');
        }
        push_rendered(&mut out, &ts[k]);
        proof {
            if k == i {
                assert(before + render(tv[k as int]) =~= render(tv[k as int]));
            } else {
                assert(out@ =~= expr_text(tv, i as int, k + 1));
            }
        }
        k += 1;
    }
    out
}

/// Where the expression that starts at `i` ends.
fn expression_end(ts: &Vec<Token>, i: usize) -> (r: usize)
    requires
        i <= ts.len(),
    ensures
        r == expr_end(token_views(ts@), i as int, 0, true),
        i <= r <= ts.len(),
{
    let ghost tv = token_views(ts@);
    let mut k = i;
    let mut depth: usize = 0;
    let mut first = true;
    while k < ts.len()
        invariant
            i <= k <= ts.len(),
            depth <= k,
            tv == token_views(ts@),
            expr_end(tv, i as int, 0, true) == expr_end(tv, k as int, depth as nat, first),
        decreases ts.len() - k,
    {
        let kind = ts[k].kind;
        match kind {
            TokenKind::Semicolon => {
                return k;
            },
            TokenKind::Comma => {
                if depth == 0 {
                    return k;
                }
            },
            TokenKind::RightParen => {
                if depth == 0 {
                    return k;
                }
                depth -= 1;
            },
            TokenKind::LeftParen => {
                depth += 1;
            },
            _ => {
                if depth == 0 && !first && option_start(kind) {
                    return k;
                }
            },
        }
        first = false;
        k += 1;
    }
    k
}

/// Where the bracket that was opened before `i` is closed.
fn closing(ts: &Vec<Token>, i: usize) -> (r: usize)
    requires
        i <= ts.len(),
    ensures
        r == paren_end(token_views(ts@), i as int, 0),
        i <= r <= ts.len(),
{
    let ghost tv = token_views(ts@);
    let mut k = i;
    let mut depth: usize = 0;
    while k < ts.len()
        invariant
            i <= k <= ts.len(),
            depth <= k,
            tv == token_views(ts@),
            paren_end(tv, i as int, 0) == paren_end(tv, k as int, depth as nat),
        decreases ts.len() - k,
    {
        match ts[k].kind {
            TokenKind::Semicolon => {
                return k;
            },
            TokenKind::RightParen => {
                if depth == 0 {
                    return k;
                }
                depth -= 1;
            },
            TokenKind::LeftParen => {
                depth += 1;
            },
            _ => {},
        }
        k += 1;
    }
    k
}

/// An expression.
pub fn expr(ts: &Vec<Token>, i: usize) -> (r: Result<(String, usize), Failure>)
    requires
        i <= ts.len(),
    ensures
        match r {
            Ok((v, j)) => p_expr(token_views(ts@), i as int) == Parsed::Done(v@, j as int) && i < j
                <= ts.len(),
            Err(f) => p_expr(token_views(ts@), i as int) == Parsed::<Seq<char>>::Fail(
                f.at as int,
                views(f.expected@),
            ) && i <= f.at <= ts.len(),
        },
{
    let j = expression_end(ts, i);
    if j > i {
        Ok((expression_text(ts, i, j), j))
    } else {
        fail(i, "expression")
    }
}

/// An expression in round brackets.
pub fn paren_expr(ts: &Vec<Token>, i: usize) -> (r: Result<(String, usize), Failure>)
    requires
        i <= ts.len(),
    ensures
        match r {
            Ok((v, j)) => p_paren_expr(token_views(ts@), i as int) == Parsed::Done(v@, j as int) && i < j
                <= ts.len(),
            Err(f) => p_paren_expr(token_views(ts@), i as int) == Parsed::<Seq<char>>::Fail(
                f.at as int,
                views(f.expected@),
            ) && i <= f.at <= ts.len(),
        },
{
    if !at_kind(ts, i, TokenKind::LeftParen) {
        return fail(i, "(");
    }
    let c = closing(ts, i + 1);
    if c <= i + 1 {
        fail(i + 1, "expression")
    } else if at_kind(ts, c, TokenKind::RightParen) {
        Ok((expression_text(ts, i + 1, c), c + 1))
    } else {
        fail(c, ")")
    }
}

} // verus!

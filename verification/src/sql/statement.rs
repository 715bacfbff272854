//! The parser of statements, and of a whole source file.

use vstd::prelude::*;
use crate::ast::{
    ExtensionDefinition, FieldView, FunctionArgument, FunctionDefinition, FunctionView, KindView,
    SchemaDefinition, Statement, StatementView, TypeDefinition, TypeDefinitionKind,
    TypeDefinitionView, TypeField, TypeView, Volatility,
};
use crate::errors::ParseError;
use crate::lexer::{token_views, Keyword, Token, TokenKind, TokenView};
use crate::sql::common::{
    at_kind, at_kw, fail, ident, is_kind, is_kw, name, p_ident, p_name, text_at, words, Failure,
    Parsed,
};
use crate::sql::expr::{p_paren_expr, paren_expr};
use crate::sql::table::{p_table, table};
use crate::sql::types::{p_type, sql_type};
use crate::text::views;

verus! {

/// Names with their types from `i` on, with commas between them and a
/// closing bracket behind the last; `done` holds those before `i`.
pub open spec fn p_fields(ts: Seq<TokenView>, i: int, done: Seq<FieldView>) -> Parsed<Seq<FieldView>>
    decreases ts.len() - i,
{
    match p_ident(ts, i) {
        Parsed::Fail(at, e) => Parsed::Fail(at, e),
        Parsed::Done(n, j) => match p_type(ts, j) {
            Parsed::Fail(at, e) => Parsed::Fail(at, e),
            Parsed::Done(t, k) => if is_kind(ts, k, TokenKind::Comma) && i <= k {
                p_fields(ts, k + 1, done.push(FieldView { name: n, sql_type: t }))
            } else if is_kind(ts, k, TokenKind::RightParen) {
                Parsed::Done(done.push(FieldView { name: n, sql_type: t }), k + 1)
            } else {
                Parsed::Fail(k, words(",|)"@))
            },
        },
    }
}

/// One name with its type, and the position behind it.
fn field(ts: &Vec<Token>, i: usize) -> (r: Result<(String, crate::ast::SqlType, usize), Failure>)
    requires
        i <= ts.len(),
    ensures
        match r {
            Ok((n, t, k)) => {
                &&& i < k <= ts.len()
                &&& p_ident(token_views(ts@), i as int) matches Parsed::Done(n2, j)
                &&& n2 == n@
                &&& p_type(token_views(ts@), j) == Parsed::Done(t@, k as int)
            },
            Err(f) => i <= f.at <= ts.len() && match p_ident(token_views(ts@), i as int) {
                Parsed::Fail(at, e) => at == f.at && e == views(f.expected@),
                Parsed::Done(_, j) => p_type(token_views(ts@), j) == Parsed::<TypeView>::Fail(
                    f.at as int,
                    views(f.expected@),
                ),
            },
        },
{
    match ident(ts, i) {
        Err(f) => Err(f),
        Ok((n, j)) => match sql_type(ts, j) {
            Err(f) => Err(f),
            Ok((t, k)) => Ok((n, t, k)),
        },
    }
}

/// The views of a list of arguments.
pub open spec fn argument_views(a: Seq<FunctionArgument>) -> Seq<FieldView> {
    a.map_values(|x: FunctionArgument| x@)
}

/// The views of a list of fields.
pub open spec fn field_views(a: Seq<TypeField>) -> Seq<FieldView> {
    a.map_values(|x: TypeField| x@)
}

/// The arguments of a function from `i` on, with a closing bracket behind
/// the last.
pub fn arguments(ts: &Vec<Token>, i: usize) -> (r: Result<(Vec<FunctionArgument>, usize), Failure>)
    requires
        i <= ts.len(),
    ensures
        match r {
            Ok((v, j)) => p_fields(token_views(ts@), i as int, Seq::empty()) == Parsed::Done(
                argument_views(v@),
                j as int,
            ) && i < j <= ts.len(),
            Err(f) => p_fields(token_views(ts@), i as int, Seq::empty()) == Parsed::<Seq<FieldView>>::Fail(
                f.at as int,
                views(f.expected@),
            ) && i <= f.at <= ts.len(),
        },
{
    let ghost tv = token_views(ts@);
    let mut list: Vec<FunctionArgument> = Vec::new();
    let mut k = i;
    assert(argument_views(list@) =~= Seq::empty());
    loop
        invariant
            i <= k <= ts.len(),
            tv == token_views(ts@),
            p_fields(tv, i as int, Seq::empty()) == p_fields(tv, k as int, argument_views(list@)),
        decreases ts.len() - k,
    {
        let ghost before = argument_views(list@);
        let (n, t, m) = match field(ts, k) {
            Err(f) => {
                return Err(f);
            },
            Ok(x) => x,
        };
        let a = FunctionArgument { name: n, sql_type: t };
        list.push(a);
        assert(argument_views(list@) =~= before.push(a@));
        if at_kind(ts, m, TokenKind::Comma) {
            k = m + 1;
        } else if at_kind(ts, m, TokenKind::RightParen) {
            return Ok((list, m + 1));
        } else {
            return fail(m, ",|)");
        }
    }
}

/// The fields of a composite type from `i` on, with a closing bracket
/// behind the last.
pub fn fields(ts: &Vec<Token>, i: usize) -> (r: Result<(Vec<TypeField>, usize), Failure>)
    requires
        i <= ts.len(),
    ensures
        match r {
            Ok((v, j)) => p_fields(token_views(ts@), i as int, Seq::empty()) == Parsed::Done(
                field_views(v@),
                j as int,
            ) && i < j <= ts.len(),
            Err(f) => p_fields(token_views(ts@), i as int, Seq::empty()) == Parsed::<Seq<FieldView>>::Fail(
                f.at as int,
                views(f.expected@),
            ) && i <= f.at <= ts.len(),
        },
{
    let ghost tv = token_views(ts@);
    let mut list: Vec<TypeField> = Vec::new();
    let mut k = i;
    assert(field_views(list@) =~= Seq::empty());
    loop
        invariant
            i <= k <= ts.len(),
            tv == token_views(ts@),
            p_fields(tv, i as int, Seq::empty()) == p_fields(tv, k as int, field_views(list@)),
        decreases ts.len() - k,
    {
        let ghost before = field_views(list@);
        let (n, t, m) = match field(ts, k) {
            Err(f) => {
                return Err(f);
            },
            Ok(x) => x,
        };
        let a = TypeField { name: n, sql_type: t };
        list.push(a);
        assert(field_views(list@) =~= before.push(a@));
        if at_kind(ts, m, TokenKind::Comma) {
            k = m + 1;
        } else if at_kind(ts, m, TokenKind::RightParen) {
            return Ok((list, m + 1));
        } else {
            return fail(m, ",|)");
        }
    }
}

/// What stands behind the result type of a function.
pub struct Clauses {
    pub body: Option<String>,
    pub language: Option<String>,
    pub volatility: Option<Volatility>,
}

/// The clauses of a function as contracts see them.
pub struct ClausesView {
    pub body: Option<Seq<char>>,
    pub language: Option<Seq<char>>,
    pub volatility: Option<Volatility>,
}

impl View for Clauses {
    type V = ClausesView;

    open spec fn view(&self) -> ClausesView {
        ClausesView {
            body: match self.body {
                Some(b) => Some(b@),
                None => None,
            },
            language: match self.language {
                Some(l) => Some(l@),
                None => None,
            },
            volatility: self.volatility,
        }
    }
}

/// The clauses of a function from `i` on, in any order: `AS` with the body
/// as a string, `LANGUAGE` with a name, and how far the result may be
/// assumed to stay the same. A later clause replaces an earlier one of its
/// kind.
pub open spec fn p_clauses(ts: Seq<TokenView>, i: int, c: ClausesView) -> Parsed<ClausesView>
    decreases ts.len() - i,
{
    if is_kw(ts, i, Keyword::AS) {
        if is_kind(ts, i + 1, TokenKind::StringLiteral) {
            p_clauses(ts, i + 2, ClausesView { body: Some(ts[i + 1].text), ..c })
        } else {
            Parsed::Fail(i + 1, words("string"@))
        }
    } else if is_kw(ts, i, Keyword::LANGUAGE) {
        if is_kind(ts, i + 1, TokenKind::Identifier) {
            p_clauses(ts, i + 2, ClausesView { language: Some(ts[i + 1].text), ..c })
        } else {
            Parsed::Fail(i + 1, words("identifier"@))
        }
    } else if is_kw(ts, i, Keyword::IMMUTABLE) {
        p_clauses(ts, i + 1, ClausesView { volatility: Some(Volatility::Immutable), ..c })
    } else if is_kw(ts, i, Keyword::STABLE) {
        p_clauses(ts, i + 1, ClausesView { volatility: Some(Volatility::Stable), ..c })
    } else if is_kw(ts, i, Keyword::VOLATILE) {
        p_clauses(ts, i + 1, ClausesView { volatility: Some(Volatility::Volatile), ..c })
    } else {
        Parsed::Done(c, i)
    }
}

/// The clauses of a function from `i` on.
fn clauses(ts: &Vec<Token>, i: usize) -> (r: Result<(Clauses, usize), Failure>)
    requires
        i <= ts.len(),
    ensures
        match r {
            Ok((v, j)) => p_clauses(
                token_views(ts@),
                i as int,
                ClausesView { body: None, language: None, volatility: None },
            ) == Parsed::Done(v@, j as int) && i <= j <= ts.len(),
            Err(f) => p_clauses(
                token_views(ts@),
                i as int,
                ClausesView { body: None, language: None, volatility: None },
            ) == Parsed::<ClausesView>::Fail(f.at as int, views(f.expected@)) && i <= f.at <= ts.len(),
        },
{
    let ghost tv = token_views(ts@);
    let ghost start = ClausesView { body: None, language: None, volatility: None };
    let mut c = Clauses { body: None, language: None, volatility: None };
    let mut k = i;
    loop
        invariant
            i <= k <= ts.len(),
            tv == token_views(ts@),
            start == (ClausesView { body: None, language: None, volatility: None }),
            p_clauses(tv, i as int, start) == p_clauses(tv, k as int, c@),
        decreases ts.len() - k,
    {
        if at_kw(ts, k, Keyword::AS) {
            if at_kind(ts, k + 1, TokenKind::StringLiteral) {
                c.body = Some(text_at(ts, k + 1));
                k += 2;
            } else {
                return fail(k + 1, "string");
            }
        } else if at_kw(ts, k, Keyword::LANGUAGE) {
            if at_kind(ts, k + 1, TokenKind::Identifier) {
                c.language = Some(text_at(ts, k + 1));
                k += 2;
            } else {
                return fail(k + 1, "identifier");
            }
        } else if at_kw(ts, k, Keyword::IMMUTABLE) {
            c.volatility = Some(Volatility::Immutable);
            k += 1;
        } else if at_kw(ts, k, Keyword::STABLE) {
            c.volatility = Some(Volatility::Stable);
            k += 1;
        } else if at_kw(ts, k, Keyword::VOLATILE) {
            c.volatility = Some(Volatility::Volatile);
            k += 1;
        } else {
            return Ok((c, k));
        }
    }
}

/// The arguments of a function in round brackets; there may be none.
pub open spec fn p_argument_list(ts: Seq<TokenView>, i: int) -> Parsed<Seq<FieldView>> {
    if !is_kind(ts, i, TokenKind::LeftParen) {
        Parsed::Fail(i, words("("@))
    } else if is_kind(ts, i + 1, TokenKind::RightParen) {
        Parsed::Done(Seq::empty(), i + 2)
    } else {
        p_fields(ts, i + 1, Seq::empty())
    }
}

/// The arguments of a function in round brackets.
pub fn argument_list(ts: &Vec<Token>, i: usize) -> (r: Result<(Vec<FunctionArgument>, usize), Failure>)
    requires
        i <= ts.len(),
    ensures
        match r {
            Ok((v, j)) => p_argument_list(token_views(ts@), i as int) == Parsed::Done(
                argument_views(v@),
                j as int,
            ) && i < j <= ts.len(),
            Err(f) => p_argument_list(token_views(ts@), i as int) == Parsed::<Seq<FieldView>>::Fail(
                f.at as int,
                views(f.expected@),
            ) && i <= f.at <= ts.len(),
        },
{
    if !at_kind(ts, i, TokenKind::LeftParen) {
        fail(i, "(")
    } else if at_kind(ts, i + 1, TokenKind::RightParen) {
        let none: Vec<FunctionArgument> = Vec::new();
        assert(argument_views(none@) =~= Seq::empty());
        Ok((none, i + 2))
    } else {
        arguments(ts, i + 1)
    }
}

/// A function: its name, its arguments, `RETURNS` with its result type,
/// and its clauses, among which the body and the language must be.
#[verifier::opaque]
pub open spec fn p_function(ts: Seq<TokenView>, i: int) -> Parsed<FunctionView> {
    match p_name(ts, i) {
        Parsed::Fail(at, e) => Parsed::Fail(at, e),
        Parsed::Done(n, j) => match p_argument_list(ts, j) {
            Parsed::Fail(at, e) => Parsed::Fail(at, e),
            Parsed::Done(arguments, k) => if !is_kw(ts, k, Keyword::RETURNS) {
                Parsed::Fail(k, words("RETURNS"@))
            } else {
                match p_type(ts, k + 1) {
                    Parsed::Fail(at, e) => Parsed::Fail(at, e),
                    Parsed::Done(return_type, m) => match p_clauses(
                        ts,
                        m,
                        ClausesView { body: None, language: None, volatility: None },
                    ) {
                        Parsed::Fail(at, e) => Parsed::Fail(at, e),
                        Parsed::Done(c, p) => if c.body is None {
                            Parsed::Fail(p, words("AS"@))
                        } else if c.language is None {
                            Parsed::Fail(p, words("LANGUAGE"@))
                        } else {
                            Parsed::Done(
                                FunctionView {
                                    name: n,
                                    arguments,
                                    return_type,
                                    language: c.language->0,
                                    body: c.body->0,
                                    volatility: c.volatility,
                                },
                                p,
                            )
                        },
                    },
                }
            },
        },
    }
}

/// A function.
pub fn function(ts: &Vec<Token>, i: usize) -> (r: Result<(FunctionDefinition, usize), Failure>)
    requires
        i <= ts.len(),
    ensures
        match r {
            Ok((v, j)) => p_function(token_views(ts@), i as int) == Parsed::Done(v@, j as int) && i < j
                <= ts.len(),
            Err(f) => p_function(token_views(ts@), i as int) == Parsed::<FunctionView>::Fail(
                f.at as int,
                views(f.expected@),
            ) && i <= f.at <= ts.len(),
        },
{
    reveal(p_function);
    let (n, j) = match name(ts, i) {
        Err(f) => {
            return Err(f);
        },
        Ok(x) => x,
    };
    let (arguments, k) = match argument_list(ts, j) {
        Err(f) => {
            return Err(f);
        },
        Ok(x) => x,
    };
    if !at_kw(ts, k, Keyword::RETURNS) {
        return fail(k, "RETURNS");
    }
    let (return_type, m) = match sql_type(ts, k + 1) {
        Err(f) => {
            return Err(f);
        },
        Ok(x) => x,
    };
    let (c, p) = match clauses(ts, m) {
        Err(f) => {
            return Err(f);
        },
        Ok(x) => x,
    };
    let volatility = c.volatility;
    match c.body {
        None => fail(p, "AS"),
        Some(body) => match c.language {
            None => fail(p, "LANGUAGE"),
            Some(language) => Ok(
                (FunctionDefinition { name: n, arguments, return_type, language, body, volatility }, p),
            ),
        },
    }
}

/// Strings from `i` on, with commas between them and a closing bracket
/// behind the last.
pub open spec fn p_strings(ts: Seq<TokenView>, i: int, done: Seq<Seq<char>>) -> Parsed<Seq<Seq<char>>>
    decreases ts.len() - i,
{
    if !is_kind(ts, i, TokenKind::StringLiteral) {
        Parsed::Fail(i, words("string"@))
    } else if is_kind(ts, i + 1, TokenKind::Comma) {
        p_strings(ts, i + 2, done.push(ts[i].text))
    } else if is_kind(ts, i + 1, TokenKind::RightParen) {
        Parsed::Done(done.push(ts[i].text), i + 2)
    } else {
        Parsed::Fail(i + 1, words(",|)"@))
    }
}

/// Strings from `i` on, with commas between them and a closing bracket
/// behind the last.
fn strings(ts: &Vec<Token>, i: usize) -> (r: Result<(Vec<String>, usize), Failure>)
    requires
        i <= ts.len(),
    ensures
        match r {
            Ok((v, j)) => p_strings(token_views(ts@), i as int, Seq::empty()) == Parsed::Done(
                views(v@),
                j as int,
            ) && i < j <= ts.len(),
            Err(f) => p_strings(token_views(ts@), i as int, Seq::empty()) == Parsed::<Seq<Seq<char>>>::Fail(
                f.at as int,
                views(f.expected@),
            ) && i <= f.at <= ts.len(),
        },
{
    let ghost tv = token_views(ts@);
    let mut list: Vec<String> = Vec::new();
    let mut j = i;
    assert(views(list@) =~= Seq::empty());
    loop
        invariant
            i <= j <= ts.len(),
            tv == token_views(ts@),
            p_strings(tv, i as int, Seq::empty()) == p_strings(tv, j as int, views(list@)),
        decreases ts.len() - j,
    {
        if !at_kind(ts, j, TokenKind::StringLiteral) {
            return fail(j, "string");
        }
        let ghost before = views(list@);
        list.push(text_at(ts, j));
        assert(views(list@) =~= before.push(tv[j as int].text));
        if at_kind(ts, j + 1, TokenKind::Comma) {
            j += 2;
        } else if at_kind(ts, j + 1, TokenKind::RightParen) {
            return Ok((list, j + 2));
        } else {
            return fail(j + 1, ",|)");
        }
    }
}

/// A declared type: its name, `AS`, and what it is made of: `ENUM` with
/// strings in round brackets, of which there may be none; fields in round
/// brackets; or another type.
#[verifier::opaque]
pub open spec fn p_type_definition(ts: Seq<TokenView>, i: int) -> Parsed<TypeDefinitionView> {
    match p_name(ts, i) {
        Parsed::Fail(at, e) => Parsed::Fail(at, e),
        Parsed::Done(n, j) => if !is_kw(ts, j, Keyword::AS) {
            Parsed::Fail(j, words("AS"@))
        } else if is_kw(ts, j + 1, Keyword::ENUM) {
            if !is_kind(ts, j + 2, TokenKind::LeftParen) {
                Parsed::Fail(j + 2, words("("@))
            } else if is_kind(ts, j + 3, TokenKind::RightParen) {
                Parsed::Done(TypeDefinitionView { name: n, kind: KindView::Enum(Seq::empty()) }, j + 4)
            } else {
                match p_strings(ts, j + 3, Seq::empty()) {
                    Parsed::Fail(at, e) => Parsed::Fail(at, e),
                    Parsed::Done(values, k) => Parsed::Done(
                        TypeDefinitionView { name: n, kind: KindView::Enum(values) },
                        k,
                    ),
                }
            }
        } else if is_kind(ts, j + 1, TokenKind::LeftParen) {
            match p_fields(ts, j + 2, Seq::empty()) {
                Parsed::Fail(at, e) => Parsed::Fail(at, e),
                Parsed::Done(fields, k) => Parsed::Done(
                    TypeDefinitionView { name: n, kind: KindView::Composite(fields) },
                    k,
                ),
            }
        } else {
            match p_type(ts, j + 1) {
                Parsed::Fail(at, e) => Parsed::Fail(at, e),
                Parsed::Done(base, k) => Parsed::Done(
                    TypeDefinitionView { name: n, kind: KindView::Alias(base) },
                    k,
                ),
            }
        },
    }
}

/// A declared type.
pub fn type_definition(ts: &Vec<Token>, i: usize) -> (r: Result<(TypeDefinition, usize), Failure>)
    requires
        i <= ts.len(),
    ensures
        match r {
            Ok((v, j)) => p_type_definition(token_views(ts@), i as int) == Parsed::Done(v@, j as int) && i
                < j <= ts.len(),
            Err(f) => p_type_definition(token_views(ts@), i as int) == Parsed::<TypeDefinitionView>::Fail(
                f.at as int,
                views(f.expected@),
            ) && i <= f.at <= ts.len(),
        },
{
    reveal(p_type_definition);
    let (n, j) = match name(ts, i) {
        Err(f) => {
            return Err(f);
        },
        Ok(x) => x,
    };
    if !at_kw(ts, j, Keyword::AS) {
        return fail(j, "AS");
    }
    if at_kw(ts, j + 1, Keyword::ENUM) {
        if !at_kind(ts, j + 2, TokenKind::LeftParen) {
            fail(j + 2, "(")
        } else if at_kind(ts, j + 3, TokenKind::RightParen) {
            let none: Vec<String> = Vec::new();
            assert(views(none@) =~= Seq::empty());
            Ok((TypeDefinition { name: n, kind: TypeDefinitionKind::Enum(none) }, j + 4))
        } else {
            match strings(ts, j + 3) {
                Err(f) => Err(f),
                Ok((values, k)) => Ok((TypeDefinition { name: n, kind: TypeDefinitionKind::Enum(values) }, k)),
            }
        }
    } else if at_kind(ts, j + 1, TokenKind::LeftParen) {
        match fields(ts, j + 2) {
            Err(f) => Err(f),
            Ok((list, k)) => Ok((TypeDefinition { name: n, kind: TypeDefinitionKind::Composite(list) }, k)),
        }
    } else {
        match sql_type(ts, j + 1) {
            Err(f) => Err(f),
            Ok((base, k)) => Ok((TypeDefinition { name: n, kind: TypeDefinitionKind::Alias(base) }, k)),
        }
    }
}

/// The checks of a domain from `i` on: each `CHECK` with an expression in
/// round brackets.
pub open spec fn p_checks(ts: Seq<TokenView>, i: int, done: Seq<Seq<char>>) -> Parsed<Seq<Seq<char>>>
    decreases ts.len() - i,
{
    if !is_kw(ts, i, Keyword::CHECK) {
        Parsed::Done(done, i)
    } else {
        match p_paren_expr(ts, i + 1) {
            Parsed::Fail(at, e) => Parsed::Fail(at, e),
            Parsed::Done(e, j) => if i < j <= ts.len() {
                p_checks(ts, j, done.push(e))
            } else {
                Parsed::Done(done, i)
            },
        }
    }
}

/// The domain of the name `n` over the type `base` with the checks that
/// were read, if they were.
pub open spec fn domain_of(n: crate::ast::NameView, base: TypeView, checks: Parsed<Seq<Seq<char>>>) -> Parsed<
    TypeDefinitionView,
> {
    match checks {
        Parsed::Fail(at, e) => Parsed::Fail(at, e),
        Parsed::Done(list, m) => Parsed::Done(
            TypeDefinitionView { name: n, kind: KindView::Domain(base, list) },
            m,
        ),
    }
}

/// A domain: its name, `AS`, the type that it is made of, and its checks.
#[verifier::opaque]
pub open spec fn p_domain(ts: Seq<TokenView>, i: int) -> Parsed<TypeDefinitionView> {
    match p_name(ts, i) {
        Parsed::Fail(at, e) => Parsed::Fail(at, e),
        Parsed::Done(n, j) => if !is_kw(ts, j, Keyword::AS) {
            Parsed::Fail(j, words("AS"@))
        } else {
            match p_type(ts, j + 1) {
                Parsed::Fail(at, e) => Parsed::Fail(at, e),
                Parsed::Done(base, k) => domain_of(n, base, p_checks(ts, k, Seq::empty())),
            }
        },
    }
}

/// A domain.
pub fn domain(ts: &Vec<Token>, i: usize) -> (r: Result<(TypeDefinition, usize), Failure>)
    requires
        i <= ts.len(),
    ensures
        match r {
            Ok((v, j)) => p_domain(token_views(ts@), i as int) == Parsed::Done(v@, j as int) && i < j
                <= ts.len(),
            Err(f) => p_domain(token_views(ts@), i as int) == Parsed::<TypeDefinitionView>::Fail(
                f.at as int,
                views(f.expected@),
            ) && i <= f.at <= ts.len(),
        },
{
    reveal(p_domain);
    let ghost tv = token_views(ts@);
    let (n, j) = match name(ts, i) {
        Err(f) => {
            return Err(f);
        },
        Ok(x) => x,
    };
    if !at_kw(ts, j, Keyword::AS) {
        return fail(j, "AS");
    }
    let (base, k) = match sql_type(ts, j + 1) {
        Err(f) => {
            return Err(f);
        },
        Ok(x) => x,
    };
    let mut checks: Vec<String> = Vec::new();
    let mut m = k;
    assert(views(checks@) =~= Seq::empty());
    while at_kw(ts, m, Keyword::CHECK)
        invariant
            i < k <= m <= ts.len(),
            tv == token_views(ts@),
            p_domain(tv, i as int) == domain_of(n@, base@, p_checks(tv, m as int, views(checks@))),
        decreases ts.len() - m,
    {
        let ghost before = views(checks@);
        match paren_expr(ts, m + 1) {
            Err(f) => {
                return Err(f);
            },
            Ok((e, p)) => {
                checks.push(e);
                assert(views(checks@) =~= before.push(e@));
                m = p;
            },
        }
    }
    Ok((TypeDefinition { name: n, kind: TypeDefinitionKind::Domain(base, checks) }, m))
}

/// The name of an extension, optionally behind `IF NOT EXISTS`.
pub open spec fn p_extension(ts: Seq<TokenView>, i: int) -> Parsed<Seq<char>> {
    if is_kw(ts, i, Keyword::IF) {
        if !is_kw(ts, i + 1, Keyword::NOT) {
            Parsed::Fail(i + 1, words("NOT"@))
        } else if !is_kw(ts, i + 2, Keyword::EXISTS) {
            Parsed::Fail(i + 2, words("EXISTS"@))
        } else {
            p_ident(ts, i + 3)
        }
    } else {
        p_ident(ts, i)
    }
}

/// A statement: `CREATE`, the kind of object, and what the parser of that
/// kind reads. A function may have `OR REPLACE` before it.
pub open spec fn p_statement(ts: Seq<TokenView>, i: int) -> Parsed<StatementView> {
    if !is_kw(ts, i, Keyword::CREATE) {
        Parsed::Fail(i, words("CREATE"@))
    } else if is_kw(ts, i + 1, Keyword::TABLE) {
        match p_table(ts, i + 2) {
            Parsed::Fail(at, e) => Parsed::Fail(at, e),
            Parsed::Done(t, j) => Parsed::Done(StatementView::Table(t), j),
        }
    } else if is_kw(ts, i + 1, Keyword::SCHEMA) {
        match p_ident(ts, i + 2) {
            Parsed::Fail(at, e) => Parsed::Fail(at, e),
            Parsed::Done(n, j) => Parsed::Done(StatementView::Schema(n), j),
        }
    } else if is_kw(ts, i + 1, Keyword::EXTENSION) {
        match p_extension(ts, i + 2) {
            Parsed::Fail(at, e) => Parsed::Fail(at, e),
            Parsed::Done(n, j) => Parsed::Done(StatementView::Extension(n), j),
        }
    } else if is_kw(ts, i + 1, Keyword::TYPE) {
        match p_type_definition(ts, i + 2) {
            Parsed::Fail(at, e) => Parsed::Fail(at, e),
            Parsed::Done(t, j) => Parsed::Done(StatementView::Type(t), j),
        }
    } else if is_kw(ts, i + 1, Keyword::DOMAIN) {
        match p_domain(ts, i + 2) {
            Parsed::Fail(at, e) => Parsed::Fail(at, e),
            Parsed::Done(t, j) => Parsed::Done(StatementView::Type(t), j),
        }
    } else if is_kw(ts, i + 1, Keyword::FUNCTION) {
        match p_function(ts, i + 2) {
            Parsed::Fail(at, e) => Parsed::Fail(at, e),
            Parsed::Done(f, j) => Parsed::Done(StatementView::Function(f), j),
        }
    } else if is_kw(ts, i + 1, Keyword::OR) {
        if !is_kw(ts, i + 2, Keyword::REPLACE) {
            Parsed::Fail(i + 2, words("REPLACE"@))
        } else if !is_kw(ts, i + 3, Keyword::FUNCTION) {
            Parsed::Fail(i + 3, words("FUNCTION"@))
        } else {
            match p_function(ts, i + 4) {
                Parsed::Fail(at, e) => Parsed::Fail(at, e),
                Parsed::Done(f, j) => Parsed::Done(StatementView::Function(f), j),
            }
        }
    } else {
        Parsed::Fail(i + 1, words("TABLE|SCHEMA|EXTENSION|TYPE|DOMAIN|FUNCTION|OR"@))
    }
}

/// A statement.
pub fn statement(ts: &Vec<Token>, i: usize) -> (r: Result<(Statement, usize), Failure>)
    requires
        i <= ts.len(),
    ensures
        match r {
            Ok((v, j)) => p_statement(token_views(ts@), i as int) == Parsed::Done(v@, j as int) && i < j
                <= ts.len(),
            Err(f) => p_statement(token_views(ts@), i as int) == Parsed::<StatementView>::Fail(
                f.at as int,
                views(f.expected@),
            ) && i <= f.at <= ts.len(),
        },
{
    if !at_kw(ts, i, Keyword::CREATE) {
        fail(i, "CREATE")
    } else if at_kw(ts, i + 1, Keyword::TABLE) {
        match table(ts, i + 2) {
            Err(f) => Err(f),
            Ok((t, j)) => Ok((Statement::Table(t), j)),
        }
    } else if at_kw(ts, i + 1, Keyword::SCHEMA) {
        match ident(ts, i + 2) {
            Err(f) => Err(f),
            Ok((n, j)) => Ok((Statement::Schema(SchemaDefinition { name: n }), j)),
        }
    } else if at_kw(ts, i + 1, Keyword::EXTENSION) {
        let named = if at_kw(ts, i + 2, Keyword::IF) {
            if !at_kw(ts, i + 3, Keyword::NOT) {
                fail(i + 3, "NOT")
            } else if !at_kw(ts, i + 4, Keyword::EXISTS) {
                fail(i + 4, "EXISTS")
            } else {
                ident(ts, i + 5)
            }
        } else {
            ident(ts, i + 2)
        };
        match named {
            Err(f) => Err(f),
            Ok((n, j)) => Ok((Statement::Extension(ExtensionDefinition { name: n }), j)),
        }
    } else if at_kw(ts, i + 1, Keyword::TYPE) {
        match type_definition(ts, i + 2) {
            Err(f) => Err(f),
            Ok((t, j)) => Ok((Statement::Type(t), j)),
        }
    } else if at_kw(ts, i + 1, Keyword::DOMAIN) {
        match domain(ts, i + 2) {
            Err(f) => Err(f),
            Ok((t, j)) => Ok((Statement::Type(t), j)),
        }
    } else if at_kw(ts, i + 1, Keyword::FUNCTION) {
        match function(ts, i + 2) {
            Err(f) => Err(f),
            Ok((f, j)) => Ok((Statement::Function(f), j)),
        }
    } else if at_kw(ts, i + 1, Keyword::OR) {
        if !at_kw(ts, i + 2, Keyword::REPLACE) {
            fail(i + 2, "REPLACE")
        } else if !at_kw(ts, i + 3, Keyword::FUNCTION) {
            fail(i + 3, "FUNCTION")
        } else {
            match function(ts, i + 4) {
                Err(f) => Err(f),
                Ok((f, j)) => Ok((Statement::Function(f), j)),
            }
        }
    } else {
        fail(i + 1, "TABLE|SCHEMA|EXTENSION|TYPE|DOMAIN|FUNCTION|OR")
    }
}

/// Where the parser takes up its work after a failure at `at` in the
/// statement that `i` lies in, `depth` brackets deep: behind the next
/// semicolon, from `at` on, that stands in no bracket of the statement, or
/// at the end.
pub open spec fn recover(ts: Seq<TokenView>, i: int, depth: nat, at: int) -> int
    decreases ts.len() - i,
{
    if i < 0 || i >= ts.len() {
        ts.len() as int
    } else if ts[i].kind == TokenKind::Semicolon && depth == 0 && i >= at {
        i + 1
    } else if ts[i].kind == TokenKind::LeftParen {
        recover(ts, i + 1, depth + 1, at)
    } else if ts[i].kind == TokenKind::RightParen && depth > 0 {
        recover(ts, i + 1, (depth - 1) as nat, at)
    } else {
        recover(ts, i + 1, depth, at)
    }
}

/// Where the parser takes up its work after a failure at `at` in the
/// statement that starts at `i`.
fn resume(ts: &Vec<Token>, i: usize, at: usize) -> (r: usize)
    requires
        i <= at <= ts.len(),
    ensures
        r == recover(token_views(ts@), i as int, 0, at as int),
        at <= r <= ts.len(),
        at < ts.len() ==> at < r,
{
    let ghost tv = token_views(ts@);
    let mut k = i;
    let mut depth: usize = 0;
    while k < ts.len()
        invariant
            i <= k <= ts.len(),
            i <= at <= ts.len(),
            k <= at || at < ts.len(),
            depth <= k,
            tv == token_views(ts@),
            recover(tv, i as int, 0, at as int) == recover(tv, k as int, depth as nat, at as int),
        decreases ts.len() - k,
    {
        match ts[k].kind {
            TokenKind::Semicolon => {
                if depth == 0 && k >= at {
                    return k + 1;
                }
            },
            TokenKind::LeftParen => {
                depth += 1;
            },
            TokenKind::RightParen => {
                if depth > 0 {
                    depth -= 1;
                }
            },
            _ => {},
        }
        k += 1;
    }
    k
}

/// What a source file holds: its statements, and where the parser failed
/// with what it expected there.
pub struct Outcome {
    pub statements: Seq<StatementView>,
    pub failures: Seq<(int, Seq<Seq<char>>)>,
}

/// The statements from `i` on, added to what `out` holds. Each statement
/// ends with a semicolon; a semicolon alone is passed over. After a
/// failure the parser takes up its work where [`recover`] says.
pub open spec fn p_statements(ts: Seq<TokenView>, i: int, out: Outcome) -> Outcome
    decreases ts.len() - i,
{
    if i < 0 || i >= ts.len() {
        out
    } else if ts[i].kind == TokenKind::Semicolon {
        p_statements(ts, i + 1, out)
    } else {
        match p_statement(ts, i) {
            Parsed::Done(s, j) => if is_kind(ts, j, TokenKind::Semicolon) && i <= j {
                p_statements(ts, j + 1, Outcome { statements: out.statements.push(s), ..out })
            } else {
                let failed = Outcome { failures: out.failures.push((j, words(";"@))), ..out };
                let r = recover(ts, i, 0, j);
                if i < r <= ts.len() {
                    p_statements(ts, r, failed)
                } else {
                    failed
                }
            },
            Parsed::Fail(at, e) => {
                let failed = Outcome { failures: out.failures.push((at, e)), ..out };
                let r = recover(ts, i, 0, at);
                if i < r <= ts.len() {
                    p_statements(ts, r, failed)
                } else {
                    failed
                }
            },
        }
    }
}

/// What the tokens of a source file hold.
pub open spec fn parse_spec(ts: Seq<TokenView>) -> Outcome {
    p_statements(ts, 0, Outcome { statements: Seq::empty(), failures: Seq::empty() })
}

/// The views of a list of statements.
pub open spec fn statement_views(s: Seq<Statement>) -> Seq<StatementView> {
    s.map_values(|x: Statement| x@)
}

/// The error reports the failure at the token `at` with `expected` as what
/// could have stood there: it holds that token, or none where the tokens
/// had ended.
pub open spec fn reports(e: ParseError, tokens: Seq<TokenView>, at: int, expected: Seq<Seq<char>>) -> bool {
    &&& e matches ParseError::UnrecognizedToken { token, expected: listed }
    &&& views(listed@) == expected
    &&& match token {
        Some(t) => 0 <= at < tokens.len() && t@ == tokens[at],
        None => !(0 <= at < tokens.len()),
    }
}

/// The errors report the failures, one for one.
pub open spec fn report_all(errors: Seq<ParseError>, tokens: Seq<TokenView>, failures: Seq<(int, Seq<Seq<char>>)>) -> bool {
    &&& errors.len() == failures.len()
    &&& forall|k: int|
        0 <= k < errors.len() ==> reports(#[trigger] errors[k], tokens, failures[k].0, failures[k].1)
}

/// The error that reports the failure.
fn report(ts: &Vec<Token>, f: Failure) -> (e: ParseError)
    requires
        f.at <= ts.len(),
    ensures
        reports(e, token_views(ts@), f.at as int, views(f.expected@)),
{
    let token = if f.at < ts.len() {
        Some(ts[f.at].clone())
    } else {
        None
    };
    ParseError::UnrecognizedToken { token, expected: f.expected }
}

/// Parses the tokens of a source file into its statements. Where the
/// parser fails it goes on behind the next semicolon, and in the end
/// reports every failure; the statements are returned only if there was
/// none.
pub fn parse_statement_list(tokens: &Vec<Token>) -> (r: Result<Vec<Statement>, Vec<ParseError>>)
    ensures
        match r {
            Ok(statements) => parse_spec(token_views(tokens@)).failures.len() == 0 && statement_views(
                statements@,
            ) == parse_spec(token_views(tokens@)).statements,
            Err(errors) => errors.len() > 0 && report_all(
                errors@,
                token_views(tokens@),
                parse_spec(token_views(tokens@)).failures,
            ),
        },
{
    let ghost tv = token_views(tokens@);
    let mut statements: Vec<Statement> = Vec::new();
    let mut errors: Vec<ParseError> = Vec::new();
    let ghost mut failures: Seq<(int, Seq<Seq<char>>)> = Seq::empty();
    let mut k: usize = 0;
    assert(statement_views(statements@) =~= Seq::empty());
    while k < tokens.len()
        invariant
            k <= tokens.len(),
            tv == token_views(tokens@),
            report_all(errors@, tv, failures),
            parse_spec(tv) == p_statements(
                tv,
                k as int,
                Outcome { statements: statement_views(statements@), failures },
            ),
        decreases tokens.len() - k,
    {
        let ghost before = statement_views(statements@);
        if at_kind(tokens, k, TokenKind::Semicolon) {
            k += 1;
        } else {
            match statement(tokens, k) {
                Ok((s, j)) => {
                    if at_kind(tokens, j, TokenKind::Semicolon) {
                        statements.push(s);
                        assert(statement_views(statements@) =~= before.push(s@));
                        k = j + 1;
                    } else {
                        let f = match fail::<()>(j, ";") {
                            Err(f) => f,
                            Ok(_) => Failure { at: j, expected: Vec::new() },
                        };
                        proof {
                            failures = failures.push((j as int, words(";"@)));
                        }
                        errors.push(report(tokens, f));
                        k = resume(tokens, k, j);
                    }
                },
                Err(f) => {
                    let at = f.at;
                    proof {
                        failures = failures.push((f.at as int, views(f.expected@)));
                    }
                    errors.push(report(tokens, f));
                    k = resume(tokens, k, at);
                },
            }
        }
    }
    if errors.len() == 0 {
        Ok(statements)
    } else {
        Err(errors)
    }
}

} // verus!

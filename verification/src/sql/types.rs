//! The parser of types.

use vstd::prelude::*;
use vstd::string::StringExecFns;
use crate::ast::{NameView, ObjectName, SqlType, TypeView};
use crate::lexer::{token_views, Keyword, Token, TokenKind, TokenView};
use crate::sql::common::{
    at_kind, at_kw, at_word, fail, is_kind, is_kw, is_word, text_at, words, Failure, Parsed,
};
use crate::text::{chars_eq, chars_of, views};

verus! {

/// Whether `w` names a type that the database brings along.
pub open spec fn is_builtin(w: Seq<char>) -> bool {
    w == "bigint"@
        || w == "bigserial"@
        || w == "bit"@
        || w == "bool"@
        || w == "boolean"@
        || w == "bytea"@
        || w == "char"@
        || w == "character"@
        || w == "cidr"@
        || w == "date"@
        || w == "decimal"@
        || w == "double"@
        || w == "float"@
        || w == "inet"@
        || w == "int"@
        || w == "int2"@
        || w == "int4"@
        || w == "int8"@
        || w == "integer"@
        || w == "interval"@
        || w == "json"@
        || w == "jsonb"@
        || w == "macaddr"@
        || w == "money"@
        || w == "numeric"@
        || w == "real"@
        || w == "serial"@
        || w == "smallint"@
        || w == "smallserial"@
        || w == "text"@
        || w == "time"@
        || w == "timestamp"@
        || w == "timestamptz"@
        || w == "timetz"@
        || w == "uuid"@
        || w == "varbit"@
        || w == "varchar"@
        || w == "xml"@
}

/// Whether `w` names a type that the database brings along.
pub fn builtin(w: &str) -> (r: bool)
    ensures
        r == is_builtin(w@),
{
    let c = chars_of(w);
    chars_eq(&c, &chars_of("bigint"))
        || chars_eq(&c, &chars_of("bigserial"))
        || chars_eq(&c, &chars_of("bit"))
        || chars_eq(&c, &chars_of("bool"))
        || chars_eq(&c, &chars_of("boolean"))
        || chars_eq(&c, &chars_of("bytea"))
        || chars_eq(&c, &chars_of("char"))
        || chars_eq(&c, &chars_of("character"))
        || chars_eq(&c, &chars_of("cidr"))
        || chars_eq(&c, &chars_of("date"))
        || chars_eq(&c, &chars_of("decimal"))
        || chars_eq(&c, &chars_of("double"))
        || chars_eq(&c, &chars_of("float"))
        || chars_eq(&c, &chars_of("inet"))
        || chars_eq(&c, &chars_of("int"))
        || chars_eq(&c, &chars_of("int2"))
        || chars_eq(&c, &chars_of("int4"))
        || chars_eq(&c, &chars_of("int8"))
        || chars_eq(&c, &chars_of("integer"))
        || chars_eq(&c, &chars_of("interval"))
        || chars_eq(&c, &chars_of("json"))
        || chars_eq(&c, &chars_of("jsonb"))
        || chars_eq(&c, &chars_of("macaddr"))
        || chars_eq(&c, &chars_of("money"))
        || chars_eq(&c, &chars_of("numeric"))
        || chars_eq(&c, &chars_of("real"))
        || chars_eq(&c, &chars_of("serial"))
        || chars_eq(&c, &chars_of("smallint"))
        || chars_eq(&c, &chars_of("smallserial"))
        || chars_eq(&c, &chars_of("text"))
        || chars_eq(&c, &chars_of("time"))
        || chars_eq(&c, &chars_of("timestamp"))
        || chars_eq(&c, &chars_of("timestamptz"))
        || chars_eq(&c, &chars_of("timetz"))
        || chars_eq(&c, &chars_of("uuid"))
        || chars_eq(&c, &chars_of("varbit"))
        || chars_eq(&c, &chars_of("varchar"))
        || chars_eq(&c, &chars_of("xml"))
}

/// The identifiers from `i` on, each with a blank before it, behind
/// `done`; and the position of the first token that is none.
pub open spec fn type_words(ts: Seq<TokenView>, i: int, done: Seq<char>) -> (Seq<char>, int)
    decreases ts.len() - i,
{
    if is_kind(ts, i, TokenKind::Identifier) {
        type_words(ts, i + 1, done + " "@ + ts[i].text)
    } else {
        (done, i)
    }
}

/// Numbers with commas between them and a closing bracket behind the last,
/// written behind `done` as they stand.
pub open spec fn type_numbers(ts: Seq<TokenView>, i: int, done: Seq<char>) -> Parsed<Seq<char>>
    decreases ts.len() - i,
{
    if !is_kind(ts, i, TokenKind::Number) {
        Parsed::Fail(i, words("number"@))
    } else if is_kind(ts, i + 1, TokenKind::Comma) {
        type_numbers(ts, i + 2, done + ts[i].text + ","@)
    } else if is_kind(ts, i + 1, TokenKind::RightParen) {
        Parsed::Done(done + ts[i].text + ")"@, i + 2)
    } else {
        Parsed::Fail(i + 1, words(",|)"@))
    }
}

/// The words `with time zone` stand at `i`.
pub open spec fn is_time_zone(ts: Seq<TokenView>, i: int) -> bool {
    is_kw(ts, i, Keyword::WITH) && is_word(ts, i + 1, "time"@) && is_word(ts, i + 2, "zone"@)
}

/// A type. One word that names no built-in type is the name of a declared
/// type, and so are two words with a point between them. Anything else is a
/// built-in type: one or more words, then optionally numbers in round
/// brackets, then optionally `with time zone`; its text holds the words with
/// one blank between each two.
pub open spec fn p_type(ts: Seq<TokenView>, i: int) -> Parsed<TypeView> {
    if !is_kind(ts, i, TokenKind::Identifier) {
        Parsed::Fail(i, words("type"@))
    } else if is_kind(ts, i + 1, TokenKind::Period) && is_kind(ts, i + 2, TokenKind::Identifier) {
        Parsed::Done(TypeView::Custom(NameView { schema: Some(ts[i].text), name: ts[i + 2].text }), i + 3)
    } else {
        let (w, j) = type_words(ts, i + 1, ts[i].text);
        let sized = if is_kind(ts, j, TokenKind::LeftParen) {
            type_numbers(ts, j + 1, w + "("@)
        } else {
            Parsed::Done(w, j)
        };
        match sized {
            Parsed::Fail(at, e) => Parsed::Fail(at, e),
            Parsed::Done(t, k) => if is_time_zone(ts, k) {
                Parsed::Done(TypeView::Simple(t + " with time zone"@), k + 3)
            } else if k == i + 1 && !is_builtin(w) {
                Parsed::Done(TypeView::Custom(NameView { schema: None, name: w }), k)
            } else {
                Parsed::Done(TypeView::Simple(t), k)
            },
        }
    }
}

/// A run of words ends behind the position at which it starts, or there
/// with nothing added if no identifier stands there.
pub proof fn lemma_type_words(ts: Seq<TokenView>, i: int, done: Seq<char>)
    requires
        0 <= i,
    ensures
        type_words(ts, i, done).1 >= i,
        is_kind(ts, i, TokenKind::Identifier) ==> type_words(ts, i, done).1 > i,
        type_words(ts, i, done).1 == i ==> type_words(ts, i, done).0 == done,
    decreases ts.len() - i,
{
    if is_kind(ts, i, TokenKind::Identifier) {
        lemma_type_words(ts, i + 1, done + " "@ + ts[i].text);
    }
}

/// The identifiers from `i` on, each with a blank before it, behind
/// `done`.
fn name_words(ts: &Vec<Token>, i: usize, done: String) -> (r: (String, usize))
    requires
        i <= ts.len(),
    ensures
        type_words(token_views(ts@), i as int, done@) == (r.0@, r.1 as int),
        i <= r.1 <= ts.len(),
{
    let ghost tv = token_views(ts@);
    let mut text = done;
    let mut j = i;
    while at_kind(ts, j, TokenKind::Identifier)
        invariant
            i <= j <= ts.len(),
            tv == token_views(ts@),
            type_words(tv, i as int, done@) == type_words(tv, j as int, text@),
        decreases ts.len() - j,
    {
        text.append(" ");
        text.append(ts[j].text.as_str());
        j += 1;
    }
    (text, j)
}

/// Numbers with commas between them and a closing bracket behind the last,
/// written behind `done` as they stand.
fn size_numbers(ts: &Vec<Token>, i: usize, done: String) -> (r: Result<(String, usize), Failure>)
    requires
        i <= ts.len(),
    ensures
        match r {
            Ok((v, j)) => type_numbers(token_views(ts@), i as int, done@) == Parsed::Done(v@, j as int)
                && i < j <= ts.len(),
            Err(f) => type_numbers(token_views(ts@), i as int, done@) == Parsed::<Seq<char>>::Fail(
                f.at as int,
                views(f.expected@),
            ) && i <= f.at <= ts.len(),
        },
{
    let ghost tv = token_views(ts@);
    let mut text = done;
    let mut k = i;
    loop
        invariant
            i <= k <= ts.len(),
            tv == token_views(ts@),
            type_numbers(tv, i as int, done@) == type_numbers(tv, k as int, text@),
        decreases ts.len() - k,
    {
        if !at_kind(ts, k, TokenKind::Number) {
            return fail(k, "number");
        }
        text.append(ts[k].text.as_str());
        if at_kind(ts, k + 1, TokenKind::Comma) {
            text.append(",");
            k += 2;
        } else if at_kind(ts, k + 1, TokenKind::RightParen) {
            text.append(")");
            return Ok((text, k + 2));
        } else {
            return fail(k + 1, ",|)");
        }
    }
}

/// A type.
pub fn sql_type(ts: &Vec<Token>, i: usize) -> (r: Result<(SqlType, usize), Failure>)
    requires
        i <= ts.len(),
    ensures
        match r {
            Ok((v, j)) => p_type(token_views(ts@), i as int) == Parsed::Done(v@, j as int) && i < j
                <= ts.len(),
            Err(f) => p_type(token_views(ts@), i as int) == Parsed::<TypeView>::Fail(
                f.at as int,
                views(f.expected@),
            ) && i <= f.at <= ts.len(),
        },
{
    if !at_kind(ts, i, TokenKind::Identifier) {
        return fail(i, "type");
    }
    if at_kind(ts, i + 1, TokenKind::Period) && at_kind(ts, i + 2, TokenKind::Identifier) {
        let n = ObjectName { schema: Some(text_at(ts, i)), name: text_at(ts, i + 2) };
        return Ok((SqlType::Custom(n), i + 3));
    }
    let first = text_at(ts, i);
    let (w, j) = name_words(ts, i + 1, first.clone());
    proof {
        lemma_type_words(token_views(ts@), i + 1, first@);
    }
    let single = j == i + 1 && !builtin(w.as_str());
    let (mut text, k) = if at_kind(ts, j, TokenKind::LeftParen) {
        let mut opened = w;
        opened.append("(");
        match size_numbers(ts, j + 1, opened) {
            Err(f) => {
                return Err(f);
            },
            Ok((t, k)) => (t, k),
        }
    } else {
        (w, j)
    };
    if at_kw(ts, k, Keyword::WITH) && at_word(ts, k + 1, "time") && at_word(ts, k + 2, "zone") {
        text.append(" with time zone");
        Ok((SqlType::Simple(text), k + 3))
    } else if k == i + 1 && single {
        Ok((SqlType::Custom(ObjectName { schema: None, name: first }), k))
    } else {
        Ok((SqlType::Simple(text), k))
    }
}

} // verus!

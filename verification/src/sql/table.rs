//! The parser of tables: columns with their options, and constraints.

use vstd::prelude::*;
use vstd::string::StringExecFns;
use crate::ast::{
    ColumnDefinition, ColumnView, ConstraintView, ForeignConstraintAction, Identity, IndexParameter,
    NameView, ObjectName, TableConstraint, TableDefinition, TableView,
};
use crate::lexer::{is_digit, token_views, Keyword, Token, TokenKind, TokenView};
use crate::sql::common::{
    at_kind, at_kw, fail, ident, ident_list, is_kind, is_kw, name, p_ident, p_ident_list, p_name,
    words, Failure, Parsed,
};
use crate::sql::expr::{expr, p_expr, p_paren_expr, paren_expr};
use crate::sql::types::{p_type, sql_type};
use crate::text::{chars_of, join, join_spec, views};

verus! {

/// What is to happen to a referencing row.
pub open spec fn p_action(ts: Seq<TokenView>, i: int) -> Parsed<ForeignConstraintAction> {
    if is_kw(ts, i, Keyword::NO) {
        if is_kw(ts, i + 1, Keyword::ACTION) {
            Parsed::Done(ForeignConstraintAction::NoAction, i + 2)
        } else {
            Parsed::Fail(i + 1, words("ACTION"@))
        }
    } else if is_kw(ts, i, Keyword::RESTRICT) {
        Parsed::Done(ForeignConstraintAction::Restrict, i + 1)
    } else if is_kw(ts, i, Keyword::CASCADE) {
        Parsed::Done(ForeignConstraintAction::Cascade, i + 1)
    } else if is_kw(ts, i, Keyword::SET) {
        if is_kw(ts, i + 1, Keyword::NULL) {
            Parsed::Done(ForeignConstraintAction::SetNull, i + 2)
        } else if is_kw(ts, i + 1, Keyword::DEFAULT) {
            Parsed::Done(ForeignConstraintAction::SetDefault, i + 2)
        } else {
            Parsed::Fail(i + 1, words("NULL|DEFAULT"@))
        }
    } else {
        Parsed::Fail(i, words("NO|RESTRICT|CASCADE|SET"@))
    }
}

/// What is to happen to a referencing row.
pub fn action(ts: &Vec<Token>, i: usize) -> (r: Result<(ForeignConstraintAction, usize), Failure>)
    requires
        i <= ts.len(),
    ensures
        match r {
            Ok((v, j)) => p_action(token_views(ts@), i as int) == Parsed::Done(v, j as int) && i < j
                <= ts.len(),
            Err(f) => p_action(token_views(ts@), i as int) == Parsed::<ForeignConstraintAction>::Fail(
                f.at as int,
                views(f.expected@),
            ) && i <= f.at <= ts.len(),
        },
{
    if at_kw(ts, i, Keyword::NO) {
        if at_kw(ts, i + 1, Keyword::ACTION) {
            Ok((ForeignConstraintAction::NoAction, i + 2))
        } else {
            fail(i + 1, "ACTION")
        }
    } else if at_kw(ts, i, Keyword::RESTRICT) {
        Ok((ForeignConstraintAction::Restrict, i + 1))
    } else if at_kw(ts, i, Keyword::CASCADE) {
        Ok((ForeignConstraintAction::Cascade, i + 1))
    } else if at_kw(ts, i, Keyword::SET) {
        if at_kw(ts, i + 1, Keyword::NULL) {
            Ok((ForeignConstraintAction::SetNull, i + 2))
        } else if at_kw(ts, i + 1, Keyword::DEFAULT) {
            Ok((ForeignConstraintAction::SetDefault, i + 2))
        } else {
            fail(i + 1, "NULL|DEFAULT")
        }
    } else {
        fail(i, "NO|RESTRICT|CASCADE|SET")
    }
}

/// What a foreign key refers to, and what is to happen to its rows.
pub struct Reference {
    pub table: ObjectName,
    pub columns: Vec<String>,
    pub on_delete: Option<ForeignConstraintAction>,
    pub on_update: Option<ForeignConstraintAction>,
}

/// A reference as contracts see it.
pub struct ReferenceView {
    pub table: NameView,
    pub columns: Seq<Seq<char>>,
    pub on_delete: Option<ForeignConstraintAction>,
    pub on_update: Option<ForeignConstraintAction>,
}

impl View for Reference {
    type V = ReferenceView;

    open spec fn view(&self) -> ReferenceView {
        ReferenceView {
            table: self.table@,
            columns: views(self.columns@),
            on_delete: self.on_delete,
            on_update: self.on_update,
        }
    }
}

/// The clauses `ON DELETE` and `ON UPDATE` from `i` on, in any order; a
/// later one of a kind replaces an earlier one.
pub open spec fn p_actions(ts: Seq<TokenView>, i: int, r: ReferenceView) -> Parsed<ReferenceView>
    decreases ts.len() - i,
{
    if !is_kw(ts, i, Keyword::ON) {
        Parsed::Done(r, i)
    } else if is_kw(ts, i + 1, Keyword::DELETE) {
        match p_action(ts, i + 2) {
            Parsed::Fail(at, e) => Parsed::Fail(at, e),
            Parsed::Done(a, j) => if i < j <= ts.len() {
                p_actions(ts, j, ReferenceView { on_delete: Some(a), ..r })
            } else {
                Parsed::Done(r, i)
            },
        }
    } else if is_kw(ts, i + 1, Keyword::UPDATE) {
        match p_action(ts, i + 2) {
            Parsed::Fail(at, e) => Parsed::Fail(at, e),
            Parsed::Done(a, j) => if i < j <= ts.len() {
                p_actions(ts, j, ReferenceView { on_update: Some(a), ..r })
            } else {
                Parsed::Done(r, i)
            },
        }
    } else {
        Parsed::Fail(i + 1, words("DELETE|UPDATE"@))
    }
}

/// What stands behind `REFERENCES`: the name of a table, optionally its
/// columns in round brackets, and the clauses `ON DELETE` and `ON UPDATE`.
pub open spec fn p_references(ts: Seq<TokenView>, i: int) -> Parsed<ReferenceView> {
    match p_name(ts, i) {
        Parsed::Fail(at, e) => Parsed::Fail(at, e),
        Parsed::Done(table, j) => {
            let listed = if is_kind(ts, j, TokenKind::LeftParen) {
                p_ident_list(ts, j)
            } else {
                Parsed::Done(Seq::empty(), j)
            };
            match listed {
                Parsed::Fail(at, e) => Parsed::Fail(at, e),
                Parsed::Done(columns, k) => p_actions(
                    ts,
                    k,
                    ReferenceView { table, columns, on_delete: None, on_update: None },
                ),
            }
        },
    }
}

/// What stands behind `REFERENCES`.
pub fn references(ts: &Vec<Token>, i: usize) -> (r: Result<(Reference, usize), Failure>)
    requires
        i <= ts.len(),
    ensures
        match r {
            Ok((v, j)) => p_references(token_views(ts@), i as int) == Parsed::Done(v@, j as int) && i < j
                <= ts.len(),
            Err(f) => p_references(token_views(ts@), i as int) == Parsed::<ReferenceView>::Fail(
                f.at as int,
                views(f.expected@),
            ) && i <= f.at <= ts.len(),
        },
{
    let ghost tv = token_views(ts@);
    let (table, j) = match name(ts, i) {
        Err(f) => {
            return Err(f);
        },
        Ok(x) => x,
    };
    let (columns, k) = if at_kind(ts, j, TokenKind::LeftParen) {
        match ident_list(ts, j) {
            Err(f) => {
                return Err(f);
            },
            Ok(x) => x,
        }
    } else {
        let none: Vec<String> = Vec::new();
        assert(views(none@) =~= Seq::empty());
        (none, j)
    };
    let mut r = Reference { table, columns, on_delete: None, on_update: None };
    let ghost start = r@;
    let mut m = k;
    while at_kw(ts, m, Keyword::ON)
        invariant
            i < k <= m <= ts.len(),
            tv == token_views(ts@),
            p_references(tv, i as int) == p_actions(tv, k as int, start),
            p_actions(tv, k as int, start) == p_actions(tv, m as int, r@),
        decreases ts.len() - m,
    {
        if at_kw(ts, m + 1, Keyword::DELETE) {
            match action(ts, m + 2) {
                Err(f) => {
                    return Err(f);
                },
                Ok((a, n)) => {
                    r.on_delete = Some(a);
                    m = n;
                },
            }
        } else if at_kw(ts, m + 1, Keyword::UPDATE) {
            match action(ts, m + 2) {
                Err(f) => {
                    return Err(f);
                },
                Ok((a, n)) => {
                    r.on_update = Some(a);
                    m = n;
                },
            }
        } else {
            return fail(m + 1, "DELETE|UPDATE");
        }
    }
    Ok((r, m))
}

/// The name of a constraint that was given none: the table, the columns
/// and what the kind of the constraint ends in, with underscores between
/// them.
pub open spec fn auto_name(table: Seq<char>, columns: Seq<Seq<char>>, suffix: Seq<char>) -> Seq<char> {
    if columns.len() == 0 {
        table + "_"@ + suffix
    } else {
        table + "_"@ + join_spec(columns, "_"@) + "_"@ + suffix
    }
}

/// The name that was given, else the one made up.
pub open spec fn named(given: Option<Seq<char>>, made_up: Seq<char>) -> Seq<char> {
    match given {
        Some(n) => n,
        None => made_up,
    }
}

/// The name of a constraint: the one given, else the one made up of the
/// table, the columns and the suffix.
fn constraint_name(given: Option<String>, table: &String, columns: &Vec<String>, suffix: &str) -> (r: String)
    ensures
        r@ == named(
            match given {
                Some(n) => Some(n@),
                None => None,
            },
            auto_name(table@, views(columns@), suffix@),
        ),
{
    match given {
        Some(n) => n,
        None => {
            let mut r = table.clone();
            r.append("_");
            if columns.len() > 0 {
                let joined = join(columns, "_");
                r.append(joined.as_str());
                r.append("_");
            }
            r.append(suffix);
            proof {
                assert(r@ =~= auto_name(table@, views(columns@), suffix@));
            }
            r
        },
    }
}

/// The value of a number that is written in digits only and is no larger
/// than a fill factor can be.
pub open spec fn number_value(text: Seq<char>) -> Option<u32>
    decreases text.len(),
{
    if text.len() == 0 {
        None
    } else if !is_digit(text.last()) {
        None
    } else if text.len() == 1 {
        Some((text.last() as u32 - 48) as u32)
    } else {
        match number_value(text.drop_last()) {
            None => None,
            Some(v) => if v * 10 + (text.last() as u32 - 48) <= 0xffff_ffff {
                Some((v * 10 + (text.last() as u32 - 48)) as u32)
            } else {
                None
            },
        }
    }
}

/// The value of a number that is written in digits only.
pub fn value_of(text: &str) -> (r: Option<u32>)
    ensures
        r == number_value(text@),
{
    let chars = chars_of(text);
    if chars.len() == 0 {
        return None;
    }
    let mut v: u32 = 0;
    let mut i: usize = 0;
    while i < chars.len()
        invariant
            i <= chars.len(),
            chars@ == text@,
            chars.len() > 0,
            i > 0 ==> number_value(chars@.take(i as int)) == Some(v),
            i == 0 ==> v == 0,
        decreases chars.len() - i,
    {
        let c = chars[i];
        proof {
            assert(chars@.take(i + 1).drop_last() =~= chars@.take(i as int));
            assert(chars@.take(i + 1).last() == c);
        }
        if !crate::lexer::digit(c) {
            proof {
                lemma_number_prefix(chars@, i + 1);
            }
            return None;
        }
        let d: u32 = c as u32 - 48;
        if v > (0xffff_ffff - d) / 10 {
            proof {
                assert(v * 10 + d > 0xffff_ffff);
                lemma_number_prefix(chars@, i + 1);
            }
            return None;
        }
        v = v * 10 + d;
        i += 1;
    }
    proof {
        assert(chars@.take(i as int) =~= chars@);
    }
    Some(v)
}

/// A number of which a part from the start has no value has none.
proof fn lemma_number_prefix(text: Seq<char>, k: int)
    requires
        1 <= k <= text.len(),
        number_value(text.take(k)) is None,
    ensures
        number_value(text) is None,
    decreases text.len() - k,
{
    if k < text.len() {
        assert(text.take(k + 1).drop_last() =~= text.take(k));
        lemma_number_prefix(text, k + 1);
    } else {
        assert(text.take(k) =~= text);
    }
}

/// The storage parameter of a primary key, if one is given: `WITH`, and
/// in round brackets `FILLFACTOR`, an equals sign and a number.
pub open spec fn p_fillfactor(ts: Seq<TokenView>, i: int) -> Parsed<Option<Seq<IndexParameter>>> {
    if !is_kw(ts, i, Keyword::WITH) {
        Parsed::Done(None, i)
    } else if !is_kind(ts, i + 1, TokenKind::LeftParen) {
        Parsed::Fail(i + 1, words("("@))
    } else if !is_kw(ts, i + 2, Keyword::FILLFACTOR) {
        Parsed::Fail(i + 2, words("FILLFACTOR"@))
    } else if !is_kind(ts, i + 3, TokenKind::Equals) {
        Parsed::Fail(i + 3, words("="@))
    } else if !is_kind(ts, i + 4, TokenKind::Number) {
        Parsed::Fail(i + 4, words("number"@))
    } else if !is_kind(ts, i + 5, TokenKind::RightParen) {
        Parsed::Fail(i + 5, words(")"@))
    } else {
        match number_value(ts[i + 4].text) {
            Some(n) => Parsed::Done(Some(seq![IndexParameter::FillFactor(n)]), i + 6),
            None => Parsed::Fail(i + 4, words("number"@)),
        }
    }
}

/// The storage parameter of a primary key, if one is given.
pub fn fillfactor(ts: &Vec<Token>, i: usize) -> (r: Result<(Option<Vec<IndexParameter>>, usize), Failure>)
    requires
        i <= ts.len(),
    ensures
        match r {
            Ok((v, j)) => p_fillfactor(token_views(ts@), i as int) == Parsed::Done(
                match v {
                    Some(p) => Some(p@),
                    None => None,
                },
                j as int,
            ) && i <= j <= ts.len(),
            Err(f) => p_fillfactor(token_views(ts@), i as int) == Parsed::<Option<Seq<IndexParameter>>>::Fail(
                f.at as int,
                views(f.expected@),
            ) && i <= f.at <= ts.len(),
        },
{
    if !at_kw(ts, i, Keyword::WITH) {
        Ok((None, i))
    } else if !at_kind(ts, i + 1, TokenKind::LeftParen) {
        fail(i + 1, "(")
    } else if !at_kw(ts, i + 2, Keyword::FILLFACTOR) {
        fail(i + 2, "FILLFACTOR")
    } else if !at_kind(ts, i + 3, TokenKind::Equals) {
        fail(i + 3, "=")
    } else if !at_kind(ts, i + 4, TokenKind::Number) {
        fail(i + 4, "number")
    } else if !at_kind(ts, i + 5, TokenKind::RightParen) {
        fail(i + 5, ")")
    } else {
        match value_of(ts[i + 4].text.as_str()) {
            Some(n) => {
                let p = vec![IndexParameter::FillFactor(n)];
                assert(p@ =~= seq![IndexParameter::FillFactor(n)]);
                Ok((Some(p), i + 6))
            },
            None => fail(i + 4, "number"),
        }
    }
}

/// A constraint of a column: `PRIMARY KEY`, `UNIQUE`, `REFERENCES` with
/// what it refers to, or `CHECK` with an expression in round brackets. Its
/// name is the one given, else made up of the table, the column and its
/// kind.
pub open spec fn p_column_constraint(
    ts: Seq<TokenView>,
    i: int,
    table: Seq<char>,
    column: Seq<char>,
    given: Option<Seq<char>>,
) -> Parsed<ConstraintView> {
    if is_kw(ts, i, Keyword::PRIMARY) {
        if is_kw(ts, i + 1, Keyword::KEY) {
            Parsed::Done(
                ConstraintView::Primary {
                    name: named(given, auto_name(table, Seq::empty(), "pkey"@)),
                    columns: seq![column],
                    parameters: None,
                },
                i + 2,
            )
        } else {
            Parsed::Fail(i + 1, words("KEY"@))
        }
    } else if is_kw(ts, i, Keyword::UNIQUE) {
        Parsed::Done(
            ConstraintView::Unique {
                name: named(given, auto_name(table, seq![column], "key"@)),
                columns: seq![column],
            },
            i + 1,
        )
    } else if is_kw(ts, i, Keyword::REFERENCES) {
        match p_references(ts, i + 1) {
            Parsed::Fail(at, e) => Parsed::Fail(at, e),
            Parsed::Done(r, j) => Parsed::Done(
                ConstraintView::Foreign {
                    name: named(given, auto_name(table, seq![column], "fkey"@)),
                    columns: seq![column],
                    ref_table: r.table,
                    ref_columns: r.columns,
                    on_delete: r.on_delete,
                    on_update: r.on_update,
                },
                j,
            ),
        }
    } else if is_kw(ts, i, Keyword::CHECK) {
        match p_paren_expr(ts, i + 1) {
            Parsed::Fail(at, e) => Parsed::Fail(at, e),
            Parsed::Done(e, j) => Parsed::Done(
                ConstraintView::Check {
                    name: named(given, auto_name(table, seq![column], "check"@)),
                    expression: e,
                },
                j,
            ),
        }
    } else {
        Parsed::Fail(i, words("PRIMARY|UNIQUE|REFERENCES|CHECK"@))
    }
}

/// A list that holds the one text `s`.
fn one(s: &String) -> (v: Vec<String>)
    ensures
        views(v@) == seq![s@],
{
    let v = vec![s.clone()];
    assert(views(v@) =~= seq![s@]);
    v
}

/// A constraint of a column.
pub fn column_constraint(ts: &Vec<Token>, i: usize, table: &String, column: &String, given: Option<String>) -> (r:
    Result<(TableConstraint, usize), Failure>)
    requires
        i <= ts.len(),
    ensures
        match r {
            Ok((v, j)) => p_column_constraint(
                token_views(ts@),
                i as int,
                table@,
                column@,
                match given {
                    Some(n) => Some(n@),
                    None => None,
                },
            ) == Parsed::Done(v@, j as int) && i < j <= ts.len(),
            Err(f) => p_column_constraint(
                token_views(ts@),
                i as int,
                table@,
                column@,
                match given {
                    Some(n) => Some(n@),
                    None => None,
                },
            ) == Parsed::<ConstraintView>::Fail(f.at as int, views(f.expected@)) && i <= f.at <= ts.len(),
        },
{
    if at_kw(ts, i, Keyword::PRIMARY) {
        if at_kw(ts, i + 1, Keyword::KEY) {
            let none: Vec<String> = Vec::new();
            assert(views(none@) =~= Seq::empty());
            let name = constraint_name(given, table, &none, "pkey");
            Ok((TableConstraint::Primary { name, columns: one(column), parameters: None }, i + 2))
        } else {
            fail(i + 1, "KEY")
        }
    } else if at_kw(ts, i, Keyword::UNIQUE) {
        let columns = one(column);
        let name = constraint_name(given, table, &columns, "key");
        Ok((TableConstraint::Unique { name, columns }, i + 1))
    } else if at_kw(ts, i, Keyword::REFERENCES) {
        match references(ts, i + 1) {
            Err(f) => Err(f),
            Ok((r, j)) => {
                let columns = one(column);
                let name = constraint_name(given, table, &columns, "fkey");
                Ok(
                    (
                        TableConstraint::Foreign {
                            name,
                            columns,
                            ref_table: r.table,
                            ref_columns: r.columns,
                            on_delete: r.on_delete,
                            on_update: r.on_update,
                        },
                        j,
                    ),
                )
            },
        }
    } else if at_kw(ts, i, Keyword::CHECK) {
        match paren_expr(ts, i + 1) {
            Err(f) => Err(f),
            Ok((expression, j)) => {
                let columns = one(column);
                let name = constraint_name(given, table, &columns, "check");
                Ok((TableConstraint::Check { name, expression }, j))
            },
        }
    } else {
        fail(i, "PRIMARY|UNIQUE|REFERENCES|CHECK")
    }
}

/// How an identity column gets its values: behind `GENERATED` stands
/// `ALWAYS AS IDENTITY` or `BY DEFAULT AS IDENTITY`.
pub open spec fn p_identity(ts: Seq<TokenView>, i: int) -> Parsed<Identity> {
    if is_kw(ts, i, Keyword::ALWAYS) {
        if !is_kw(ts, i + 1, Keyword::AS) {
            Parsed::Fail(i + 1, words("AS"@))
        } else if !is_kw(ts, i + 2, Keyword::IDENTITY) {
            Parsed::Fail(i + 2, words("IDENTITY"@))
        } else {
            Parsed::Done(Identity::Always, i + 3)
        }
    } else if is_kw(ts, i, Keyword::BY) {
        if !is_kw(ts, i + 1, Keyword::DEFAULT) {
            Parsed::Fail(i + 1, words("DEFAULT"@))
        } else if !is_kw(ts, i + 2, Keyword::AS) {
            Parsed::Fail(i + 2, words("AS"@))
        } else if !is_kw(ts, i + 3, Keyword::IDENTITY) {
            Parsed::Fail(i + 3, words("IDENTITY"@))
        } else {
            Parsed::Done(Identity::ByDefault, i + 4)
        }
    } else {
        Parsed::Fail(i, words("ALWAYS|BY"@))
    }
}

/// How an identity column gets its values.
pub fn identity(ts: &Vec<Token>, i: usize) -> (r: Result<(Identity, usize), Failure>)
    requires
        i <= ts.len(),
    ensures
        match r {
            Ok((v, j)) => p_identity(token_views(ts@), i as int) == Parsed::Done(v, j as int) && i < j
                <= ts.len(),
            Err(f) => p_identity(token_views(ts@), i as int) == Parsed::<Identity>::Fail(
                f.at as int,
                views(f.expected@),
            ) && i <= f.at <= ts.len(),
        },
{
    if at_kw(ts, i, Keyword::ALWAYS) {
        if !at_kw(ts, i + 1, Keyword::AS) {
            fail(i + 1, "AS")
        } else if !at_kw(ts, i + 2, Keyword::IDENTITY) {
            fail(i + 2, "IDENTITY")
        } else {
            Ok((Identity::Always, i + 3))
        }
    } else if at_kw(ts, i, Keyword::BY) {
        if !at_kw(ts, i + 1, Keyword::DEFAULT) {
            fail(i + 1, "DEFAULT")
        } else if !at_kw(ts, i + 2, Keyword::AS) {
            fail(i + 2, "AS")
        } else if !at_kw(ts, i + 3, Keyword::IDENTITY) {
            fail(i + 3, "IDENTITY")
        } else {
            Ok((Identity::ByDefault, i + 4))
        }
    } else {
        fail(i, "ALWAYS|BY")
    }
}

/// A constraint of a column starts with the token at `i`.
pub open spec fn starts_column_constraint(ts: Seq<TokenView>, i: int) -> bool {
    is_kw(ts, i, Keyword::PRIMARY) || is_kw(ts, i, Keyword::UNIQUE) || is_kw(ts, i, Keyword::REFERENCES)
        || is_kw(ts, i, Keyword::CHECK)
}

/// The options of a column from `i` on, in any order: `NOT NULL`, `NULL`,
/// `DEFAULT` with an expression, `GENERATED` with how, and constraints,
/// each optionally with `CONSTRAINT` and a name before it. A later option
/// replaces an earlier one of its kind; the constraints are collected.
pub open spec fn p_options(
    ts: Seq<TokenView>,
    i: int,
    table: Seq<char>,
    column: ColumnView,
    constraints: Seq<ConstraintView>,
) -> Parsed<(ColumnView, Seq<ConstraintView>)>
    decreases ts.len() - i,
{
    if is_kw(ts, i, Keyword::NOT) {
        if is_kw(ts, i + 1, Keyword::NULL) {
            p_options(ts, i + 2, table, ColumnView { not_null: true, ..column }, constraints)
        } else {
            Parsed::Fail(i + 1, words("NULL"@))
        }
    } else if is_kw(ts, i, Keyword::NULL) {
        p_options(ts, i + 1, table, ColumnView { not_null: false, ..column }, constraints)
    } else if is_kw(ts, i, Keyword::DEFAULT) {
        match p_expr(ts, i + 1) {
            Parsed::Fail(at, e) => Parsed::Fail(at, e),
            Parsed::Done(e, j) => if i < j <= ts.len() {
                p_options(ts, j, table, ColumnView { default: Some(e), ..column }, constraints)
            } else {
                Parsed::Done((column, constraints), i)
            },
        }
    } else if is_kw(ts, i, Keyword::GENERATED) {
        match p_identity(ts, i + 1) {
            Parsed::Fail(at, e) => Parsed::Fail(at, e),
            Parsed::Done(how, j) => if i < j <= ts.len() {
                p_options(ts, j, table, ColumnView { identity: Some(how), ..column }, constraints)
            } else {
                Parsed::Done((column, constraints), i)
            },
        }
    } else if is_kw(ts, i, Keyword::CONSTRAINT) {
        match p_ident(ts, i + 1) {
            Parsed::Fail(at, e) => Parsed::Fail(at, e),
            Parsed::Done(n, j) => match p_column_constraint(ts, j, table, column.name, Some(n)) {
                Parsed::Fail(at, e) => Parsed::Fail(at, e),
                Parsed::Done(c, k) => if i < k <= ts.len() {
                    p_options(ts, k, table, column, constraints.push(c))
                } else {
                    Parsed::Done((column, constraints), i)
                },
            },
        }
    } else if starts_column_constraint(ts, i) {
        match p_column_constraint(ts, i, table, column.name, None) {
            Parsed::Fail(at, e) => Parsed::Fail(at, e),
            Parsed::Done(c, k) => if i < k <= ts.len() {
                p_options(ts, k, table, column, constraints.push(c))
            } else {
                Parsed::Done((column, constraints), i)
            },
        }
    } else {
        Parsed::Done((column, constraints), i)
    }
}

/// A column of the table `table`: its name, its type and its options; and
/// the constraints that stand among its options.
pub open spec fn p_column(ts: Seq<TokenView>, i: int, table: Seq<char>) -> Parsed<
    (ColumnView, Seq<ConstraintView>),
> {
    match p_ident(ts, i) {
        Parsed::Fail(at, e) => Parsed::Fail(at, e),
        Parsed::Done(n, j) => match p_type(ts, j) {
            Parsed::Fail(at, e) => Parsed::Fail(at, e),
            Parsed::Done(t, k) => p_options(
                ts,
                k,
                table,
                ColumnView { name: n, sql_type: t, not_null: false, default: None, identity: None },
                Seq::empty(),
            ),
        },
    }
}

/// The views of a list of constraints.
pub open spec fn constraint_views(cs: Seq<TableConstraint>) -> Seq<ConstraintView> {
    cs.map_values(|c: TableConstraint| c@)
}

/// The views of a list of columns.
pub open spec fn column_views(cs: Seq<ColumnDefinition>) -> Seq<ColumnView> {
    cs.map_values(|c: ColumnDefinition| c@)
}

/// One option of a column, if one stands at `i`: the column and the
/// constraints after it, and the position behind it.
fn column_option(
    ts: &Vec<Token>,
    i: usize,
    table: &String,
    col: &mut ColumnDefinition,
    cons: &mut Vec<TableConstraint>,
) -> (r: Result<Option<usize>, Failure>)
    requires
        i <= ts.len(),
    ensures
        match r {
            Ok(Some(j)) => p_options(
                token_views(ts@),
                i as int,
                table@,
                old(col)@,
                constraint_views(old(cons)@),
            ) == p_options(token_views(ts@), j as int, table@, final(col)@, constraint_views(final(cons)@))
                && i < j <= ts.len(),
            Ok(None) => p_options(
                token_views(ts@),
                i as int,
                table@,
                old(col)@,
                constraint_views(old(cons)@),
            ) == Parsed::Done((old(col)@, constraint_views(old(cons)@)), i as int) && *final(col) == *old(
                col,
            ) && *final(cons) == *old(cons),
            Err(f) => p_options(
                token_views(ts@),
                i as int,
                table@,
                old(col)@,
                constraint_views(old(cons)@),
            ) == Parsed::<(ColumnView, Seq<ConstraintView>)>::Fail(f.at as int, views(f.expected@)) && i
                <= f.at <= ts.len(),
        },
{
    let ghost before = constraint_views(cons@);
    if at_kw(ts, i, Keyword::NOT) {
        if at_kw(ts, i + 1, Keyword::NULL) {
            col.not_null = true;
            Ok(Some(i + 2))
        } else {
            fail(i + 1, "NULL")
        }
    } else if at_kw(ts, i, Keyword::NULL) {
        col.not_null = false;
        Ok(Some(i + 1))
    } else if at_kw(ts, i, Keyword::DEFAULT) {
        match expr(ts, i + 1) {
            Err(f) => Err(f),
            Ok((e, n)) => {
                col.default = Some(e);
                Ok(Some(n))
            },
        }
    } else if at_kw(ts, i, Keyword::GENERATED) {
        match identity(ts, i + 1) {
            Err(f) => Err(f),
            Ok((how, n)) => {
                col.identity = Some(how);
                Ok(Some(n))
            },
        }
    } else if at_kw(ts, i, Keyword::CONSTRAINT) {
        match ident(ts, i + 1) {
            Err(f) => Err(f),
            Ok((given, n)) => match column_constraint(ts, n, table, &col.name, Some(given)) {
                Err(f) => Err(f),
                Ok((c, p)) => {
                    cons.push(c);
                    assert(constraint_views(cons@) =~= before.push(c@));
                    Ok(Some(p))
                },
            },
        }
    } else if at_kw(ts, i, Keyword::PRIMARY) || at_kw(ts, i, Keyword::UNIQUE) || at_kw(
        ts,
        i,
        Keyword::REFERENCES,
    ) || at_kw(ts, i, Keyword::CHECK) {
        match column_constraint(ts, i, table, &col.name, None) {
            Err(f) => Err(f),
            Ok((c, p)) => {
                cons.push(c);
                assert(constraint_views(cons@) =~= before.push(c@));
                Ok(Some(p))
            },
        }
    } else {
        Ok(None)
    }
}

/// A column of the table `table`, and the constraints that stand among its
/// options.
pub fn column(ts: &Vec<Token>, i: usize, table: &String) -> (r: Result<
    (ColumnDefinition, Vec<TableConstraint>, usize),
    Failure,
>)
    requires
        i <= ts.len(),
    ensures
        match r {
            Ok((c, cs, j)) => p_column(token_views(ts@), i as int, table@) == Parsed::Done(
                (c@, constraint_views(cs@)),
                j as int,
            ) && i < j <= ts.len(),
            Err(f) => p_column(token_views(ts@), i as int, table@) == Parsed::<
                (ColumnView, Seq<ConstraintView>),
            >::Fail(f.at as int, views(f.expected@)) && i <= f.at <= ts.len(),
        },
{
    let ghost tv = token_views(ts@);
    let (n, j) = match ident(ts, i) {
        Err(f) => {
            return Err(f);
        },
        Ok(x) => x,
    };
    let (t, k) = match sql_type(ts, j) {
        Err(f) => {
            return Err(f);
        },
        Ok(x) => x,
    };
    let mut col = ColumnDefinition { name: n, sql_type: t, not_null: false, default: None, identity: None };
    let mut cons: Vec<TableConstraint> = Vec::new();
    let mut m = k;
    assert(constraint_views(cons@) =~= Seq::empty());
    loop
        invariant
            i < k <= m <= ts.len(),
            tv == token_views(ts@),
            p_column(tv, i as int, table@) == p_options(
                tv,
                m as int,
                table@,
                col@,
                constraint_views(cons@),
            ),
        decreases ts.len() - m,
    {
        match column_option(ts, m, table, &mut col, &mut cons) {
            Err(f) => {
                return Err(f);
            },
            Ok(None) => {
                return Ok((col, cons, m));
            },
            Ok(Some(n)) => {
                m = n;
            },
        }
    }
}

/// A constraint of a table starts with the token at `i`.
pub open spec fn starts_table_constraint(ts: Seq<TokenView>, i: int) -> bool {
    is_kw(ts, i, Keyword::CONSTRAINT) || is_kw(ts, i, Keyword::PRIMARY) || is_kw(ts, i, Keyword::FOREIGN)
        || is_kw(ts, i, Keyword::UNIQUE) || is_kw(ts, i, Keyword::CHECK)
}

/// What stands behind the optional name of a constraint of the table
/// `table`: `PRIMARY KEY` with columns and optionally a storage parameter,
/// `FOREIGN KEY` with columns and what they refer to, `UNIQUE` with
/// columns, or `CHECK` with an expression.
pub open spec fn p_constraint_body(ts: Seq<TokenView>, i: int, table: Seq<char>, given: Option<Seq<char>>) -> Parsed<
    ConstraintView,
> {
    if is_kw(ts, i, Keyword::PRIMARY) {
        if !is_kw(ts, i + 1, Keyword::KEY) {
            Parsed::Fail(i + 1, words("KEY"@))
        } else {
            match p_ident_list(ts, i + 2) {
                Parsed::Fail(at, e) => Parsed::Fail(at, e),
                Parsed::Done(columns, j) => match p_fillfactor(ts, j) {
                    Parsed::Fail(at, e) => Parsed::Fail(at, e),
                    Parsed::Done(parameters, k) => Parsed::Done(
                        ConstraintView::Primary {
                            name: named(given, auto_name(table, Seq::empty(), "pkey"@)),
                            columns,
                            parameters,
                        },
                        k,
                    ),
                },
            }
        }
    } else if is_kw(ts, i, Keyword::FOREIGN) {
        if !is_kw(ts, i + 1, Keyword::KEY) {
            Parsed::Fail(i + 1, words("KEY"@))
        } else {
            match p_ident_list(ts, i + 2) {
                Parsed::Fail(at, e) => Parsed::Fail(at, e),
                Parsed::Done(columns, j) => if !is_kw(ts, j, Keyword::REFERENCES) {
                    Parsed::Fail(j, words("REFERENCES"@))
                } else {
                    match p_references(ts, j + 1) {
                        Parsed::Fail(at, e) => Parsed::Fail(at, e),
                        Parsed::Done(r, k) => Parsed::Done(
                            ConstraintView::Foreign {
                                name: named(given, auto_name(table, columns, "fkey"@)),
                                columns,
                                ref_table: r.table,
                                ref_columns: r.columns,
                                on_delete: r.on_delete,
                                on_update: r.on_update,
                            },
                            k,
                        ),
                    }
                },
            }
        }
    } else if is_kw(ts, i, Keyword::UNIQUE) {
        match p_ident_list(ts, i + 1) {
            Parsed::Fail(at, e) => Parsed::Fail(at, e),
            Parsed::Done(columns, j) => Parsed::Done(
                ConstraintView::Unique { name: named(given, auto_name(table, columns, "key"@)), columns },
                j,
            ),
        }
    } else if is_kw(ts, i, Keyword::CHECK) {
        match p_paren_expr(ts, i + 1) {
            Parsed::Fail(at, e) => Parsed::Fail(at, e),
            Parsed::Done(e, j) => Parsed::Done(
                ConstraintView::Check {
                    name: named(given, auto_name(table, Seq::empty(), "check"@)),
                    expression: e,
                },
                j,
            ),
        }
    } else {
        Parsed::Fail(i, words("PRIMARY|FOREIGN|UNIQUE|CHECK"@))
    }
}

/// A constraint of the table `table`: optionally `CONSTRAINT` and a name,
/// then what [`p_constraint_body`] reads.
pub open spec fn p_table_constraint(ts: Seq<TokenView>, i: int, table: Seq<char>) -> Parsed<ConstraintView> {
    if is_kw(ts, i, Keyword::CONSTRAINT) {
        match p_ident(ts, i + 1) {
            Parsed::Fail(at, e) => Parsed::Fail(at, e),
            Parsed::Done(n, j) => p_constraint_body(ts, j, table, Some(n)),
        }
    } else {
        p_constraint_body(ts, i, table, None)
    }
}

/// What stands behind the optional name of a constraint of a table.
fn constraint_body(ts: &Vec<Token>, i: usize, table: &String, given: Option<String>) -> (r: Result<
    (TableConstraint, usize),
    Failure,
>)
    requires
        i <= ts.len(),
    ensures
        match r {
            Ok((v, j)) => p_constraint_body(
                token_views(ts@),
                i as int,
                table@,
                match given {
                    Some(n) => Some(n@),
                    None => None,
                },
            ) == Parsed::Done(v@, j as int) && i < j <= ts.len(),
            Err(f) => p_constraint_body(
                token_views(ts@),
                i as int,
                table@,
                match given {
                    Some(n) => Some(n@),
                    None => None,
                },
            ) == Parsed::<ConstraintView>::Fail(f.at as int, views(f.expected@)) && i <= f.at <= ts.len(),
        },
{
    let none: Vec<String> = Vec::new();
    assert(views(none@) =~= Seq::empty());
    if at_kw(ts, i, Keyword::PRIMARY) {
        if !at_kw(ts, i + 1, Keyword::KEY) {
            return fail(i + 1, "KEY");
        }
        let (columns, j) = match ident_list(ts, i + 2) {
            Err(f) => {
                return Err(f);
            },
            Ok(x) => x,
        };
        let (parameters, k) = match fillfactor(ts, j) {
            Err(f) => {
                return Err(f);
            },
            Ok(x) => x,
        };
        let name = constraint_name(given, table, &none, "pkey");
        Ok((TableConstraint::Primary { name, columns, parameters }, k))
    } else if at_kw(ts, i, Keyword::FOREIGN) {
        if !at_kw(ts, i + 1, Keyword::KEY) {
            return fail(i + 1, "KEY");
        }
        let (columns, j) = match ident_list(ts, i + 2) {
            Err(f) => {
                return Err(f);
            },
            Ok(x) => x,
        };
        if !at_kw(ts, j, Keyword::REFERENCES) {
            return fail(j, "REFERENCES");
        }
        let (r, k) = match references(ts, j + 1) {
            Err(f) => {
                return Err(f);
            },
            Ok(x) => x,
        };
        let name = constraint_name(given, table, &columns, "fkey");
        Ok(
            (
                TableConstraint::Foreign {
                    name,
                    columns,
                    ref_table: r.table,
                    ref_columns: r.columns,
                    on_delete: r.on_delete,
                    on_update: r.on_update,
                },
                k,
            ),
        )
    } else if at_kw(ts, i, Keyword::UNIQUE) {
        let (columns, j) = match ident_list(ts, i + 1) {
            Err(f) => {
                return Err(f);
            },
            Ok(x) => x,
        };
        let name = constraint_name(given, table, &columns, "key");
        Ok((TableConstraint::Unique { name, columns }, j))
    } else if at_kw(ts, i, Keyword::CHECK) {
        let (expression, j) = match paren_expr(ts, i + 1) {
            Err(f) => {
                return Err(f);
            },
            Ok(x) => x,
        };
        let name = constraint_name(given, table, &none, "check");
        Ok((TableConstraint::Check { name, expression }, j))
    } else {
        fail(i, "PRIMARY|FOREIGN|UNIQUE|CHECK")
    }
}

/// A constraint of the table `table`.
pub fn table_constraint(ts: &Vec<Token>, i: usize, table: &String) -> (r: Result<
    (TableConstraint, usize),
    Failure,
>)
    requires
        i <= ts.len(),
    ensures
        match r {
            Ok((v, j)) => p_table_constraint(token_views(ts@), i as int, table@) == Parsed::Done(
                v@,
                j as int,
            ) && i < j <= ts.len(),
            Err(f) => p_table_constraint(token_views(ts@), i as int, table@) == Parsed::<
                ConstraintView,
            >::Fail(f.at as int, views(f.expected@)) && i <= f.at <= ts.len(),
        },
{
    if at_kw(ts, i, Keyword::CONSTRAINT) {
        match ident(ts, i + 1) {
            Err(f) => Err(f),
            Ok((n, j)) => constraint_body(ts, j, table, Some(n)),
        }
    } else {
        constraint_body(ts, i, table, None)
    }
}

/// The columns and constraints of a table from `i` on, with commas between
/// them and a closing bracket behind the last. The constraints among the
/// options of a column stand where the column stands.
pub open spec fn p_elements(
    ts: Seq<TokenView>,
    i: int,
    table: Seq<char>,
    columns: Seq<ColumnView>,
    constraints: Seq<ConstraintView>,
) -> Parsed<(Seq<ColumnView>, Seq<ConstraintView>)>
    decreases ts.len() - i,
{
    let element = if starts_table_constraint(ts, i) {
        match p_table_constraint(ts, i, table) {
            Parsed::Fail(at, e) => Parsed::Fail(at, e),
            Parsed::Done(c, j) => Parsed::Done((columns, constraints.push(c)), j),
        }
    } else {
        match p_column(ts, i, table) {
            Parsed::Fail(at, e) => Parsed::Fail(at, e),
            Parsed::Done((c, cs), j) => Parsed::Done((columns.push(c), constraints + cs), j),
        }
    };
    match element {
        Parsed::Fail(at, e) => Parsed::Fail(at, e),
        Parsed::Done((cols, cons), j) => if is_kind(ts, j, TokenKind::Comma) && i <= j {
            p_elements(ts, j + 1, table, cols, cons)
        } else if is_kind(ts, j, TokenKind::RightParen) {
            Parsed::Done((cols, cons), j + 1)
        } else {
            Parsed::Fail(j, words(",|)"@))
        },
    }
}

/// The table of the name `n` with the columns and constraints that were
/// read, if they were.
pub open spec fn table_of(n: NameView, elements: Parsed<(Seq<ColumnView>, Seq<ConstraintView>)>) -> Parsed<
    TableView,
> {
    match elements {
        Parsed::Fail(at, e) => Parsed::Fail(at, e),
        Parsed::Done((columns, constraints), k) => Parsed::Done(TableView { name: n, columns, constraints }, k),
    }
}

/// A table: its name, and in round brackets its columns and constraints.
#[verifier::opaque]
pub open spec fn p_table(ts: Seq<TokenView>, i: int) -> Parsed<TableView> {
    match p_name(ts, i) {
        Parsed::Fail(at, e) => Parsed::Fail(at, e),
        Parsed::Done(n, j) => if !is_kind(ts, j, TokenKind::LeftParen) {
            Parsed::Fail(j, words("("@))
        } else if is_kind(ts, j + 1, TokenKind::RightParen) {
            Parsed::Done(TableView { name: n, columns: Seq::empty(), constraints: Seq::empty() }, j + 2)
        } else {
            table_of(n, p_elements(ts, j + 1, n.name, Seq::empty(), Seq::empty()))
        },
    }
}

/// The column or constraint that stands at `i`, added to those before
/// it, and the position behind it.
fn element(
    ts: &Vec<Token>,
    i: usize,
    table: &String,
    columns: &mut Vec<ColumnDefinition>,
    constraints: &mut Vec<TableConstraint>,
) -> (r: Result<usize, Failure>)
    requires
        i <= ts.len(),
    ensures
        match r {
            Ok(j) => i < j <= ts.len() && if starts_table_constraint(token_views(ts@), i as int) {
                &&& p_table_constraint(token_views(ts@), i as int, table@) matches Parsed::Done(c, k)
                &&& k == j
                &&& column_views(final(columns)@) == column_views(old(columns)@)
                &&& constraint_views(final(constraints)@) == constraint_views(old(constraints)@).push(c)
            } else {
                &&& p_column(token_views(ts@), i as int, table@) matches Parsed::Done((c, cs), k)
                &&& k == j
                &&& column_views(final(columns)@) == column_views(old(columns)@).push(c)
                &&& constraint_views(final(constraints)@) == constraint_views(old(constraints)@) + cs
            },
            Err(f) => i <= f.at <= ts.len() && if starts_table_constraint(token_views(ts@), i as int) {
                p_table_constraint(token_views(ts@), i as int, table@) == Parsed::<ConstraintView>::Fail(
                    f.at as int,
                    views(f.expected@),
                )
            } else {
                p_column(token_views(ts@), i as int, table@) == Parsed::<
                    (ColumnView, Seq<ConstraintView>),
                >::Fail(f.at as int, views(f.expected@))
            },
        },
{
    let ghost cols = column_views(columns@);
    let ghost cons = constraint_views(constraints@);
    if at_kw(ts, i, Keyword::CONSTRAINT) || at_kw(ts, i, Keyword::PRIMARY) || at_kw(ts, i, Keyword::FOREIGN)
        || at_kw(ts, i, Keyword::UNIQUE) || at_kw(ts, i, Keyword::CHECK) {
        match table_constraint(ts, i, table) {
            Err(f) => Err(f),
            Ok((c, p)) => {
                constraints.push(c);
                assert(constraint_views(constraints@) =~= cons.push(c@));
                Ok(p)
            },
        }
    } else {
        match column(ts, i, table) {
            Err(f) => Err(f),
            Ok((c, mut cs, p)) => {
                let ghost added = constraint_views(cs@);
                columns.push(c);
                assert(column_views(columns@) =~= cols.push(c@));
                constraints.append(&mut cs);
                assert(constraint_views(constraints@) =~= cons + added);
                Ok(p)
            },
        }
    }
}

/// A table: its name, and in round brackets its columns and constraints.
pub fn table(ts: &Vec<Token>, i: usize) -> (r: Result<(TableDefinition, usize), Failure>)
    requires
        i <= ts.len(),
    ensures
        match r {
            Ok((v, j)) => p_table(token_views(ts@), i as int) == Parsed::Done(v@, j as int) && i < j
                <= ts.len(),
            Err(f) => p_table(token_views(ts@), i as int) == Parsed::<TableView>::Fail(
                f.at as int,
                views(f.expected@),
            ) && i <= f.at <= ts.len(),
        },
{
    reveal(p_table);
    let ghost tv = token_views(ts@);
    let (n, j) = match name(ts, i) {
        Err(f) => {
            return Err(f);
        },
        Ok(x) => x,
    };
    if !at_kind(ts, j, TokenKind::LeftParen) {
        return fail(j, "(");
    }
    let mut columns: Vec<ColumnDefinition> = Vec::new();
    let mut constraints: Vec<TableConstraint> = Vec::new();
    assert(column_views(columns@) =~= Seq::empty());
    assert(constraint_views(constraints@) =~= Seq::empty());
    if at_kind(ts, j + 1, TokenKind::RightParen) {
        return Ok((TableDefinition { name: n, columns, constraints }, j + 2));
    }
    let mut k = j + 1;
    loop
        invariant
            i < j < k <= ts.len(),
            tv == token_views(ts@),
            p_table(tv, i as int) == table_of(
                n@,
                p_elements(tv, k as int, n@.name, column_views(columns@), constraint_views(constraints@)),
            ),
        decreases ts.len() - k,
    {
        let m = match element(ts, k, &n.name, &mut columns, &mut constraints) {
            Err(f) => {
                return Err(f);
            },
            Ok(m) => m,
        };
        if at_kind(ts, m, TokenKind::Comma) {
            k = m + 1;
        } else if at_kind(ts, m, TokenKind::RightParen) {
            return Ok((TableDefinition { name: n, columns, constraints }, m + 1));
        } else {
            return fail(m, ",|)");
        }
    }
}

} // verus!

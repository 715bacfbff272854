//! What the parser never makes: a name with a schema that is the empty
//! text.

use vstd::prelude::*;
use crate::ast::{
    ColumnView, ConstraintView, FieldView, FunctionView, NameView, StatementView, TableView, TypeView,
};
use crate::lexer::{
    ident_end, lex, lex_from, scan, skip, token_at, Mode, Scan, Skip, TokenKind, TokenView,
};
use crate::sql::common::{is_kind, p_ident, p_name, Parsed};
use crate::sql::statement::{
    p_argument_list, p_domain, p_fields, p_function, p_statement, p_statements, p_type_definition,
    parse_spec, Outcome,
};
use crate::sql::table::{
    p_actions, p_column, p_column_constraint, p_constraint_body, p_elements, p_options,
    p_references, p_table, p_table_constraint, ReferenceView,
};
use crate::sql::types::p_type;

verus! {

/// No identifier among the tokens has the empty text.
pub open spec fn named(ts: Seq<TokenView>) -> bool {
    forall|k: int| 0 <= k < ts.len() && (#[trigger] ts[k]).kind == TokenKind::Identifier ==> ts[k].text.len() > 0
}

/// The name has no schema, or one that is not the empty text.
pub open spec fn name_view_sound(n: NameView) -> bool {
    n.schema matches Some(s) ==> s.len() > 0
}

/// The type names no declared type, or one whose name is sound.
pub open spec fn type_view_sound(t: TypeView) -> bool {
    t matches TypeView::Custom(n) ==> name_view_sound(n)
}

/// The constraint is no foreign key, or one that refers to a table whose
/// name is sound.
pub open spec fn constraint_view_sound(c: ConstraintView) -> bool {
    c matches ConstraintView::Foreign { ref_table, .. } ==> name_view_sound(ref_table)
}

/// The types of all the fields are sound.
pub open spec fn fields_sound(fields: Seq<FieldView>) -> bool {
    forall|i: int| 0 <= i < fields.len() ==> type_view_sound((#[trigger] fields[i]).sql_type)
}

/// The types of all the columns are sound.
pub open spec fn columns_sound(columns: Seq<ColumnView>) -> bool {
    forall|i: int| 0 <= i < columns.len() ==> type_view_sound((#[trigger] columns[i]).sql_type)
}

/// All the constraints are sound.
pub open spec fn constraints_sound(constraints: Seq<ConstraintView>) -> bool {
    forall|i: int| 0 <= i < constraints.len() ==> constraint_view_sound(#[trigger] constraints[i])
}

/// The name of the table, the types of its columns and its constraints
/// are sound.
pub open spec fn table_view_sound(t: TableView) -> bool {
    &&& name_view_sound(t.name)
    &&& columns_sound(t.columns)
    &&& constraints_sound(t.constraints)
}

/// The name of the function and the types of its arguments and of its
/// result are sound.
pub open spec fn function_view_sound(f: FunctionView) -> bool {
    &&& name_view_sound(f.name)
    &&& fields_sound(f.arguments)
    &&& type_view_sound(f.return_type)
}

/// The names in the statement are sound.
pub open spec fn statement_view_sound(s: StatementView) -> bool {
    match s {
        StatementView::Table(t) => table_view_sound(t),
        StatementView::Function(f) => function_view_sound(f),
        StatementView::Type(t) => name_view_sound(t.name),
        _ => true,
    }
}

/// The names in all the statements are sound.
pub open spec fn statements_sound(statements: Seq<StatementView>) -> bool {
    forall|i: int| 0 <= i < statements.len() ==> statement_view_sound(#[trigger] statements[i])
}

/// The lexer makes no identifier of the empty text.
pub proof fn lemma_lex_from_named(s: Seq<char>, i: int)
    requires
        0 <= i,
    ensures
        lex_from(s, i) matches Ok(ts) ==> named(ts),
    decreases s.len() - i,
{
    match skip(s, i, i, Mode::Code) {
        Skip::Unterminated(_) => {},
        Skip::To(j) => {
            if !(j >= s.len() || j < i) {
                match scan(s, j) {
                    Scan::Invalid { .. } => {},
                    Scan::Token { kind, text, end } => {
                        if j < end <= s.len() {
                            lemma_lex_from_named(s, end);
                            match lex_from(s, end) {
                                Ok(rest) => {
                                    let first = token_at(s, j, kind, text, end);
                                    let all = seq![first] + rest;
                                    if kind == TokenKind::Identifier {
                                        lemma_scanned_identifier(s, j);
                                    }
                                    assert forall|k: int|
                                        0 <= k < all.len() && (#[trigger] all[k]).kind
                                            == TokenKind::Identifier implies all[k].text.len() > 0 by {
                                        if k > 0 {
                                            assert(all[k] == rest[k - 1]);
                                        }
                                    }
                                },
                                Err(_) => {},
                            }
                        }
                    },
                }
            }
        },
    }
}

/// An identifier that the lexer finds at a position has a text.
proof fn lemma_scanned_identifier(s: Seq<char>, j: int)
    requires
        0 <= j < s.len(),
        scan(s, j) matches Scan::Token { kind, .. } && kind == TokenKind::Identifier,
    ensures
        scan(s, j) matches Scan::Token { text, .. } && text.len() > 0,
{
    lemma_ident_end_from(s, j + 1);
}

/// A run of identifier characters ends at or behind where it starts.
proof fn lemma_ident_end_from(s: Seq<char>, i: int)
    requires
        0 <= i,
    ensures
        ident_end(s, i) >= i,
        i <= s.len() ==> ident_end(s, i) <= s.len(),
    decreases s.len() - i,
{
    if i < s.len() && crate::lexer::is_ident_part(s[i]) {
        lemma_ident_end_from(s, i + 1);
    }
}

/// The lexer makes no identifier of the empty text.
pub proof fn lemma_lex_named(s: Seq<char>)
    ensures
        lex(s) matches Ok(ts) ==> named(ts),
{
    lemma_lex_from_named(s, 0);
}

/// A name that the parser reads is sound.
pub proof fn lemma_name_sound(ts: Seq<TokenView>, i: int)
    requires
        named(ts),
    ensures
        p_name(ts, i) matches Parsed::Done(n, _) ==> name_view_sound(n),
{
}

/// A type that the parser reads is sound.
pub proof fn lemma_type_sound(ts: Seq<TokenView>, i: int)
    requires
        named(ts),
    ensures
        p_type(ts, i) matches Parsed::Done(t, _) ==> type_view_sound(t),
{
}

/// The clauses of a reference leave the table that it refers to as it is.
proof fn lemma_actions_keep_table(ts: Seq<TokenView>, i: int, r: ReferenceView)
    ensures
        p_actions(ts, i, r) matches Parsed::Done(out, _) ==> out.table == r.table,
    decreases ts.len() - i,
{
    if crate::sql::common::is_kw(ts, i, crate::lexer::Keyword::ON) {
        if crate::sql::common::is_kw(ts, i + 1, crate::lexer::Keyword::DELETE) {
            match crate::sql::table::p_action(ts, i + 2) {
                Parsed::Done(a, j) => {
                    if i < j <= ts.len() {
                        lemma_actions_keep_table(ts, j, ReferenceView { on_delete: Some(a), ..r });
                    }
                },
                Parsed::Fail(_, _) => {},
            }
        } else if crate::sql::common::is_kw(ts, i + 1, crate::lexer::Keyword::UPDATE) {
            match crate::sql::table::p_action(ts, i + 2) {
                Parsed::Done(a, j) => {
                    if i < j <= ts.len() {
                        lemma_actions_keep_table(ts, j, ReferenceView { on_update: Some(a), ..r });
                    }
                },
                Parsed::Fail(_, _) => {},
            }
        }
    }
}

/// A reference that the parser reads refers to a table whose name is
/// sound.
pub proof fn lemma_references_sound(ts: Seq<TokenView>, i: int)
    requires
        named(ts),
    ensures
        p_references(ts, i) matches Parsed::Done(r, _) ==> name_view_sound(r.table),
{
    match p_name(ts, i) {
        Parsed::Done(table, j) => {
            lemma_name_sound(ts, i);
            let listed = if is_kind(ts, j, TokenKind::LeftParen) {
                crate::sql::common::p_ident_list(ts, j)
            } else {
                Parsed::Done(Seq::empty(), j)
            };
            match listed {
                Parsed::Done(columns, k) => {
                    lemma_actions_keep_table(
                        ts,
                        k,
                        ReferenceView { table, columns, on_delete: None, on_update: None },
                    );
                },
                Parsed::Fail(_, _) => {},
            }
        },
        Parsed::Fail(_, _) => {},
    }
}

/// A constraint of a column that the parser reads is sound.
pub proof fn lemma_column_constraint_sound(
    ts: Seq<TokenView>,
    i: int,
    table: Seq<char>,
    column: Seq<char>,
    given: Option<Seq<char>>,
)
    requires
        named(ts),
    ensures
        p_column_constraint(ts, i, table, column, given) matches Parsed::Done(c, _) ==> constraint_view_sound(
            c,
        ),
{
    lemma_references_sound(ts, i + 1);
}

/// The options of a column that the parser reads leave the type of the
/// column as it is, and add sound constraints only.
proof fn lemma_options_sound(
    ts: Seq<TokenView>,
    i: int,
    table: Seq<char>,
    column: ColumnView,
    constraints: Seq<ConstraintView>,
)
    requires
        named(ts),
        type_view_sound(column.sql_type),
        constraints_sound(constraints),
    ensures
        p_options(ts, i, table, column, constraints) matches Parsed::Done((c, cs), _) ==> type_view_sound(
            c.sql_type,
        ) && constraints_sound(cs),
    decreases ts.len() - i,
{
    if crate::sql::common::is_kw(ts, i, crate::lexer::Keyword::NOT) {
        if crate::sql::common::is_kw(ts, i + 1, crate::lexer::Keyword::NULL) {
            lemma_options_sound(ts, i + 2, table, ColumnView { not_null: true, ..column }, constraints);
        }
    } else if crate::sql::common::is_kw(ts, i, crate::lexer::Keyword::NULL) {
        lemma_options_sound(ts, i + 1, table, ColumnView { not_null: false, ..column }, constraints);
    } else if crate::sql::common::is_kw(ts, i, crate::lexer::Keyword::DEFAULT) {
        match crate::sql::expr::p_expr(ts, i + 1) {
            Parsed::Done(e, j) => {
                if i < j <= ts.len() {
                    lemma_options_sound(ts, j, table, ColumnView { default: Some(e), ..column }, constraints);
                }
            },
            Parsed::Fail(_, _) => {},
        }
    } else if crate::sql::common::is_kw(ts, i, crate::lexer::Keyword::GENERATED) {
        match crate::sql::table::p_identity(ts, i + 1) {
            Parsed::Done(how, j) => {
                if i < j <= ts.len() {
                    lemma_options_sound(
                        ts,
                        j,
                        table,
                        ColumnView { identity: Some(how), ..column },
                        constraints,
                    );
                }
            },
            Parsed::Fail(_, _) => {},
        }
    } else if crate::sql::common::is_kw(ts, i, crate::lexer::Keyword::CONSTRAINT) {
        match p_ident(ts, i + 1) {
            Parsed::Done(n, j) => {
                lemma_column_constraint_sound(ts, j, table, column.name, Some(n));
                match p_column_constraint(ts, j, table, column.name, Some(n)) {
                    Parsed::Done(c, k) => {
                        if i < k <= ts.len() {
                            lemma_pushed_sound(constraints, c);
                            lemma_options_sound(ts, k, table, column, constraints.push(c));
                        }
                    },
                    Parsed::Fail(_, _) => {},
                }
            },
            Parsed::Fail(_, _) => {},
        }
    } else if crate::sql::table::starts_column_constraint(ts, i) {
        lemma_column_constraint_sound(ts, i, table, column.name, None);
        match p_column_constraint(ts, i, table, column.name, None) {
            Parsed::Done(c, k) => {
                if i < k <= ts.len() {
                    lemma_pushed_sound(constraints, c);
                    lemma_options_sound(ts, k, table, column, constraints.push(c));
                }
            },
            Parsed::Fail(_, _) => {},
        }
    }
}

/// A list of sound constraints with a sound one behind it is a list of
/// sound constraints.
proof fn lemma_pushed_sound(constraints: Seq<ConstraintView>, c: ConstraintView)
    requires
        constraints_sound(constraints),
        constraint_view_sound(c),
    ensures
        constraints_sound(constraints.push(c)),
{
    assert forall|i: int| 0 <= i < constraints.push(c).len() implies constraint_view_sound(
        #[trigger] constraints.push(c)[i],
    ) by {
        if i < constraints.len() {
            assert(constraints.push(c)[i] == constraints[i]);
        }
    }
}

/// A column that the parser reads has a sound type, and sound constraints
/// among its options.
pub proof fn lemma_column_sound(ts: Seq<TokenView>, i: int, table: Seq<char>)
    requires
        named(ts),
    ensures
        p_column(ts, i, table) matches Parsed::Done((c, cs), _) ==> type_view_sound(c.sql_type)
            && constraints_sound(cs),
{
    match p_ident(ts, i) {
        Parsed::Done(n, j) => {
            lemma_type_sound(ts, j);
            match p_type(ts, j) {
                Parsed::Done(t, k) => {
                    lemma_options_sound(
                        ts,
                        k,
                        table,
                        ColumnView { name: n, sql_type: t, not_null: false, default: None, identity: None },
                        Seq::empty(),
                    );
                },
                Parsed::Fail(_, _) => {},
            }
        },
        Parsed::Fail(_, _) => {},
    }
}

/// A constraint of a table that the parser reads is sound.
pub proof fn lemma_table_constraint_sound(ts: Seq<TokenView>, i: int, table: Seq<char>)
    requires
        named(ts),
    ensures
        p_table_constraint(ts, i, table) matches Parsed::Done(c, _) ==> constraint_view_sound(c),
{
    if crate::sql::common::is_kw(ts, i, crate::lexer::Keyword::CONSTRAINT) {
        match p_ident(ts, i + 1) {
            Parsed::Done(n, j) => {
                lemma_constraint_body_sound(ts, j, table, Some(n));
            },
            Parsed::Fail(_, _) => {},
        }
    } else {
        lemma_constraint_body_sound(ts, i, table, None);
    }
}

/// What stands behind the name of a constraint of a table is sound.
proof fn lemma_constraint_body_sound(ts: Seq<TokenView>, i: int, table: Seq<char>, given: Option<Seq<char>>)
    requires
        named(ts),
    ensures
        p_constraint_body(ts, i, table, given) matches Parsed::Done(c, _) ==> constraint_view_sound(c),
{
    if crate::sql::common::is_kw(ts, i, crate::lexer::Keyword::FOREIGN) && crate::sql::common::is_kw(
        ts,
        i + 1,
        crate::lexer::Keyword::KEY,
    ) {
        match crate::sql::common::p_ident_list(ts, i + 2) {
            Parsed::Done(columns, j) => {
                lemma_references_sound(ts, j + 1);
            },
            Parsed::Fail(_, _) => {},
        }
    }
}

/// The columns and constraints of a table that the parser reads are
/// sound.
proof fn lemma_elements_sound(
    ts: Seq<TokenView>,
    i: int,
    table: Seq<char>,
    columns: Seq<ColumnView>,
    constraints: Seq<ConstraintView>,
)
    requires
        named(ts),
        columns_sound(columns),
        constraints_sound(constraints),
    ensures
        p_elements(ts, i, table, columns, constraints) matches Parsed::Done((cols, cons), _) ==> columns_sound(
            cols,
        ) && constraints_sound(cons),
    decreases ts.len() - i,
{
    let element = if crate::sql::table::starts_table_constraint(ts, i) {
        lemma_table_constraint_sound(ts, i, table);
        match p_table_constraint(ts, i, table) {
            Parsed::Fail(at, e) => Parsed::Fail(at, e),
            Parsed::Done(c, j) => {
                lemma_pushed_sound(constraints, c);
                Parsed::Done((columns, constraints.push(c)), j)
            },
        }
    } else {
        lemma_column_sound(ts, i, table);
        match p_column(ts, i, table) {
            Parsed::Fail(at, e) => Parsed::Fail(at, e),
            Parsed::Done((c, cs), j) => {
                assert forall|k: int| 0 <= k < columns.push(c).len() implies type_view_sound(
                    (#[trigger] columns.push(c)[k]).sql_type,
                ) by {
                    if k < columns.len() {
                        assert(columns.push(c)[k] == columns[k]);
                    }
                }
                assert forall|k: int| 0 <= k < (constraints + cs).len() implies constraint_view_sound(
                    #[trigger] (constraints + cs)[k],
                ) by {
                    if k < constraints.len() {
                        assert((constraints + cs)[k] == constraints[k]);
                    } else {
                        assert((constraints + cs)[k] == cs[k - constraints.len()]);
                    }
                }
                Parsed::Done((columns.push(c), constraints + cs), j)
            },
        }
    };
    match element {
        Parsed::Done((cols, cons), j) => {
            if is_kind(ts, j, TokenKind::Comma) && i <= j {
                lemma_elements_sound(ts, j + 1, table, cols, cons);
            }
        },
        Parsed::Fail(_, _) => {},
    }
}

/// A table that the parser reads is sound.
pub proof fn lemma_table_sound(ts: Seq<TokenView>, i: int)
    requires
        named(ts),
    ensures
        p_table(ts, i) matches Parsed::Done(t, _) ==> table_view_sound(t),
{
    reveal(p_table);
    lemma_name_sound(ts, i);
    match p_name(ts, i) {
        Parsed::Done(n, j) => {
            lemma_elements_sound(ts, j + 1, n.name, Seq::empty(), Seq::empty());
        },
        Parsed::Fail(_, _) => {},
    }
}

/// Names with their types that the parser reads have sound types.
proof fn lemma_fields_sound(ts: Seq<TokenView>, i: int, done: Seq<FieldView>)
    requires
        named(ts),
        fields_sound(done),
    ensures
        p_fields(ts, i, done) matches Parsed::Done(fields, _) ==> fields_sound(fields),
    decreases ts.len() - i,
{
    match p_ident(ts, i) {
        Parsed::Done(n, j) => {
            lemma_type_sound(ts, j);
            match p_type(ts, j) {
                Parsed::Done(t, k) => {
                    let next = done.push(FieldView { name: n, sql_type: t });
                    assert forall|m: int| 0 <= m < next.len() implies type_view_sound(
                        (#[trigger] next[m]).sql_type,
                    ) by {
                        if m < done.len() {
                            assert(next[m] == done[m]);
                        }
                    }
                    if is_kind(ts, k, TokenKind::Comma) && i <= k {
                        lemma_fields_sound(ts, k + 1, next);
                    }
                },
                Parsed::Fail(_, _) => {},
            }
        },
        Parsed::Fail(_, _) => {},
    }
}

/// A function that the parser reads is sound.
pub proof fn lemma_function_sound(ts: Seq<TokenView>, i: int)
    requires
        named(ts),
    ensures
        p_function(ts, i) matches Parsed::Done(f, _) ==> function_view_sound(f),
{
    reveal(p_function);
    lemma_name_sound(ts, i);
    match p_name(ts, i) {
        Parsed::Done(n, j) => {
            lemma_fields_sound(ts, j + 1, Seq::empty());
            match p_argument_list(ts, j) {
                Parsed::Done(arguments, k) => {
                    lemma_type_sound(ts, k + 1);
                },
                Parsed::Fail(_, _) => {},
            }
        },
        Parsed::Fail(_, _) => {},
    }
}

/// A statement that the parser reads is sound.
pub proof fn lemma_statement_sound(ts: Seq<TokenView>, i: int)
    requires
        named(ts),
    ensures
        p_statement(ts, i) matches Parsed::Done(s, _) ==> statement_view_sound(s),
{
    reveal(p_type_definition);
    reveal(p_domain);
    lemma_table_sound(ts, i + 2);
    lemma_function_sound(ts, i + 2);
    lemma_function_sound(ts, i + 4);
    lemma_name_sound(ts, i + 2);
}

/// The statements that the parser reads from `i` on are sound.
proof fn lemma_statements_sound(ts: Seq<TokenView>, i: int, out: Outcome)
    requires
        named(ts),
        statements_sound(out.statements),
    ensures
        statements_sound(p_statements(ts, i, out).statements),
    decreases ts.len() - i,
{
    if !(i < 0 || i >= ts.len()) {
        if ts[i].kind == TokenKind::Semicolon {
            lemma_statements_sound(ts, i + 1, out);
        } else {
            lemma_statement_sound(ts, i);
            match p_statement(ts, i) {
                Parsed::Done(s, j) => {
                    if is_kind(ts, j, TokenKind::Semicolon) && i <= j {
                        let next = Outcome { statements: out.statements.push(s), ..out };
                        assert forall|k: int| 0 <= k < next.statements.len() implies statement_view_sound(
                            #[trigger] next.statements[k],
                        ) by {
                            if k < out.statements.len() {
                                assert(next.statements[k] == out.statements[k]);
                            }
                        }
                        lemma_statements_sound(ts, j + 1, next);
                    } else {
                        let failed = Outcome {
                            failures: out.failures.push((j, crate::sql::common::words(";"@))),
                            ..out
                        };
                        let r = crate::sql::statement::recover(ts, i, 0, j);
                        if i < r <= ts.len() {
                            lemma_statements_sound(ts, r, failed);
                        }
                    }
                },
                Parsed::Fail(at, e) => {
                    let failed = Outcome { failures: out.failures.push((at, e)), ..out };
                    let r = crate::sql::statement::recover(ts, i, 0, at);
                    if i < r <= ts.len() {
                        lemma_statements_sound(ts, r, failed);
                    }
                },
            }
        }
    }
}

/// The statements that the parser reads from the tokens of a source text
/// are sound.
pub proof fn lemma_parse_sound(ts: Seq<TokenView>)
    requires
        named(ts),
    ensures
        statements_sound(parse_spec(ts).statements),
{
    lemma_statements_sound(ts, 0, Outcome { statements: Seq::empty(), failures: Seq::empty() });
}

} // verus!

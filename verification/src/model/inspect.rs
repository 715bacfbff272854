//! What the introspection of a database has to parse: the arguments and
//! the result type of a function as the catalog describes them.

use vstd::prelude::*;
use vstd::string::StringExecFns;
use crate::ast::{FieldView, FunctionArgument, SqlType, TypeView};
use crate::errors::PsqlpackError;
use crate::lexer::{lex, tokenize};
use crate::sql::common::Parsed;
use crate::sql::statement::{argument_list, argument_views, p_argument_list};
use crate::sql::types::{p_type, sql_type};

verus! {

/// The arguments that the description `args` lists: names with their types
/// and commas between them. None if the description cannot be read so.
pub open spec fn described_arguments(args: Seq<char>) -> Option<Seq<FieldView>> {
    match lex("("@ + args + ")"@) {
        Err(_) => None,
        Ok(tokens) => match p_argument_list(tokens, 0) {
            Parsed::Done(list, end) => if end == tokens.len() {
                Some(list)
            } else {
                None
            },
            Parsed::Fail(_, _) => None,
        },
    }
}

/// The type that the description `text` names. None if the description
/// cannot be read so.
pub open spec fn described_type(text: Seq<char>) -> Option<TypeView> {
    match lex(text) {
        Err(_) => None,
        Ok(tokens) => match p_type(tokens, 0) {
            Parsed::Done(t, end) => if end == tokens.len() {
                Some(t)
            } else {
                None
            },
            Parsed::Fail(_, _) => None,
        },
    }
}

/// Reads the arguments of a function from their description.
pub fn parse_function_arguments(args: &str) -> (r: Result<Vec<FunctionArgument>, PsqlpackError>)
    ensures
        match r {
            Ok(list) => described_arguments(args@) == Some(argument_views(list@)),
            Err(e) => {
                &&& described_arguments(args@) is None
                &&& e matches PsqlpackError::PackageFunctionArgsInspectError(a)
                &&& a@ == args@
            },
        },
{
    let mut text = String::from_str("(");
    text.append(args);
    text.append(")");
    match tokenize(text.as_str()) {
        Err(_) => Err(PsqlpackError::PackageFunctionArgsInspectError(String::from_str(args))),
        Ok(tokens) => match argument_list(&tokens, 0) {
            Err(_) => Err(PsqlpackError::PackageFunctionArgsInspectError(String::from_str(args))),
            Ok((list, end)) => if end == tokens.len() {
                Ok(list)
            } else {
                Err(PsqlpackError::PackageFunctionArgsInspectError(String::from_str(args)))
            },
        },
    }
}

/// Reads the result type of a function from its description.
pub fn parse_return_type(text: &str) -> (r: Result<SqlType, PsqlpackError>)
    ensures
        match r {
            Ok(t) => described_type(text@) == Some(t@),
            Err(e) => {
                &&& described_type(text@) is None
                &&& e matches PsqlpackError::PackageFunctionReturnTypeInspectError(a)
                &&& a@ == text@
            },
        },
{
    match tokenize(text) {
        Err(_) => Err(PsqlpackError::PackageFunctionReturnTypeInspectError(String::from_str(text))),
        Ok(tokens) => match sql_type(&tokens, 0) {
            Err(_) => Err(PsqlpackError::PackageFunctionReturnTypeInspectError(String::from_str(text))),
            Ok((t, end)) => if end == tokens.len() {
                Ok(t)
            } else {
                Err(PsqlpackError::PackageFunctionReturnTypeInspectError(String::from_str(text)))
            },
        },
    }
}

} // verus!

//! The parser: from tokens to the statements of a source file.

pub mod common;
pub mod expr;
pub mod readback;
pub mod sound;
pub mod statement;
pub mod table;
pub mod types;

pub use self::statement::parse_statement_list;

//! Declarative schema management for PostgreSQL-family databases.

pub mod ast;
pub mod errors;
pub mod gen;
pub mod graph;
pub mod lexer;
pub mod model;
pub mod sql;
pub mod text;

//! The context query language: syntax tree, lexer and parser, secondary
//! indexes, and the executor that evaluates a query against the indexes.
pub mod ast;
pub mod lexer;
pub mod dates;
pub mod parser;
pub mod executor;
pub mod indexes;

pub use ast::{CqlError, CqlQuery, Expression, FieldName, Operator, Value};
pub use executor::execute;
pub use indexes::{IndexStats, SecondaryIndexes};
pub use parser::parse;

//! Jinja: expressions, statements and whole templates.

pub mod ast;
pub mod breadth;
pub mod closing;
pub mod colours;
pub mod cover;
pub mod depth;
pub mod gaps;
pub mod grammar;
pub mod highlight;
pub mod lexemes;
pub mod lexer;
pub mod naming;
pub mod overrides;
pub mod parser;
pub mod plain;
pub mod reading;
pub mod spans;
pub mod statement;
pub mod tags;
pub mod template;

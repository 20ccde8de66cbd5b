//! Krez: a small compiled language with a lexer, a parser and a QBE backend.
pub mod text;
pub mod report;
pub mod session;
pub mod lexer;
pub mod backend;
pub mod compiler;
pub mod parser;
pub mod plugin;
pub mod visitor;

//! A toolkit for small interpreted languages: a textual grammar is compiled into
//! an LR action table, input text is tokenized by a character-level scanner, and
//! a shift-reduce driver builds a lazily evaluated syntax tree.
pub mod ast;
pub mod error;
pub mod grammar;
pub mod lexer;
pub mod lrparser;
pub mod math_script;
pub mod runner;
pub mod text;
pub mod token;

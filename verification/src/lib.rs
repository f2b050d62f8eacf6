//! A single-pass lexical scanner for a minimal assignment-expression language:
//! identifiers, integer literals, double-quoted strings and the symbols
//! `+`, `=` and `;`.
//!
//! [`Parser`] reads its input one character at a time. [`Parser::next`] is
//! one step, [`Parser::parse`] drives the steps to the end of the input and
//! accumulates the tokens. What both do is stated over the state machine in
//! [`machine`]; what follows from that for every input is proved in [`laws`].

pub mod chars;
pub mod laws;
pub mod machine;
pub mod parser;
pub mod std_specs;
pub mod token;

pub use machine::Lexer;
pub use parser::Parser;
pub use parser::ParserView;
pub use token::Token;
pub use token::TokenView;

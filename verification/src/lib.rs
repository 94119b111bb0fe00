//! A small expression language: a lexer that turns text into tokens, a
//! parser that turns tokens into a syntax tree, and an evaluator that walks
//! the tree.
//!
//! - `token`, `lexer`: the tokens, and how text is cut into them.
//! - `ast`: statements and expressions.
//! - `grammar`: what the parser makes of a sequence of tokens, as a
//!   mathematical function; `parser` is the program that computes it from a
//!   lexer, two tokens at a time.
//! - `diagnostic`: what is reported of a malformed statement.
//! - `object`, `evaluator`: values, and the value of a statement.
//! - `decimal`: integers in decimal notation.
//! - `repl`: one turn of a read-evaluate-print loop.
//! - `laws`, `spelling`: what is proved of the lexer and the grammar, among
//!   it that a program that is written down is read back as it was.

pub mod ast;
pub mod decimal;
pub mod diagnostic;
pub mod evaluator;
pub mod grammar;
pub mod laws;
pub mod lexer;
pub mod object;
pub mod parser;
pub mod repl;
pub mod spelling;
pub mod token;

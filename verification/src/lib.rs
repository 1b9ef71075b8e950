//! The front end of a small imperative language with integer types of fixed
//! width: a tokenizer, and a parser that checks a list of tokens against the
//! grammar and against the rule that a name is declared before it is used.
//!
//! [`lexical`] and [`grammar`] say, as functions on sequences, what the tokens
//! of a text are and which lists of tokens are programs. [`Lexer`] and
//! [`Parser`] compute what they say.

pub mod constants;
pub mod grammar;
pub mod grammar_laws;
pub mod lexer;
pub mod lexical;
pub mod parser;
pub mod token;

pub use lexer::Lexer;
pub use parser::Parser;
pub use token::{Token, TokenType};

//! The front end of an interactive compiler for a small language of
//! expressions: a tokenizer, a parser that can be resumed when a construct
//! runs over several lines, and the state of a session.
//!
//! Text becomes tokens ([`lexer`]), tokens become nodes of a syntax tree or
//! a request for more tokens ([`parser`], after the [`grammar`]), and the
//! session ([`driver`]) carries what is unfinished from line to line.
//! [`resume`] shows that parsing piece by piece loses nothing.

pub mod ast;
pub mod chars;
pub mod driver;
pub mod grammar;
pub mod lexer;
pub mod parser;
pub mod resume;
pub mod token;

pub use crate::grammar::ParserSettings;
pub use crate::lexer::Lexer;
pub use crate::token::{BinaryOp, Token};

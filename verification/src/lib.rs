//! A lexical analyzer for SQL text.
//!
//! A [`Lexer`] walks over the characters of a SQL string and classifies them
//! into [`Token`]s: keywords, identifiers, string and number literals, and
//! punctuation. Input that fits no token is a [`LexError`].
//!
//! - [`classes`]: the character classes, and runs of characters of a class;
//! - [`text`]: what is assumed of the standard string operations;
//! - [`keyword`] and [`token`]: the keyword and punctuation tables, tokens
//!   and errors;
//! - [`grammar`]: the lexical grammar, as functions on the remaining input;
//! - [`lexer`]: the lexer itself, each routine verified against the grammar;
//! - [`laws`]: what follows from the grammar for every input.

pub mod classes;
pub mod text;
pub mod keyword;
pub mod token;
pub mod grammar;
pub mod lexer;
pub mod laws;

pub use keyword::Keyword;
pub use lexer::Lexer;
pub use token::{LexError, Token, TokenView};

//! A front end for a minimal C-like language: a lexer and a
//! precedence-climbing parser for one function definition of the form
//! `int <name>(void) { return <expr>; }`.
//!
//! - [`lexer`] turns source text into tokens; [`scan`] says what the tokens
//!   of a text are, and [`lexeme`] shows that they are the tokens that the
//!   characters spell.
//! - [`parser`] turns tokens into a syntax tree of the types in [`ast`];
//!   [`grammar`] says what the tree of a token sequence is, and
//!   [`derivation`] shows that it is the tree that the tokens spell.
//! - [`text`] holds helpers on decimal numerals and strings.
//!
//! Both stages stop at the first error and return it as a value.

pub mod ast;
pub mod derivation;
pub mod grammar;
pub mod lexeme;
pub mod lexer;
pub mod parser;
pub mod scan;
pub mod text;

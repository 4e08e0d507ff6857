//! The front end of an interpreter for a small scripting language: a scanner
//! that turns text into tokens, a recursive-descent parser that turns tokens
//! into expression trees, and printers that walk the trees.
//!
//! Every function states what it computes over plain mathematical models:
//! text is a sequence of characters, a token stream a sequence of token
//! views, a tree an `ExprView`. The modules `laws` state what holds of the
//! functions together.

pub mod define_ast;
pub mod error_handling;
pub mod laws;
pub mod lexer;
pub mod parser;
pub mod run;
pub mod syntax;
pub mod text;

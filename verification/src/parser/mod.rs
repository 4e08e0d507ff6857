//! The parser: from a token stream to an expression tree.

pub mod grammar;
pub mod laws;
pub mod parser;

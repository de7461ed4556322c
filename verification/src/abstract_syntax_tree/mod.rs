//! The front end of the expression pipeline: tokens and the lexer that emits them.

pub mod grammar;
pub mod laws;
pub mod lexer;
pub mod token;

//! A lexer for arithmetic expressions.
//!
//! The source text is cut into a flat sequence of classified tokens, each
//! tagged with the range of character offsets it covers. Every contract is
//! stated over the mathematical model in [`abstract_syntax_tree::grammar`]
//! and proved by Verus.

pub mod abstract_syntax_tree;

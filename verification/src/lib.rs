//! A small interpreter for a minimal arithmetic expression language.
//!
//! Source text is turned into tokens by the lexer, the tokens are turned
//! into an expression tree by a recursive-descent parser, and the tree is
//! reduced to a single integer by the evaluator.  Every stage is a pure
//! transformation: the same input always produces the same output, and the
//! first error encountered is reported to the caller instead of panicking.

pub mod eval;
pub mod interpret;
pub mod lexer;
pub mod parser;

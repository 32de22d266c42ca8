//! A verified three-stage pipeline for a minimal parenthesized (S-expression)
//! functional language: a total lexer, a recursive-descent parser, and a
//! tree-walking evaluator with lexical closures.
//!
//! Floating-point literals are carried through the pipeline as IEEE-754
//! binary64 bit patterns (`u64`); the numeric operations on them are performed
//! by a software implementation of IEEE-754 arithmetic from an outside crate,
//! reached through a small set of trusted wrappers in `float_bits`.

pub mod eval;
pub mod float_bits;
pub mod lexer;
pub mod parser;

pub use eval::{Environment, EvalError, LispValue};
pub use lexer::{lexer, split_program, Token};
pub use parser::{parse_one_expression, parser, BinaryOperator, Expression, ParseError};

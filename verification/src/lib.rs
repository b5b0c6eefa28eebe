//! A small interpreter for a Lisp-like language of S-expressions.
//!
//! Text goes through three stages. [`tokenize`] splits it into tokens,
//! [`parse`] builds an expression tree from the tokens, and [`eval`] reduces
//! the tree to a value in an environment of bindings; [`default_env`] is the
//! environment in which `+` and `-` are bound to the functions of the
//! interpreter.
//!
//! Every stage is a function of its input: its contract gives the result as
//! a mathematical function of what it is given, so that the same input always
//! has the same result, and each failure is tied to the inputs on which it
//! occurs.
//!
//! Numbers are double-precision values, but the interpreter does no
//! arithmetic on them. It tells which tokens are literals of numbers, and it
//! records which numbers a result is the sum or difference of, in which
//! order; see [`number::Num`]. Turning that record into a double is left to
//! the caller.
pub mod env;
pub mod eval;
pub mod expr;
pub mod number;
pub mod parser;
pub mod tokenizer;

pub use env::{default_env, Env};
pub use eval::eval;
pub use expr::{Error, Expr, Native};
pub use number::Num;
pub use parser::{parse, read_atom, read_list};
pub use tokenizer::tokenize;

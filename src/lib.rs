//! A tree-walking evaluator for a small dynamically typed language with
//! first-class functions, closures, arrays, hashes and built-in functions.
//!
//! Every executable function is verified against a mathematical semantics:
//! values are modelled by [`value::Value`], scopes by [`environment::State`],
//! and the meaning of a program by the spec functions of [`semantics`].
//!
//! Choices where the language leaves room:
//! - integer `+ - *` and negation wrap around on overflow; `/` truncates
//!   toward zero, and division by zero fails with `division by zero`;
//! - a call checks its argument count against the function's parameters;
//! - a negative array index, like one past the end, gives `null`;
//! - hash entries are kept in key order: integers, then booleans, then strings;
//! - calls may nest as deep as the host allows through
//!   [`evaluator::eval_within`] ([`semantics::CALL_BUDGET`] for
//!   [`evaluator::eval`]); a deeper call fails with `call depth exceeded`
//!   instead of exhausting the stack;
//! - what the host gets back is never a `ReturnValue`: a top-level `return`
//!   gives the value it carries;
//! - `puts` records each printed line in the environment, from which the host
//!   takes them with [`environment::Environment::take_output`].

pub mod ast;
pub mod value;
pub mod object;
pub mod environment;
pub mod text;
pub mod semantics;
pub mod builtins;
pub mod evaluator;
pub mod laws;
pub mod scoping;
pub mod keys;

//! A small front end for a toy expression language: integer literals,
//! arithmetic (`+ - * /`), identifiers, `let` bindings, and brace-delimited
//! blocks that open new lexical scopes.
//!
//! The pipeline has three stages. The lexer turns source bytes into tokens,
//! the parser builds a syntax tree by recursive descent with the usual
//! arithmetic precedence, and the constant evaluator walks the tree,
//! resolving every `let` binding to a 32-bit integer while tracking which
//! scopes are visible. Each stage has a mathematical model (a spec function
//! over sequences) and the executable code is proved to compute exactly what
//! the model says, errors included.

pub mod const_eval;
pub mod lexer;
pub mod parser;

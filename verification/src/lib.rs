//! A verified lexer for flat arithmetic expressions: it turns a byte string
//! into `Number` and `Operator` tokens, skipping whitespace and alphabetic
//! runs, and fails on any other byte.

pub mod chars;
pub mod laws;
pub mod lexer;
pub mod token;

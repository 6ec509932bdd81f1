//! A parser for the untyped lambda calculus, and Latin text written in the
//! Ogham script.
//!
//! The parser reads variables of one letter, abstractions `λx.body`,
//! applications by juxtaposition, and parentheses. Its grammar is given once,
//! as functions on sequences of symbols (`grammar`, `group`), and the parser
//! itself (`reader`, `parser`) is proved to return exactly what the grammar
//! says, failures included. `laws` states what holds of the grammar on every
//! input; `bounds`, `names`, `nested`, `parts` and `written` hold the proofs.

pub mod bounds;
pub mod error;
pub mod grammar;
pub mod group;
pub mod laws;
pub mod names;
pub mod nested;
pub mod ogham;
pub mod parser;
pub mod parts;
pub mod reader;
pub mod symbol;
pub mod term;
pub mod written;

//! A verified interpreter for the Brainfuck language: a tokenizer that keeps
//! exactly the eight instruction characters, a 30000-cell byte tape, and an
//! execution engine proved to follow a small-step machine semantics.
//!
//! Output instructions emit the raw byte value of the current cell, and a
//! bracket without a matching partner is the `UnbalancedLoop` fault as soon
//! as it executes.

pub mod diag;
pub mod fault;
pub mod interpreter;
pub mod laws;
pub mod lexer;
pub mod machine;
pub mod tape;
pub mod token;

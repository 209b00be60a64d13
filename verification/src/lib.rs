//! An interpreter for a small language written in emoji glyphs.
//!
//! A program is a string of glyphs that stand for numbers, arithmetic,
//! conditionals, loops, assignments and functions with one-character names.
//! It is read in three stages:
//!
//! - [`scanner`] walks the text one character at a time, with one character
//!   of lookahead;
//! - [`lexer`] groups the characters into the tokens of [`token`];
//! - [`interpreter`] makes one pass over the tokens, which [`machine`]
//!   describes step by step, and follows the call that the pass may leave.
//!
//! [`script`] puts the stages together. Numbers are doubles, held by their
//! bits in [`number`]; variables and functions live in [`store`]; [`error`]
//! lists what can go wrong. [`laws`] states what holds of whole families of
//! programs.
//!
//! A program may loop for ever, so every evaluation takes a budget of steps
//! and fails when the budget is spent.

pub mod error;
pub mod interpreter;
pub mod laws;
pub mod lexer;
pub mod machine;
pub mod number;
pub mod scanner;
pub mod script;
pub mod store;
pub mod token;

//! A parser for an HTML-like markup language: a grammar written as data, and a
//! backtracking interpreter with a name stack that matches closing tags to
//! their opening tags.
pub mod cli;
pub mod engine;
pub mod error;
pub mod grammar;
pub mod parser;
pub mod tree;

pub use parser::{parse_html, parse_input_by_rule, ParseTree};
pub mod lemmas;
pub mod nesting;
